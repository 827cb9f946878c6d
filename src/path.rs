use vstd::prelude::*;
use std::collections::VecDeque;
use std::collections::vec_deque;
use vstd::std_specs::iter::IteratorSpec;

verus! {

/// One step of an access path, in mathematical form.
pub enum Step {
    /// Descend into the dictionary value stored under this key.
    Attr(Seq<char>),
    /// Descend into the array element at this position.
    Index(nat),
}

/// One step of an access path.
#[derive(Debug)]
pub enum PathElem {
    DictElem { key: String },
    ArrayElem { index: usize },
}

impl View for PathElem {
    type V = Step;

    open spec fn view(&self) -> Step {
        match self {
            PathElem::DictElem { key } => Step::Attr(key@),
            PathElem::ArrayElem { index } => Step::Index(*index as nat),
        }
    }
}

impl PathElem {
    pub fn from_dict_key(key: &str) -> (r: PathElem)
        ensures
            r@ == Step::Attr(key@),
    {
        PathElem::DictElem { key: key.to_owned() }
    }

    pub fn from_array_index(index: usize) -> (r: PathElem)
        ensures
            r@ == Step::Index(index as nat),
    {
        PathElem::ArrayElem { index }
    }
}

/// The steps of a sequence of path elements.
pub open spec fn steps_of(elems: Seq<PathElem>) -> Seq<Step> {
    elems.map_values(|e: PathElem| e@)
}

/// An access path from a search root to a matching key, root-nearest step first.
#[derive(Debug)]
pub struct SearchPath {
    path: VecDeque<PathElem>,
}

impl View for SearchPath {
    type V = Seq<Step>;

    closed spec fn view(&self) -> Seq<Step> {
        steps_of(self.path@)
    }
}

impl SearchPath {
    /// A path of the single step `start`.
    pub fn new(start: PathElem) -> (r: SearchPath)
        ensures
            r@ == seq![start@],
    {
        let mut path: VecDeque<PathElem> = VecDeque::new();
        path.push_back(start);
        let r = SearchPath { path };
        assert(r@ =~= seq![start@]);
        r
    }

    /// Adds `elem` at the beginning of the path.
    pub fn add_to_start(&mut self, elem: PathElem)
        ensures
            final(self)@ == seq![elem@] + old(self)@,
    {
        let ghost e = elem@;
        self.path.push_front(elem);
        assert(self@ =~= seq![e] + old(self)@);
    }

    /// The steps, from the root-nearest to the match-nearest.
    pub fn iter(&self) -> (r: vec_deque::Iter<'_, PathElem>)
        ensures
            steps_of(r.remaining().map_values(|e: &PathElem| *e)) == self@,
    {
        let r = self.path.iter();
        assert(r.remaining().map_values(|e: &PathElem| *e) =~= self.path@);
        r
    }

    /// Number of steps.
    pub fn len(&self) -> (r: usize)
        ensures
            r == self@.len(),
    {
        self.path.len()
    }

    /// The step at position `i`.
    pub fn get(&self, i: usize) -> (r: &PathElem)
        requires
            i < self@.len(),
        ensures
            r@ == self@[i as int],
    {
        &self.path[i]
    }
}

/// The character of a decimal digit.
pub open spec fn digit_char(d: nat) -> char {
    seq!['0', '1', '2', '3', '4', '5', '6', '7', '8', '9'][d as int]
}

/// Decimal notation of a natural number, without leading zeros.
pub open spec fn decimal(n: nat) -> Seq<char>
    decreases n,
{
    if n < 10 {
        seq![digit_char(n)]
    } else {
        decimal(n / 10) + seq![digit_char(n % 10)]
    }
}

/// How one step is displayed: `->Key` for a key, `[N]` for an index.
pub open spec fn step_text(s: Step) -> Seq<char> {
    match s {
        Step::Attr(k) => seq!['-', '>'] + k,
        Step::Index(i) => seq!['['] + decimal(i) + seq![']'],
    }
}

/// How a path is displayed: the text of its steps, in order.
pub open spec fn path_text(p: Seq<Step>) -> Seq<char>
    decreases p.len(),
{
    if p.len() == 0 {
        Seq::empty()
    } else {
        path_text(p.drop_last()) + step_text(p.last())
    }
}

fn append_digit(s: &mut String, d: usize)
    requires
        d < 10,
    ensures
        final(s)@ == old(s)@ + seq![digit_char(d as nat)],
{
    proof {
        reveal_strlit("0");
        reveal_strlit("1");
        reveal_strlit("2");
        reveal_strlit("3");
        reveal_strlit("4");
        reveal_strlit("5");
        reveal_strlit("6");
        reveal_strlit("7");
        reveal_strlit("8");
        reveal_strlit("9");
    }
    let t: &str = if d == 0 {
        "0"
    } else if d == 1 {
        "1"
    } else if d == 2 {
        "2"
    } else if d == 3 {
        "3"
    } else if d == 4 {
        "4"
    } else if d == 5 {
        "5"
    } else if d == 6 {
        "6"
    } else if d == 7 {
        "7"
    } else if d == 8 {
        "8"
    } else {
        "9"
    };
    assert(t@ =~= seq![digit_char(d as nat)]);
    s.append(t);
}

fn append_decimal(s: &mut String, n: usize)
    ensures
        final(s)@ == old(s)@ + decimal(n as nat),
    decreases n,
{
    if n < 10 {
        append_digit(s, n);
    } else {
        append_decimal(s, n / 10);
        append_digit(s, n % 10);
        assert(s@ =~= old(s)@ + decimal(n as nat));
    }
}

/// Displays a path as a breadcrumb: `->Pages[0]->Resources`.
pub fn path_to_string(path: &SearchPath) -> (r: String)
    ensures
        r@ == path_text(path@),
{
    let mut result = String::new();
    let n = path.len();
    let mut i: usize = 0;
    while i < n
        invariant
            n == path@.len(),
            i <= n,
            result@ == path_text(path@.subrange(0, i as int)),
        decreases n - i,
    {
        let ghost before = result@;
        let elem = path.get(i);
        match elem {
            PathElem::DictElem { key } => {
                proof {
                    reveal_strlit("->");
                }
                result.append("->");
                result.append(key.as_str());
            },
            PathElem::ArrayElem { index } => {
                proof {
                    reveal_strlit("[");
                    reveal_strlit("]");
                }
                result.append("[");
                append_decimal(&mut result, *index);
                result.append("]");
            },
        }
        assert(path@.subrange(0, i + 1).drop_last() =~= path@.subrange(0, i as int));
        assert(result@ =~= before + step_text(path@[i as int]));
        i = i + 1;
    }
    assert(path@.subrange(0, n as int) =~= path@);
    result
}

} // verus!
