use vstd::prelude::*;

verus! {

/// Identifier of an indirect object: object number and generation number.
#[derive(Clone, Copy, Debug, PartialEq, Eq, Structural)]
pub struct ObjRef {
    pub id: u64,
    pub gen: u64,
}

/// A node of a document object graph.
#[derive(Debug)]
pub enum Node {
    Null,
    Integer(i64),
    /// A real number, held as the bit pattern of an IEEE 754 double.
    Real(u64),
    Boolean(bool),
    /// A byte string, not necessarily valid text.
    Text(Vec<u8>),
    Name(String),
    Array(Vec<Node>),
    /// Key/value pairs, in their stored order.
    Dictionary(Vec<(String, Node)>),
    /// An attribute dictionary and an opaque payload.
    Stream { info: Vec<(String, Node)>, data: Vec<u8> },
    /// An indirect reference, reached only through a `Resolver`.
    Reference(ObjRef),
}

/// Whether `v` holds `r`.
pub(crate) fn contains_ref(v: &Vec<ObjRef>, r: ObjRef) -> (b: bool)
    ensures
        b == v@.contains(r),
{
    let mut i: usize = 0;
    while i < v.len()
        invariant
            i <= v@.len(),
            forall|k: int| 0 <= k < i ==> v@[k] != r,
        decreases v@.len() - i,
    {
        if v[i] == r {
            return true;
        }
        i = i + 1;
    }
    false
}

/// Pushing `r` adds it to the set of elements.
pub(crate) proof fn lemma_push_to_set(s: Seq<ObjRef>, r: ObjRef)
    ensures
        s.push(r).to_set() == s.to_set().insert(r),
{
    assert forall|x: ObjRef| s.push(r).to_set().contains(x) == s.to_set().insert(r).contains(x) by {
        if s.contains(x) {
            let k = choose|k: int| 0 <= k < s.len() && s[k] == x;
            assert(s.push(r)[k] == x);
        }
        if x == r {
            assert(s.push(r)[s.len() as int] == r);
        }
        if s.push(r).contains(x) && x != r {
            let k = choose|k: int| 0 <= k < s.len() + 1 && s.push(r)[k] == x;
            assert(s[k] == x);
        }
    }
    assert(s.push(r).to_set() =~= s.to_set().insert(r));
}

/// The node that the first entry for `r` holds, if there is one.
pub open spec fn lookup(entries: Seq<(ObjRef, Node)>, r: ObjRef) -> Option<Node>
    decreases entries.len(),
{
    if entries.len() == 0 {
        None
    } else if entries[0].0 == r {
        Some(entries[0].1)
    } else {
        lookup(entries.subrange(1, entries.len() as int), r)
    }
}

/// Maps indirect references to the nodes they designate. A reference
/// without an entry cannot be resolved.
#[derive(Debug)]
pub struct Resolver {
    entries: Vec<(ObjRef, Node)>,
}

impl View for Resolver {
    type V = Seq<(ObjRef, Node)>;

    closed spec fn view(&self) -> Seq<(ObjRef, Node)> {
        self.entries@
    }
}

impl Resolver {
    /// A resolver that resolves nothing.
    pub fn new() -> (r: Resolver)
        ensures
            r@ == Seq::<(ObjRef, Node)>::empty(),
    {
        Resolver { entries: Vec::new() }
    }

    /// Makes `r` resolve to `node`, unless `r` already resolves.
    pub fn add(&mut self, r: ObjRef, node: Node)
        ensures
            final(self)@ == old(self)@.push((r, node)),
    {
        self.entries.push((r, node));
    }

    /// The node that `r` designates, or `None` where it cannot be resolved.
    pub fn resolve(&self, r: ObjRef) -> (res: Option<&Node>)
        ensures
            match lookup(self@, r) {
                Some(n) => res == Some(&n),
                None => res is None,
            },
    {
        let mut i: usize = 0;
        assert(self@.subrange(0, self@.len() as int) =~= self@);
        while i < self.entries.len()
            invariant
                i <= self.entries@.len(),
                lookup(self@, r) == lookup(self@.subrange(i as int, self@.len() as int), r),
            decreases self.entries@.len() - i,
        {
            let ghost rest = self@.subrange(i as int, self@.len() as int);
            assert(rest.subrange(1, rest.len() as int) =~= self@.subrange(i + 1, self@.len() as int));
            if self.entries[i].0 == r {
                return Some(&self.entries[i].1);
            }
            i = i + 1;
        }
        None
    }
}

} // verus!
