use vstd::prelude::*;
use crate::node::{contains_ref, lemma_push_to_set, lookup, Node, ObjRef, Resolver};
use crate::path::{PathElem, SearchPath, Step};

verus! {

/// Number of resolver entries whose reference is not in `vis`: it falls
/// each time a search follows a reference, which bounds the search.
pub open spec fn unvisited(t: Seq<(ObjRef, Node)>, vis: Set<ObjRef>) -> nat
    decreases t.len(),
{
    if t.len() == 0 {
        0
    } else {
        (if vis.contains(t[0].0) { 0nat } else { 1nat }) + unvisited(t.subrange(1, t.len() as int), vis)
    }
}

/// Prepends `s` to each path.
pub open spec fn prefix_all(s: Step, paths: Seq<Seq<Step>>) -> Seq<Seq<Step>> {
    paths.map_values(|p: Seq<Step>| seq![s] + p)
}

/// The paths found below `n`, and the set of references visited once the
/// search of `n` is over, when the search starts with `vis` visited.
pub open spec fn search_node(
    n: Node,
    q: Seq<char>,
    t: Seq<(ObjRef, Node)>,
    vis: Set<ObjRef>,
) -> (Seq<Seq<Step>>, Set<ObjRef>)
    decreases unvisited(t, vis), n,
    via search_node_decreases
{
    match n {
        Node::Array(v) => search_elems(v@, 0, q, t, vis),
        Node::Dictionary(d) => search_entries(d@, q, t, vis),
        Node::Stream { info, .. } => search_entries(info@, q, t, vis),
        Node::Reference(r) => {
            if vis.contains(r) {
                (Seq::empty(), vis)
            } else {
                match lookup(t, r) {
                    Some(m) => search_node(m, q, t, vis.insert(r)),
                    None => (Seq::empty(), vis.insert(r)),
                }
            }
        },
        _ => (Seq::empty(), vis),
    }
}

/// The search of the array elements `s`, the first of which stands at `pos`.
pub open spec fn search_elems(
    s: Seq<Node>,
    pos: nat,
    q: Seq<char>,
    t: Seq<(ObjRef, Node)>,
    vis: Set<ObjRef>,
) -> (Seq<Seq<Step>>, Set<ObjRef>)
    decreases unvisited(t, vis), s,
    via search_elems_decreases
{
    if s.len() == 0 {
        (Seq::empty(), vis)
    } else {
        let first = search_node(s[0], q, t, vis);
        let rest = search_elems(s.subrange(1, s.len() as int), pos + 1, q, t, vis.union(first.1));
        (prefix_all(Step::Index(pos), first.0) + rest.0, rest.1)
    }
}

/// The paths that a dictionary entry with key `k` contributes: the key
/// itself where it equals the query, then the paths below its value.
pub open spec fn entry_paths(k: Seq<char>, q: Seq<char>, below: Seq<Seq<Step>>) -> Seq<Seq<Step>> {
    let here = if k == q { seq![seq![Step::Attr(k)]] } else { Seq::empty() };
    here + prefix_all(Step::Attr(k), below)
}

/// The search of the dictionary entries `es`, in their stored order.
pub open spec fn search_entries(
    es: Seq<(String, Node)>,
    q: Seq<char>,
    t: Seq<(ObjRef, Node)>,
    vis: Set<ObjRef>,
) -> (Seq<Seq<Step>>, Set<ObjRef>)
    decreases unvisited(t, vis), es,
    via search_entries_decreases
{
    if es.len() == 0 {
        (Seq::empty(), vis)
    } else {
        let first = search_node(es[0].1, q, t, vis);
        let rest = search_entries(es.subrange(1, es.len() as int), q, t, vis.union(first.1));
        (entry_paths(es[0].0@, q, first.0) + rest.0, rest.1)
    }
}

/// What a search from `root` for the key `q` reports, with a fresh visited set.
pub open spec fn search_result(root: Node, q: Seq<char>, t: Seq<(ObjRef, Node)>) -> Seq<Seq<Step>> {
    search_node(root, q, t, Set::empty()).0
}

/// Visiting more references leaves no more entries unvisited.
proof fn lemma_unvisited_mono(t: Seq<(ObjRef, Node)>, a: Set<ObjRef>, b: Set<ObjRef>)
    requires
        a.subset_of(b),
    ensures
        unvisited(t, b) <= unvisited(t, a),
    decreases t.len(),
{
    if t.len() > 0 {
        lemma_unvisited_mono(t.subrange(1, t.len() as int), a, b);
    }
}

/// Adding any set to the visited set leaves no more entries unvisited.
pub(crate) proof fn lemma_unvisited_union(t: Seq<(ObjRef, Node)>, a: Set<ObjRef>)
    ensures
        forall|b: Set<ObjRef>| #[trigger] unvisited(t, a.union(b)) <= unvisited(t, a),
{
    assert forall|b: Set<ObjRef>| #[trigger] unvisited(t, a.union(b)) <= unvisited(t, a) by {
        lemma_unvisited_mono(t, a, a.union(b));
    }
}

/// Visiting a reference that resolves leaves fewer entries unvisited.
pub(crate) proof fn lemma_unvisited_insert(t: Seq<(ObjRef, Node)>, vis: Set<ObjRef>, r: ObjRef)
    requires
        !vis.contains(r),
        lookup(t, r) is Some,
    ensures
        unvisited(t, vis.insert(r)) < unvisited(t, vis),
    decreases t.len(),
{
    let rest = t.subrange(1, t.len() as int);
    lemma_unvisited_mono(rest, vis, vis.insert(r));
    if t[0].0 != r {
        lemma_unvisited_insert(rest, vis, r);
    }
}

#[via_fn]
proof fn search_node_decreases(n: Node, q: Seq<char>, t: Seq<(ObjRef, Node)>, vis: Set<ObjRef>) {
    match n {
        Node::Array(v) => {
            assert(decreases_to!(v => v@));
        },
        Node::Dictionary(d) => {
            assert(decreases_to!(d => d@));
        },
        Node::Stream { info, .. } => {
            assert(decreases_to!(info => info@));
        },
        Node::Reference(r) => {
            if !vis.contains(r) && lookup(t, r) is Some {
                lemma_unvisited_insert(t, vis, r);
            }
        },
        _ => {},
    }
}

#[via_fn]
proof fn search_elems_decreases(
    s: Seq<Node>,
    pos: nat,
    q: Seq<char>,
    t: Seq<(ObjRef, Node)>,
    vis: Set<ObjRef>,
) {
    if s.len() > 0 {
        lemma_unvisited_union(t, vis);
    }
}

#[via_fn]
proof fn search_entries_decreases(
    es: Seq<(String, Node)>,
    q: Seq<char>,
    t: Seq<(ObjRef, Node)>,
    vis: Set<ObjRef>,
) {
    if es.len() > 0 {
        assert(decreases_to!(es => es[0]));
        assert(decreases_to!(es[0] => es[0].1));
        lemma_unvisited_union(t, vis);
    }
}

/// A search only adds to the visited set.
proof fn lemma_node_grows(n: Node, q: Seq<char>, t: Seq<(ObjRef, Node)>, vis: Set<ObjRef>)
    ensures
        vis.subset_of(search_node(n, q, t, vis).1),
    decreases unvisited(t, vis), n,
{
    match n {
        Node::Array(v) => {
            assert(decreases_to!(v => v@));
            lemma_elems_grows(v@, 0, q, t, vis);
        },
        Node::Dictionary(d) => {
            assert(decreases_to!(d => d@));
            lemma_entries_grows(d@, q, t, vis);
        },
        Node::Stream { info, .. } => {
            assert(decreases_to!(info => info@));
            lemma_entries_grows(info@, q, t, vis);
        },
        Node::Reference(r) => {
            if !vis.contains(r) {
                if let Some(m) = lookup(t, r) {
                    lemma_unvisited_insert(t, vis, r);
                    lemma_node_grows(m, q, t, vis.insert(r));
                }
            }
        },
        _ => {},
    }
}

proof fn lemma_elems_grows(
    s: Seq<Node>,
    pos: nat,
    q: Seq<char>,
    t: Seq<(ObjRef, Node)>,
    vis: Set<ObjRef>,
)
    ensures
        vis.subset_of(search_elems(s, pos, q, t, vis).1),
    decreases unvisited(t, vis), s,
{
    if s.len() > 0 {
        lemma_node_grows(s[0], q, t, vis);
        let first = search_node(s[0], q, t, vis);
        lemma_unvisited_union(t, vis);
        lemma_elems_grows(s.subrange(1, s.len() as int), pos + 1, q, t, vis.union(first.1));
    }
}

proof fn lemma_entries_grows(
    es: Seq<(String, Node)>,
    q: Seq<char>,
    t: Seq<(ObjRef, Node)>,
    vis: Set<ObjRef>,
)
    ensures
        vis.subset_of(search_entries(es, q, t, vis).1),
    decreases unvisited(t, vis), es,
{
    if es.len() > 0 {
        assert(decreases_to!(es => es[0]));
        assert(decreases_to!(es[0] => es[0].1));
        lemma_node_grows(es[0].1, q, t, vis);
        let first = search_node(es[0].1, q, t, vis);
        lemma_unvisited_union(t, vis);
        lemma_entries_grows(es.subrange(1, es.len() as int), q, t, vis.union(first.1));
    }
}

/// The steps of each path.
pub open spec fn paths_of(v: Seq<SearchPath>) -> Seq<Seq<Step>> {
    v.map_values(|p: SearchPath| p@)
}

/// Adds the step `key` at the start of every path.
fn prefix_key(paths: &mut Vec<SearchPath>, key: &str)
    ensures
        paths_of(final(paths)@) == prefix_all(Step::Attr(key@), paths_of(old(paths)@)),
{
    let n = paths.len();
    let mut j: usize = 0;
    while j < n
        invariant
            n == paths@.len(),
            n == old(paths)@.len(),
            j <= n,
            forall|k: int| 0 <= k < j ==> #[trigger] paths@[k]@ == seq![Step::Attr(key@)] + old(paths)@[k]@,
            forall|k: int| j <= k < n ==> #[trigger] paths@[k]@ == old(paths)@[k]@,
        decreases n - j,
    {
        paths[j].add_to_start(PathElem::from_dict_key(key));
        j = j + 1;
    }
    assert(paths_of(paths@) =~= prefix_all(Step::Attr(key@), paths_of(old(paths)@)));
}

/// Adds the step `index` at the start of every path.
fn prefix_index(paths: &mut Vec<SearchPath>, index: usize)
    ensures
        paths_of(final(paths)@) == prefix_all(Step::Index(index as nat), paths_of(old(paths)@)),
{
    let n = paths.len();
    let mut j: usize = 0;
    while j < n
        invariant
            n == paths@.len(),
            n == old(paths)@.len(),
            j <= n,
            forall|k: int| 0 <= k < j ==> #[trigger] paths@[k]@ == seq![Step::Index(index as nat)] + old(paths)@[k]@,
            forall|k: int| j <= k < n ==> #[trigger] paths@[k]@ == old(paths)@[k]@,
        decreases n - j,
    {
        paths[j].add_to_start(PathElem::from_array_index(index));
        j = j + 1;
    }
    assert(paths_of(paths@) =~= prefix_all(Step::Index(index as nat), paths_of(old(paths)@)));
}

/// State of one search: the references followed so far, each followed once.
struct SearchAlg<'a> {
    blacklist: Vec<ObjRef>,
    resolve: &'a Resolver,
}

impl<'a> SearchAlg<'a> {
    fn new(r: &'a Resolver) -> (a: SearchAlg<'a>)
        ensures
            a.blacklist@ == Seq::<ObjRef>::empty(),
            a.resolve == r,
    {
        SearchAlg { blacklist: Vec::new(), resolve: r }
    }

    fn search_key(&mut self, node: &Node, q: &String) -> (r: Vec<SearchPath>)
        ensures
            final(self).resolve == old(self).resolve,
            (paths_of(r@), final(self).blacklist@.to_set()) == search_node(
                *node,
                q@,
                old(self).resolve@,
                old(self).blacklist@.to_set(),
            ),
        decreases unvisited(self.resolve@, self.blacklist@.to_set()), node,
    {
        match node {
            Node::Stream { info, .. } => self.search_dict(info, q),
            Node::Dictionary(d) => self.search_dict(d, q),
            Node::Array(v) => self.search_array(v, q),
            Node::Reference(r) => {
                let r = *r;
                if contains_ref(&self.blacklist, r) {
                    Vec::new()
                } else {
                    proof {
                        lemma_push_to_set(self.blacklist@, r);
                    }
                    self.blacklist.push(r);
                    let res: &'a Resolver = self.resolve;
                    match res.resolve(r) {
                        Some(m) => {
                            proof {
                                lemma_unvisited_insert(res@, old(self).blacklist@.to_set(), r);
                            }
                            self.search_key(m, q)
                        },
                        None => Vec::new(),
                    }
                }
            },
            _ => Vec::new(),
        }
    }

    fn search_dict(&mut self, d: &Vec<(String, Node)>, q: &String) -> (r: Vec<SearchPath>)
        ensures
            final(self).resolve == old(self).resolve,
            (paths_of(r@), final(self).blacklist@.to_set()) == search_entries(
                d@,
                q@,
                old(self).resolve@,
                old(self).blacklist@.to_set(),
            ),
        decreases unvisited(self.resolve@, self.blacklist@.to_set()), d,
    {
        let ghost t = self.resolve@;
        let ghost v0 = self.blacklist@.to_set();
        let mut result: Vec<SearchPath> = Vec::new();
        let mut i: usize = 0;
        assert(d@.subrange(0, d@.len() as int) =~= d@);
        while i < d.len()
            invariant
                self.resolve == old(self).resolve,
                t == self.resolve@,
                v0 == old(self).blacklist@.to_set(),
                i <= d@.len(),
                v0.subset_of(self.blacklist@.to_set()),
                ({
                    let rest = search_entries(d@.subrange(i as int, d@.len() as int), q@, t, self.blacklist@.to_set());
                    (paths_of(result@) + rest.0, rest.1)
                }) == search_entries(d@, q@, t, v0),
            decreases d@.len() - i,
        {
            let ghost vis = self.blacklist@.to_set();
            let ghost es = d@.subrange(i as int, d@.len() as int);
            let ghost before = paths_of(result@);
            assert(es[0] == d@[i as int]);
            assert(es.subrange(1, es.len() as int) =~= d@.subrange(i + 1, d@.len() as int));
            let entry = &d[i];
            let key: &str = entry.0.as_str();
            let mut here: Vec<SearchPath> = Vec::new();
            if entry.0 == *q {
                here.push(SearchPath::new(PathElem::from_dict_key(key)));
            }
            proof {
                lemma_unvisited_mono(t, v0, vis);
                assert(decreases_to!(d => d@));
                assert(decreases_to!(d@ => d@[i as int]));
                assert(decreases_to!(d@[i as int] => d@[i as int].1));
            }
            let mut sub = self.search_key(&entry.1, q);
            proof {
                lemma_node_grows(d@[i as int].1, q@, t, vis);
            }
            prefix_key(&mut sub, key);
            let ghost first = search_node(d@[i as int].1, q@, t, vis);
            assert(vis.union(first.1) =~= first.1);
            assert(paths_of(here@) + paths_of(sub@) =~= entry_paths(d@[i as int].0@, q@, first.0));
            result.append(&mut here);
            result.append(&mut sub);
            assert(paths_of(result@) =~= before + entry_paths(d@[i as int].0@, q@, first.0));
            i = i + 1;
        }
        assert(d@.subrange(i as int, d@.len() as int) =~= Seq::<(String, Node)>::empty());
        assert(paths_of(result@) + Seq::<Seq<Step>>::empty() =~= paths_of(result@));
        result
    }

    fn search_array(&mut self, v: &Vec<Node>, q: &String) -> (r: Vec<SearchPath>)
        ensures
            final(self).resolve == old(self).resolve,
            (paths_of(r@), final(self).blacklist@.to_set()) == search_elems(
                v@,
                0,
                q@,
                old(self).resolve@,
                old(self).blacklist@.to_set(),
            ),
        decreases unvisited(self.resolve@, self.blacklist@.to_set()), v,
    {
        let ghost t = self.resolve@;
        let ghost v0 = self.blacklist@.to_set();
        let mut result: Vec<SearchPath> = Vec::new();
        let mut i: usize = 0;
        assert(v@.subrange(0, v@.len() as int) =~= v@);
        while i < v.len()
            invariant
                self.resolve == old(self).resolve,
                t == self.resolve@,
                v0 == old(self).blacklist@.to_set(),
                i <= v@.len(),
                v0.subset_of(self.blacklist@.to_set()),
                ({
                    let rest = search_elems(v@.subrange(i as int, v@.len() as int), i as nat, q@, t, self.blacklist@.to_set());
                    (paths_of(result@) + rest.0, rest.1)
                }) == search_elems(v@, 0, q@, t, v0),
            decreases v@.len() - i,
        {
            let ghost vis = self.blacklist@.to_set();
            let ghost s = v@.subrange(i as int, v@.len() as int);
            let ghost before = paths_of(result@);
            assert(s[0] == v@[i as int]);
            assert(s.subrange(1, s.len() as int) =~= v@.subrange(i + 1, v@.len() as int));
            proof {
                lemma_unvisited_mono(t, v0, vis);
                assert(decreases_to!(v => v@));
                assert(decreases_to!(v@ => v@[i as int]));
            }
            let mut sub = self.search_key(&v[i], q);
            proof {
                lemma_node_grows(v@[i as int], q@, t, vis);
            }
            prefix_index(&mut sub, i);
            let ghost first = search_node(v@[i as int], q@, t, vis);
            assert(vis.union(first.1) =~= first.1);
            result.append(&mut sub);
            assert(paths_of(result@) =~= before + prefix_all(Step::Index(i as nat), first.0));
            i = i + 1;
        }
        assert(v@.subrange(i as int, v@.len() as int) =~= Seq::<Node>::empty());
        assert(paths_of(result@) + Seq::<Seq<Step>>::empty() =~= paths_of(result@));
        result
    }
}

/// Every path from `root` to a dictionary key equal to `query`, in
/// depth-first order, with `resolver` answering for indirect references.
/// Each reference is followed at most once in one search.
pub fn search(root: &Node, query: &str, resolver: &Resolver) -> (r: Vec<SearchPath>)
    ensures
        paths_of(r@) == search_result(*root, query@, resolver@),
{
    let q: String = query.to_owned();
    let mut alg = SearchAlg::new(resolver);
    assert(Seq::<ObjRef>::empty().to_set() =~= Set::<ObjRef>::empty());
    alg.search_key(root, &q)
}

/// Searches document object graphs for attribute keys, resolving indirect
/// references through the resolver it owns.
pub struct Inspector {
    resolve: Resolver,
}

impl View for Inspector {
    type V = Seq<(ObjRef, Node)>;

    closed spec fn view(&self) -> Seq<(ObjRef, Node)> {
        self.resolve@
    }
}

impl Inspector {
    pub fn new(resolve: Resolver) -> (r: Inspector)
        ensures
            r@ == resolve@,
    {
        Inspector { resolve }
    }

    /// The resolver that indirect references go through.
    pub fn resolver(&self) -> (r: &Resolver)
        ensures
            r@ == self@,
    {
        &self.resolve
    }

    /// Every path from `node` to a dictionary key equal to `search_key`, in
    /// depth-first order. Each indirect reference is followed at most once;
    /// one that cannot be resolved contributes nothing.
    pub fn search_key(&self, node: &Node, search_key: &str) -> (r: Vec<SearchPath>)
        ensures
            paths_of(r@) == search_result(*node, search_key@, self@),
    {
        search(node, search_key, &self.resolve)
    }
}

} // verus!
