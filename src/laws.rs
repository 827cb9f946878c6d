use vstd::prelude::*;
use crate::node::{lookup, Node, ObjRef};
use crate::path::Step;
use crate::search::{
    entry_paths, lemma_unvisited_insert, lemma_unvisited_union, prefix_all, search_elems,
    search_entries, search_node, search_result, unvisited,
};

verus! {

/// Whether `n` is a scalar or a container with nothing in it.
pub open spec fn is_leaf(n: Node) -> bool {
    match n {
        Node::Array(v) => v@.len() == 0,
        Node::Dictionary(d) => d@.len() == 0,
        Node::Stream { info, .. } => info@.len() == 0,
        Node::Reference(_) => false,
        _ => true,
    }
}

/// A scalar, an empty array, an empty dictionary or a stream with no
/// attributes holds no match for any query, and its search follows no
/// reference.
pub proof fn lemma_leaf_has_no_match(n: Node, q: Seq<char>, t: Seq<(ObjRef, Node)>, vis: Set<ObjRef>)
    requires
        is_leaf(n),
    ensures
        search_node(n, q, t, vis) == (Seq::<Seq<Step>>::empty(), vis),
{
    match n {
        Node::Array(v) => {
            assert(search_elems(v@, 0, q, t, vis) == (Seq::<Seq<Step>>::empty(), vis));
        },
        Node::Dictionary(d) => {
            assert(search_entries(d@, q, t, vis) == (Seq::<Seq<Step>>::empty(), vis));
        },
        Node::Stream { info, .. } => {
            assert(search_entries(info@, q, t, vis) == (Seq::<Seq<Step>>::empty(), vis));
        },
        _ => {},
    }
}

/// Crossing a reference adds no step: the search from a reference that
/// resolves to `m` reports exactly the paths of the search from `m`, with
/// that reference already visited.
pub proof fn lemma_reference_adds_no_step(r: ObjRef, m: Node, q: Seq<char>, t: Seq<(ObjRef, Node)>)
    requires
        lookup(t, r) == Some(m),
    ensures
        search_result(Node::Reference(r), q, t) == search_node(m, q, t, Set::empty().insert(r)).0,
{
}

/// A reference that was visited before is not followed again: it reports
/// nothing and leaves the visited set as it was.
pub proof fn lemma_visited_reference_is_pruned(r: ObjRef, q: Seq<char>, t: Seq<(ObjRef, Node)>, vis: Set<ObjRef>)
    requires
        vis.contains(r),
    ensures
        search_node(Node::Reference(r), q, t, vis) == (Seq::<Seq<Step>>::empty(), vis),
{
}

/// A stream is searched as its attribute dictionary; its payload is never
/// looked at.
pub proof fn lemma_stream_as_dictionary(
    info: Vec<(String, Node)>,
    data: Vec<u8>,
    q: Seq<char>,
    t: Seq<(ObjRef, Node)>,
    vis: Set<ObjRef>,
)
    ensures
        search_node(Node::Stream { info, data }, q, t, vis) == search_node(Node::Dictionary(info), q, t, vis),
{
}

/// A reference that cannot be resolved reports nothing; it is only marked
/// visited.
pub proof fn lemma_unresolvable_reference(r: ObjRef, q: Seq<char>, t: Seq<(ObjRef, Node)>, vis: Set<ObjRef>)
    requires
        lookup(t, r) is None,
    ensures
        search_node(Node::Reference(r), q, t, vis) == (Seq::<Seq<Step>>::empty(), vis.insert(r)),
{
}

/// A dictionary entry whose value is a reference that cannot be resolved
/// contributes only the match of its own key, and the search goes on with
/// the entries after it.
pub proof fn lemma_unresolvable_entry_keeps_siblings(
    k: String,
    r: ObjRef,
    rest: Seq<(String, Node)>,
    q: Seq<char>,
    t: Seq<(ObjRef, Node)>,
    vis: Set<ObjRef>,
)
    requires
        lookup(t, r) is None,
    ensures
        search_entries(seq![(k, Node::Reference(r))] + rest, q, t, vis) == (
            entry_paths(k@, q, Seq::empty()) + search_entries(rest, q, t, vis.insert(r)).0,
            search_entries(rest, q, t, vis.insert(r)).1,
        ),
{
    let es = seq![(k, Node::Reference(r))] + rest;
    assert(es[0] == (k, Node::Reference(r)));
    assert(es.subrange(1, es.len() as int) =~= rest);
    assert(vis.union(vis.insert(r)) =~= vis.insert(r));
    assert(search_node(Node::Reference(r), q, t, vis) == (Seq::<Seq<Step>>::empty(), vis.insert(r)));
}

/// Whether every path of `paths` has at least one step and ends at a key
/// equal to `q`.
pub open spec fn all_end_at(paths: Seq<Seq<Step>>, q: Seq<char>) -> bool {
    forall|i: int| 0 <= i < paths.len() ==> {
        &&& (#[trigger] paths[i]).len() > 0
        &&& paths[i].last() == Step::Attr(q)
    }
}

proof fn lemma_prefix_keeps_end(s: Step, paths: Seq<Seq<Step>>, q: Seq<char>)
    requires
        all_end_at(paths, q),
    ensures
        all_end_at(prefix_all(s, paths), q),
{
    assert forall|i: int| 0 <= i < prefix_all(s, paths).len() implies {
        &&& (#[trigger] prefix_all(s, paths)[i]).len() > 0
        &&& prefix_all(s, paths)[i].last() == Step::Attr(q)
    } by {
        assert(paths[i].len() > 0);
        let p = seq![s] + paths[i];
        assert(p.last() == paths[i].last());
    }
}

proof fn lemma_concat_keeps_end(a: Seq<Seq<Step>>, b: Seq<Seq<Step>>, q: Seq<char>)
    requires
        all_end_at(a, q),
        all_end_at(b, q),
    ensures
        all_end_at(a + b, q),
{
    assert forall|i: int| 0 <= i < (a + b).len() implies {
        &&& (#[trigger] (a + b)[i]).len() > 0
        &&& (a + b)[i].last() == Step::Attr(q)
    } by {
        if i < a.len() {
            assert((a + b)[i] == a[i]);
        } else {
            assert((a + b)[i] == b[i - a.len()]);
        }
    }
}

/// Every path that a search reports leads to a key equal to the query: it
/// has at least one step, and its last step is that key.
pub proof fn lemma_paths_end_at_query(root: Node, q: Seq<char>, t: Seq<(ObjRef, Node)>)
    ensures
        all_end_at(search_result(root, q, t), q),
{
    lemma_node_paths_end(root, q, t, Set::empty());
}

proof fn lemma_node_paths_end(n: Node, q: Seq<char>, t: Seq<(ObjRef, Node)>, vis: Set<ObjRef>)
    ensures
        all_end_at(search_node(n, q, t, vis).0, q),
    decreases unvisited(t, vis), n,
{
    match n {
        Node::Array(v) => {
            assert(decreases_to!(v => v@));
            lemma_elems_paths_end(v@, 0, q, t, vis);
        },
        Node::Dictionary(d) => {
            assert(decreases_to!(d => d@));
            lemma_entries_paths_end(d@, q, t, vis);
        },
        Node::Stream { info, .. } => {
            assert(decreases_to!(info => info@));
            lemma_entries_paths_end(info@, q, t, vis);
        },
        Node::Reference(r) => {
            if !vis.contains(r) {
                if let Some(m) = lookup(t, r) {
                    lemma_unvisited_insert(t, vis, r);
                    lemma_node_paths_end(m, q, t, vis.insert(r));
                }
            }
        },
        _ => {},
    }
}

proof fn lemma_elems_paths_end(
    s: Seq<Node>,
    pos: nat,
    q: Seq<char>,
    t: Seq<(ObjRef, Node)>,
    vis: Set<ObjRef>,
)
    ensures
        all_end_at(search_elems(s, pos, q, t, vis).0, q),
    decreases unvisited(t, vis), s,
{
    if s.len() > 0 {
        lemma_node_paths_end(s[0], q, t, vis);
        let first = search_node(s[0], q, t, vis);
        lemma_unvisited_union(t, vis);
        let tail = s.subrange(1, s.len() as int);
        lemma_elems_paths_end(tail, pos + 1, q, t, vis.union(first.1));
        lemma_prefix_keeps_end(Step::Index(pos), first.0, q);
        lemma_concat_keeps_end(
            prefix_all(Step::Index(pos), first.0),
            search_elems(tail, pos + 1, q, t, vis.union(first.1)).0,
            q,
        );
    }
}

proof fn lemma_entries_paths_end(
    es: Seq<(String, Node)>,
    q: Seq<char>,
    t: Seq<(ObjRef, Node)>,
    vis: Set<ObjRef>,
)
    ensures
        all_end_at(search_entries(es, q, t, vis).0, q),
    decreases unvisited(t, vis), es,
{
    if es.len() > 0 {
        assert(decreases_to!(es => es[0]));
        assert(decreases_to!(es[0] => es[0].1));
        lemma_node_paths_end(es[0].1, q, t, vis);
        let first = search_node(es[0].1, q, t, vis);
        lemma_unvisited_union(t, vis);
        let tail = es.subrange(1, es.len() as int);
        lemma_entries_paths_end(tail, q, t, vis.union(first.1));
        let k = es[0].0@;
        let here: Seq<Seq<Step>> = if k == q { seq![seq![Step::Attr(k)]] } else { Seq::empty() };
        assert(all_end_at(here, q));
        lemma_prefix_keeps_end(Step::Attr(k), first.0, q);
        lemma_concat_keeps_end(here, prefix_all(Step::Attr(k), first.0), q);
        lemma_concat_keeps_end(
            entry_paths(k, q, first.0),
            search_entries(tail, q, t, vis.union(first.1)).0,
            q,
        );
    }
}

} // verus!
