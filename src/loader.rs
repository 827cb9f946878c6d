use vstd::prelude::*;
use crate::node::{contains_ref, lemma_push_to_set, Node, ObjRef, Resolver};

verus! {

/// The references that `n` holds, without resolving any of them.
pub open spec fn refs_of(n: Node) -> Set<ObjRef>
    decreases n,
    via refs_of_decreases
{
    match n {
        Node::Reference(r) => set![r],
        Node::Array(v) => refs_of_elems(v@),
        Node::Dictionary(d) => refs_of_entries(d@),
        Node::Stream { info, .. } => refs_of_entries(info@),
        _ => Set::empty(),
    }
}

/// The references that the nodes of `s` hold.
pub open spec fn refs_of_elems(s: Seq<Node>) -> Set<ObjRef>
    decreases s,
{
    if s.len() == 0 {
        Set::empty()
    } else {
        refs_of(s[0]).union(refs_of_elems(s.subrange(1, s.len() as int)))
    }
}

/// The references that the values of `es` hold.
pub open spec fn refs_of_entries(es: Seq<(String, Node)>) -> Set<ObjRef>
    decreases es,
    via refs_of_entries_decreases
{
    if es.len() == 0 {
        Set::empty()
    } else {
        refs_of(es[0].1).union(refs_of_entries(es.subrange(1, es.len() as int)))
    }
}

#[via_fn]
proof fn refs_of_decreases(n: Node) {
    match n {
        Node::Array(v) => {
            assert(decreases_to!(v => v@));
        },
        Node::Dictionary(d) => {
            assert(decreases_to!(d => d@));
        },
        Node::Stream { info, .. } => {
            assert(decreases_to!(info => info@));
        },
        _ => {},
    }
}

#[via_fn]
proof fn refs_of_entries_decreases(es: Seq<(String, Node)>) {
    if es.len() > 0 {
        assert(decreases_to!(es => es[0]));
        assert(decreases_to!(es[0] => es[0].1));
    }
}

/// Adds to `seen` and to `queue` each reference of `n` that `seen` lacks.
fn collect_refs(n: &Node, seen: &mut Vec<ObjRef>, queue: &mut Vec<ObjRef>)
    ensures
        final(seen)@.to_set() == old(seen)@.to_set().union(refs_of(*n)),
        final(queue)@.to_set() == old(queue)@.to_set().union(refs_of(*n).difference(old(seen)@.to_set())),
    decreases n,
{
    match n {
        Node::Reference(r) => {
            let r = *r;
            if !contains_ref(seen, r) {
                proof {
                    lemma_push_to_set(seen@, r);
                    lemma_push_to_set(queue@, r);
                }
                seen.push(r);
                queue.push(r);
            }
            assert(seen@.to_set() =~= old(seen)@.to_set().union(refs_of(*n)));
            assert(queue@.to_set() =~= old(queue)@.to_set().union(refs_of(*n).difference(old(seen)@.to_set())));
        },
        Node::Array(v) => {
            collect_elems(v, seen, queue);
        },
        Node::Dictionary(d) => {
            collect_entries(d, seen, queue);
        },
        Node::Stream { info, .. } => {
            collect_entries(info, seen, queue);
        },
        _ => {
            assert(seen@.to_set() =~= old(seen)@.to_set().union(refs_of(*n)));
            assert(queue@.to_set() =~= old(queue)@.to_set().union(refs_of(*n).difference(old(seen)@.to_set())));
        },
    }
}

fn collect_elems(v: &Vec<Node>, seen: &mut Vec<ObjRef>, queue: &mut Vec<ObjRef>)
    ensures
        final(seen)@.to_set() == old(seen)@.to_set().union(refs_of_elems(v@)),
        final(queue)@.to_set() == old(queue)@.to_set().union(refs_of_elems(v@).difference(old(seen)@.to_set())),
    decreases v,
{
    let ghost s0 = old(seen)@.to_set();
    let ghost q0 = old(queue)@.to_set();
    let mut i: usize = 0;
    assert(v@.subrange(0, v@.len() as int) =~= v@);
    while i < v.len()
        invariant
            i <= v@.len(),
            s0 == old(seen)@.to_set(),
            q0 == old(queue)@.to_set(),
            seen@.to_set().union(refs_of_elems(v@.subrange(i as int, v@.len() as int))) == s0.union(refs_of_elems(v@)),
            queue@.to_set().union(refs_of_elems(v@.subrange(i as int, v@.len() as int)).difference(seen@.to_set()))
                == q0.union(refs_of_elems(v@).difference(s0)),
        decreases v@.len() - i,
    {
        let ghost s = v@.subrange(i as int, v@.len() as int);
        let ghost seen1 = seen@.to_set();
        let ghost queue1 = queue@.to_set();
        assert(s[0] == v@[i as int]);
        assert(s.subrange(1, s.len() as int) =~= v@.subrange(i + 1, v@.len() as int));
        proof {
            assert(decreases_to!(v => v@));
        }
        collect_refs(&v[i], seen, queue);
        let ghost rest = refs_of_elems(v@.subrange(i + 1, v@.len() as int));
        assert(seen@.to_set().union(rest) =~= seen1.union(refs_of_elems(s)));
        assert(queue@.to_set().union(rest.difference(seen@.to_set()))
            =~= queue1.union(refs_of_elems(s).difference(seen1)));
        i = i + 1;
    }
    assert(v@.subrange(i as int, v@.len() as int) =~= Seq::<Node>::empty());
    assert(seen@.to_set().union(Set::empty()) =~= seen@.to_set());
    assert(queue@.to_set().union(Set::<ObjRef>::empty().difference(seen@.to_set())) =~= queue@.to_set());
}

fn collect_entries(d: &Vec<(String, Node)>, seen: &mut Vec<ObjRef>, queue: &mut Vec<ObjRef>)
    ensures
        final(seen)@.to_set() == old(seen)@.to_set().union(refs_of_entries(d@)),
        final(queue)@.to_set() == old(queue)@.to_set().union(refs_of_entries(d@).difference(old(seen)@.to_set())),
    decreases d,
{
    let ghost s0 = old(seen)@.to_set();
    let ghost q0 = old(queue)@.to_set();
    let mut i: usize = 0;
    assert(d@.subrange(0, d@.len() as int) =~= d@);
    while i < d.len()
        invariant
            i <= d@.len(),
            s0 == old(seen)@.to_set(),
            q0 == old(queue)@.to_set(),
            seen@.to_set().union(refs_of_entries(d@.subrange(i as int, d@.len() as int))) == s0.union(refs_of_entries(d@)),
            queue@.to_set().union(refs_of_entries(d@.subrange(i as int, d@.len() as int)).difference(seen@.to_set()))
                == q0.union(refs_of_entries(d@).difference(s0)),
        decreases d@.len() - i,
    {
        let ghost es = d@.subrange(i as int, d@.len() as int);
        let ghost seen1 = seen@.to_set();
        let ghost queue1 = queue@.to_set();
        assert(es[0] == d@[i as int]);
        assert(es.subrange(1, es.len() as int) =~= d@.subrange(i + 1, d@.len() as int));
        proof {
            assert(decreases_to!(d => d@));
            assert(decreases_to!(d@ => d@[i as int]));
            assert(decreases_to!(d@[i as int] => d@[i as int].1));
        }
        collect_refs(&d[i].1, seen, queue);
        let ghost rest = refs_of_entries(d@.subrange(i + 1, d@.len() as int));
        assert(seen@.to_set().union(rest) =~= seen1.union(refs_of_entries(es)));
        assert(queue@.to_set().union(rest.difference(seen@.to_set()))
            =~= queue1.union(refs_of_entries(es).difference(seen1)));
        i = i + 1;
    }
    assert(d@.subrange(i as int, d@.len() as int) =~= Seq::<(String, Node)>::empty());
    assert(seen@.to_set().union(Set::empty()) =~= seen@.to_set());
    assert(queue@.to_set().union(Set::<ObjRef>::empty().difference(seen@.to_set())) =~= queue@.to_set());
}

/// Gathers the nodes that a root reaches through references, one
/// resolution at a time: the caller asks which reference to resolve next,
/// resolves it, and hands the outcome back. Each reference is requested
/// at most once.
pub struct Loader {
    resolver: Resolver,
    seen: Vec<ObjRef>,
    queue: Vec<ObjRef>,
}

impl Loader {
    /// The references met so far, requested or still to request.
    pub closed spec fn seen(&self) -> Set<ObjRef> {
        self.seen@.to_set()
    }

    /// The references still to request.
    pub closed spec fn pending(&self) -> Set<ObjRef> {
        self.queue@.to_set()
    }

    /// The resolutions handed back so far, in order.
    pub closed spec fn resolved(&self) -> Seq<(ObjRef, Node)> {
        self.resolver@
    }

    /// The references of `root` are the first to request.
    pub fn new(root: &Node) -> (l: Loader)
        ensures
            l.seen() == refs_of(*root),
            l.pending() == refs_of(*root),
            l.resolved() == Seq::<(ObjRef, Node)>::empty(),
    {
        let mut seen: Vec<ObjRef> = Vec::new();
        let mut queue: Vec<ObjRef> = Vec::new();
        assert(seen@.to_set() =~= Set::<ObjRef>::empty());
        collect_refs(root, &mut seen, &mut queue);
        assert(seen@.to_set() =~= refs_of(*root));
        assert(queue@.to_set() =~= refs_of(*root));
        Loader { resolver: Resolver::new(), seen, queue }
    }

    /// The next reference to resolve, or `None` when all are done.
    pub fn next_request(&mut self) -> (r: Option<ObjRef>)
        ensures
            final(self).seen() == old(self).seen(),
            final(self).resolved() == old(self).resolved(),
            match r {
                Some(x) => old(self).pending().contains(x) && old(self).pending() == final(self).pending().insert(x),
                None => old(self).pending().is_empty() && final(self).pending().is_empty(),
            },
    {
        let ghost q = self.queue@;
        let r = self.queue.pop();
        proof {
            match r {
                Some(x) => {
                    assert(q =~= self.queue@.push(x));
                    lemma_push_to_set(self.queue@, x);
                },
                None => {
                    assert(q.to_set() =~= Set::<ObjRef>::empty());
                },
            }
        }
        r
    }

    /// Records the outcome of resolving `r`: `None` where it failed. The
    /// references of a resolved node that were not met before become
    /// pending.
    pub fn supply(&mut self, r: ObjRef, node: Option<Node>)
        ensures
            match node {
                Some(n) => {
                    &&& final(self).resolved() == old(self).resolved().push((r, n))
                    &&& final(self).seen() == old(self).seen().union(refs_of(n))
                    &&& final(self).pending() == old(self).pending().union(refs_of(n).difference(old(self).seen()))
                },
                None => {
                    &&& final(self).resolved() == old(self).resolved()
                    &&& final(self).seen() == old(self).seen()
                    &&& final(self).pending() == old(self).pending()
                },
            },
    {
        if let Some(n) = node {
            collect_refs(&n, &mut self.seen, &mut self.queue);
            self.resolver.add(r, n);
        }
    }

    /// The resolutions gathered, as a resolver.
    pub fn into_resolver(self) -> (res: Resolver)
        ensures
            res@ == self.resolved(),
    {
        self.resolver
    }
}

} // verus!
