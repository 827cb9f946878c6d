use pdf_inspector::loader::Loader;
use pdf_inspector::node::{Node, ObjRef};
use pdf_inspector::path::path_to_string;
use pdf_inspector::search::Inspector;

fn oref(id: u64) -> ObjRef {
    ObjRef { id, gen: 0 }
}

fn dict(entries: Vec<(&str, Node)>) -> Node {
    Node::Dictionary(entries.into_iter().map(|(k, v)| (k.to_string(), v)).collect())
}

/// A small document: 1 -> {Kids: [2, 3]}, 2 -> {Parent: 1, K: 0}, 3 -> {Parent: 1}; 4 fails.
fn object(id: u64) -> Option<Node> {
    match id {
        1 => Some(dict(vec![("Kids", Node::Array(vec![Node::Reference(oref(2)), Node::Reference(oref(3))]))])),
        2 => Some(dict(vec![("Parent", Node::Reference(oref(1))), ("K", Node::Integer(0))])),
        3 => Some(dict(vec![("Parent", Node::Reference(oref(1))), ("Missing", Node::Reference(oref(4)))])),
        _ => None,
    }
}

#[test]
fn loader_requests_each_reference_once() {
    let root = dict(vec![("Root", Node::Reference(oref(1))), ("Again", Node::Reference(oref(1)))]);
    let mut loader = Loader::new(&root);
    let mut requested = Vec::new();
    while let Some(r) = loader.next_request() {
        requested.push(r.id);
        loader.supply(r, object(r.id));
    }
    requested.sort();
    assert_eq!(requested, vec![1, 2, 3, 4]);
    assert_eq!(loader.next_request(), None);
}

#[test]
fn loader_without_references_requests_nothing() {
    let mut loader = Loader::new(&dict(vec![("A", Node::Integer(1))]));
    assert_eq!(loader.next_request(), None);
    let resolver = loader.into_resolver();
    assert!(resolver.resolve(oref(1)).is_none());
}

#[test]
fn loaded_resolver_serves_the_search() {
    let root = dict(vec![("Root", Node::Reference(oref(1)))]);
    let mut loader = Loader::new(&root);
    while let Some(r) = loader.next_request() {
        loader.supply(r, object(r.id));
    }
    let inspector = Inspector::new(loader.into_resolver());
    let paths = inspector.search_key(&root, "K");
    let shown: Vec<String> = paths.iter().map(path_to_string).collect();
    assert_eq!(shown, vec!["->Root->Kids[0]->K".to_string()]);
    assert!(inspector.resolver().resolve(oref(4)).is_none());
}

#[test]
fn loader_keeps_failed_reference_unresolved() {
    let root = Node::Reference(oref(4));
    let mut loader = Loader::new(&root);
    assert_eq!(loader.next_request(), Some(oref(4)));
    loader.supply(oref(4), None);
    assert_eq!(loader.next_request(), None);
    assert!(loader.into_resolver().resolve(oref(4)).is_none());
}
