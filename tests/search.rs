use pdf_inspector::node::{Node, ObjRef, Resolver};
use pdf_inspector::path::{path_to_string, PathElem, SearchPath};
use pdf_inspector::search::Inspector;

fn dict(entries: Vec<(&str, Node)>) -> Node {
    Node::Dictionary(entries.into_iter().map(|(k, v)| (k.to_string(), v)).collect())
}

fn oref(id: u64) -> ObjRef {
    ObjRef { id, gen: 0 }
}

fn rendered(paths: &[SearchPath]) -> Vec<String> {
    paths.iter().map(path_to_string).collect()
}

fn search(resolver: Resolver, root: &Node, key: &str) -> Vec<String> {
    let inspector = Inspector::new(resolver);
    rendered(&inspector.search_key(root, key))
}

#[test]
fn reference_cycle_terminates() {
    let mut r = Resolver::new();
    r.add(oref(1), dict(vec![("Next", Node::Reference(oref(2)))]));
    r.add(oref(2), dict(vec![("Next", Node::Reference(oref(3)))]));
    r.add(oref(3), dict(vec![("Next", Node::Reference(oref(1))), ("K", Node::Null)]));
    let got = search(r, &Node::Reference(oref(1)), "K");
    assert_eq!(got, vec!["->Next->Next->K".to_string()]);
}

#[test]
fn reference_cycle_without_match_is_empty() {
    let mut r = Resolver::new();
    r.add(oref(1), dict(vec![("A", Node::Reference(oref(2)))]));
    r.add(oref(2), dict(vec![("B", Node::Reference(oref(1)))]));
    let got = search(r, &Node::Reference(oref(1)), "K");
    assert!(got.is_empty());
}

#[test]
fn reference_crossing_adds_no_step() {
    let mut r = Resolver::new();
    r.add(oref(7), dict(vec![("Foo", Node::Integer(1))]));
    let inspector = Inspector::new(r);
    let paths = inspector.search_key(&Node::Reference(oref(7)), "Foo");
    assert_eq!(paths.len(), 1);
    let steps: Vec<&PathElem> = paths[0].iter().collect();
    assert_eq!(steps.len(), 1);
    assert!(matches!(steps[0], PathElem::DictElem { key } if key == "Foo"));
}

#[test]
fn array_index_positions() {
    let root = Node::Array(vec![
        dict(vec![("K", dict(vec![("K", Node::Integer(1))]))]),
        dict(vec![("K", Node::Integer(2))]),
    ]);
    let got = search(Resolver::new(), &root, "K");
    assert_eq!(got, vec!["[0]->K".to_string(), "[0]->K->K".to_string(), "[1]->K".to_string()]);
}

#[test]
fn array_index_steps() {
    let root = Node::Array(vec![Node::Null, Node::Integer(3), dict(vec![("K", Node::Null)])]);
    let inspector = Inspector::new(Resolver::new());
    let paths = inspector.search_key(&root, "K");
    assert_eq!(paths.len(), 1);
    assert_eq!(paths[0].len(), 2);
    assert!(matches!(paths[0].get(0), PathElem::ArrayElem { index: 2 }));
    assert!(matches!(paths[0].get(1), PathElem::DictElem { key } if key == "K"));
}

#[test]
fn self_match_plus_nested_match() {
    let root = dict(vec![("K", dict(vec![("K", Node::Integer(5))]))]);
    let got = search(Resolver::new(), &root, "K");
    assert_eq!(got, vec!["->K".to_string(), "->K->K".to_string()]);
}

#[test]
fn stream_is_searched_as_its_dictionary() {
    let info = vec![("Info".to_string(), Node::Integer(1))];
    let stream = Node::Stream { info, data: b"Info".to_vec() };
    let got = search(Resolver::new(), &stream, "Info");
    assert_eq!(got, vec!["->Info".to_string()]);
    let same = search(Resolver::new(), &dict(vec![("Info", Node::Integer(1))]), "Info");
    assert_eq!(got, same);
}

#[test]
fn unresolvable_reference_keeps_siblings() {
    let root = dict(vec![
        ("A", Node::Reference(oref(9))),
        ("B", dict(vec![("K", Node::Null)])),
        ("K", Node::Boolean(true)),
    ]);
    let got = search(Resolver::new(), &root, "K");
    assert_eq!(got, vec!["->B->K".to_string(), "->K".to_string()]);
}

#[test]
fn unresolvable_reference_alone_is_empty() {
    let got = search(Resolver::new(), &Node::Reference(oref(4)), "K");
    assert!(got.is_empty());
}

#[test]
fn scalars_and_empty_containers_have_no_match() {
    let nodes = vec![
        Node::Null,
        Node::Integer(-4),
        Node::Real(1.5f64.to_bits()),
        Node::Boolean(false),
        Node::Text(b"K".to_vec()),
        Node::Name("K".to_string()),
        Node::Array(Vec::new()),
        Node::Dictionary(Vec::new()),
        Node::Stream { info: Vec::new(), data: Vec::new() },
    ];
    for n in &nodes {
        assert!(search(Resolver::new(), n, "K").is_empty());
    }
}

#[test]
fn shared_reference_is_followed_once() {
    let mut r = Resolver::new();
    r.add(oref(5), dict(vec![("K", Node::Null)]));
    let root = dict(vec![("A", Node::Reference(oref(5))), ("B", Node::Reference(oref(5)))]);
    let got = search(r, &root, "K");
    assert_eq!(got, vec!["->A->K".to_string()]);
}

#[test]
fn visited_set_spans_array_elements() {
    let mut r = Resolver::new();
    r.add(oref(5), dict(vec![("K", Node::Null)]));
    let root = Node::Array(vec![Node::Reference(oref(5)), Node::Reference(oref(5))]);
    let got = search(r, &root, "K");
    assert_eq!(got, vec!["[0]->K".to_string()]);
}

#[test]
fn each_search_has_a_fresh_visited_set() {
    let mut r = Resolver::new();
    r.add(oref(5), dict(vec![("K", Node::Null)]));
    let inspector = Inspector::new(r);
    let root = Node::Reference(oref(5));
    assert_eq!(inspector.search_key(&root, "K").len(), 1);
    assert_eq!(inspector.search_key(&root, "K").len(), 1);
}

#[test]
fn query_is_case_sensitive() {
    let root = dict(vec![("Type", Node::Null), ("type", Node::Null)]);
    assert_eq!(search(Resolver::new(), &root, "type"), vec!["->type".to_string()]);
}

#[test]
fn empty_query_matches_empty_key() {
    let root = dict(vec![("", Node::Null), ("A", Node::Null)]);
    assert_eq!(search(Resolver::new(), &root, ""), vec!["->".to_string()]);
}

#[test]
fn generation_is_part_of_the_reference() {
    let mut r = Resolver::new();
    r.add(ObjRef { id: 3, gen: 1 }, dict(vec![("K", Node::Null)]));
    let got = search(r, &Node::Reference(ObjRef { id: 3, gen: 0 }), "K");
    assert!(got.is_empty());
}

#[test]
fn first_entry_of_a_reference_wins() {
    let mut r = Resolver::new();
    r.add(oref(1), dict(vec![("First", Node::Null)]));
    r.add(oref(1), dict(vec![("Second", Node::Null)]));
    let found = r.resolve(oref(1));
    assert!(matches!(found, Some(Node::Dictionary(d)) if d[0].0 == "First"));
    assert!(r.resolve(oref(2)).is_none());
}

#[test]
fn path_display_uses_arrows_and_brackets() {
    let mut p = SearchPath::new(PathElem::from_dict_key("Resources"));
    p.add_to_start(PathElem::from_array_index(0));
    p.add_to_start(PathElem::from_dict_key("Pages"));
    assert_eq!(path_to_string(&p), "->Pages[0]->Resources");
}

#[test]
fn path_display_of_large_index() {
    let mut p = SearchPath::new(PathElem::from_array_index(1207));
    p.add_to_start(PathElem::from_array_index(10));
    assert_eq!(path_to_string(&p), "[10][1207]");
    let q = SearchPath::new(PathElem::from_array_index(usize::MAX));
    assert_eq!(path_to_string(&q), format!("[{}]", usize::MAX));
}

#[test]
fn path_steps_in_order() {
    let mut p = SearchPath::new(PathElem::from_dict_key("C"));
    p.add_to_start(PathElem::from_dict_key("B"));
    p.add_to_start(PathElem::from_array_index(4));
    let keys: Vec<String> = p
        .iter()
        .map(|e| match e {
            PathElem::DictElem { key } => key.clone(),
            PathElem::ArrayElem { index } => index.to_string(),
        })
        .collect();
    assert_eq!(keys, vec!["4".to_string(), "B".to_string(), "C".to_string()]);
}

#[test]
fn deep_nesting_is_searched() {
    let mut n = dict(vec![("K", Node::Null)]);
    for _ in 0..50 {
        n = Node::Array(vec![n]);
    }
    let got = search(Resolver::new(), &n, "K");
    assert_eq!(got, vec![format!("{}->K", "[0]".repeat(50))]);
}

#[test]
fn free_search_matches_inspector() {
    let mut r = Resolver::new();
    r.add(oref(2), dict(vec![("K", Node::Null)]));
    let root = dict(vec![("A", Node::Reference(oref(2))), ("K", Node::Integer(1))]);
    let direct = rendered(&pdf_inspector::search::search(&root, "K", &r));
    assert_eq!(direct, vec!["->A->K".to_string(), "->K".to_string()]);
    assert_eq!(direct, search(r, &root, "K"));
}
