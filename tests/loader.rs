use holaplex_indexer::loader::Loader;

fn s(x: &str) -> String {
    x.to_string()
}

#[test]
fn concurrent_loads_share_one_batch_of_distinct_keys() {
    let mut l: Loader<u32> = Loader::new();
    assert!(!l.load(s("a")));
    assert!(!l.load(s("b")));
    assert!(!l.load(s("a")));
    let keys = l.dispatch();
    assert_eq!(keys, vec![s("a"), s("b")]);
    l.resolve(&keys, vec![(s("b"), 2), (s("a"), 1)]);
    assert_eq!(l.cached(&s("a")), Some(&vec![1]));
    assert_eq!(l.cached(&s("a")), l.cached(&s("a")));
    assert_eq!(l.cached(&s("b")), Some(&vec![2]));
}

#[test]
fn many_loads_over_few_keys_dispatch_each_key_once() {
    let mut l: Loader<u32> = Loader::new();
    let requests = ["k1", "k2", "k1", "k3", "k2", "k2", "k1"];
    for r in requests {
        assert!(!l.load(s(r)));
    }
    let keys = l.dispatch();
    assert_eq!(keys, vec![s("k1"), s("k2"), s("k3")]);
    assert!(l.dispatch().is_empty());
}

#[test]
fn resolved_key_is_not_fetched_again() {
    let mut l: Loader<u32> = Loader::new();
    assert!(!l.load(s("a")));
    let keys = l.dispatch();
    l.resolve(&keys, vec![(s("a"), 7)]);
    assert!(l.load(s("a")));
    assert!(l.dispatch().is_empty());
    assert_eq!(l.cached(&s("a")), Some(&vec![7]));
}

#[test]
fn omitted_key_resolves_to_nothing() {
    let mut l: Loader<u32> = Loader::new();
    l.load(s("a"));
    l.load(s("missing"));
    let keys = l.dispatch();
    l.resolve(&keys, vec![(s("a"), 1)]);
    assert_eq!(l.cached(&s("missing")), Some(&Vec::new()));
    assert!(l.load(s("missing")));
}

#[test]
fn one_to_many_values_keep_response_order() {
    let mut l: Loader<u32> = Loader::new();
    l.load(s("nft"));
    let keys = l.dispatch();
    l.resolve(&keys, vec![(s("nft"), 3), (s("other"), 9), (s("nft"), 1), (s("nft"), 2)]);
    assert_eq!(l.cached(&s("nft")), Some(&vec![3, 1, 2]));
    assert_eq!(l.cached(&s("other")), None);
}

#[test]
fn first_answer_for_a_key_is_kept() {
    let mut l: Loader<u32> = Loader::new();
    l.load(s("a"));
    let first = l.dispatch();
    l.load(s("a"));
    let second = l.dispatch();
    assert_eq!(second, vec![s("a")]);
    l.resolve(&first, vec![(s("a"), 1)]);
    l.resolve(&second, vec![(s("a"), 2)]);
    assert_eq!(l.cached(&s("a")), Some(&vec![1]));
}

#[test]
fn failed_batch_leaves_keys_unresolved() {
    let mut l: Loader<u32> = Loader::new();
    l.load(s("a"));
    let _lost = l.dispatch();
    assert_eq!(l.cached(&s("a")), None);
    assert!(!l.load(s("a")));
    assert_eq!(l.dispatch(), vec![s("a")]);
}

#[test]
fn new_loader_is_empty() {
    let mut l: Loader<String> = Loader::new();
    assert_eq!(l.cached(&s("x")), None);
    assert!(l.dispatch().is_empty());
}
