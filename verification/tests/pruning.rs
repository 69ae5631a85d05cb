use disable_code::filter::CompiledPredicate;
use disable_code::node::{Kind, Node};
use disable_code::node::looks_like_root;
use disable_code::prune::{delete_child, delete_item, modify_ast};
use disable_code::rule::{env_to_filter, parse_filter, prune_with_rule, FilterError};

fn node(id: u64, name: &str, markers: &[&str], kind: Kind, children: Vec<Node>) -> Node {
    Node {
        id,
        name: name.to_string(),
        markers: markers.iter().map(|m| m.to_string()).collect(),
        kind,
        children,
    }
}

fn function(id: u64, name: &str, markers: &[&str]) -> Node {
    node(id, name, markers, Kind::Function, Vec::new())
}

fn module(id: u64, name: &str, markers: &[&str], children: Vec<Node>) -> Node {
    node(id, name, markers, Kind::Container, children)
}

fn sample_tree() -> Node {
    module(
        0,
        "",
        &[],
        vec![
            function(1, "main", &[]),
            function(2, "check_main", &["test"]),
            module(
                3,
                "util",
                &[],
                vec![
                    function(4, "helper", &[]),
                    function(5, "bench_helper", &["bench"]),
                    module(6, "tests", &["test"], vec![function(7, "inner", &[])]),
                    node(8, "LIMIT", &[], Kind::Other, Vec::new()),
                ],
            ),
            module(9, "empty", &[], vec![function(10, "only", &["test"])]),
            node(11, "Config", &["test"], Kind::Other, Vec::new()),
        ],
    )
}

fn names(nodes: &[Node]) -> Vec<String> {
    nodes.iter().map(|n| n.name.clone()).collect()
}

#[test]
fn always_empties_the_root_and_keeps_it() {
    let mut tree = sample_tree();
    modify_ast(&CompiledPredicate::Always, &mut tree);
    assert_eq!(tree, module(0, "", &[], Vec::new()));
}

#[test]
fn never_changes_nothing() {
    let mut tree = sample_tree();
    modify_ast(&CompiledPredicate::Never, &mut tree);
    assert_eq!(tree, sample_tree());
}

#[test]
fn pruning_twice_changes_nothing_more() {
    for rule in ["test()", "or(test(),bench())", "fn()", "regex(\"e\")", "true()", "not(fn())"] {
        let filter = parse_filter(rule).unwrap();
        let mut once = sample_tree();
        modify_ast(&filter, &mut once);
        let mut twice = sample_tree();
        modify_ast(&filter, &mut twice);
        modify_ast(&filter, &mut twice);
        assert_eq!(once, twice, "{}", rule);
    }
}

#[test]
fn survivors_keep_their_order() {
    let mut tree = module(
        0,
        "",
        &[],
        vec![
            function(1, "a", &[]),
            function(2, "b", &["test"]),
            function(3, "c", &[]),
            function(4, "d", &["test"]),
        ],
    );
    modify_ast(&parse_filter("test()").unwrap(), &mut tree);
    assert_eq!(names(&tree.children), ["a", "c"]);
    assert_eq!(tree.children[0].id, 1);
    assert_eq!(tree.children[1].id, 3);
}

#[test]
fn removal_takes_the_whole_subtree_and_nothing_else() {
    let mut tree = sample_tree();
    modify_ast(&parse_filter("test()").unwrap(), &mut tree);
    let expected = module(
        0,
        "",
        &[],
        vec![
            function(1, "main", &[]),
            module(
                3,
                "util",
                &[],
                vec![
                    function(4, "helper", &[]),
                    function(5, "bench_helper", &["bench"]),
                    node(8, "LIMIT", &[], Kind::Other, Vec::new()),
                ],
            ),
            module(9, "empty", &[], Vec::new()),
        ],
    );
    assert_eq!(tree, expected);
}

#[test]
fn a_child_is_judged_by_its_own_data() {
    let mut tree = module(
        0,
        "",
        &["test"],
        vec![module(1, "kept", &[], vec![function(2, "gone", &["test"]), function(3, "stays", &[])])],
    );
    modify_ast(&parse_filter("test()").unwrap(), &mut tree);
    assert_eq!(
        tree,
        module(0, "", &["test"], vec![module(1, "kept", &[], vec![function(3, "stays", &[])])])
    );
}

#[test]
fn the_root_stays_whatever_the_filter_says() {
    let mut tree = module(0, "crate", &["test"], vec![function(1, "f", &[])]);
    modify_ast(&parse_filter("or(test(),fn())").unwrap(), &mut tree);
    assert_eq!(tree, module(0, "crate", &["test"], Vec::new()));
    let mut lone = function(0, "f", &["test"]);
    modify_ast(&CompiledPredicate::Always, &mut lone);
    assert_eq!(lone, function(0, "f", &["test"]));
}

#[test]
fn only_containers_are_descended_into() {
    let odd = || node(1, "odd", &[], Kind::Other, vec![function(2, "inside", &["test"])]);
    let mut tree = module(0, "", &[], vec![odd()]);
    modify_ast(&parse_filter("test()").unwrap(), &mut tree);
    assert_eq!(tree, module(0, "", &[], vec![odd()]));
}

#[test]
fn delete_item_judges_the_item_first() {
    let filter = parse_filter("test()").unwrap();
    let mut marked = module(1, "m", &["test"], vec![function(2, "f", &["test"])]);
    assert!(delete_item(&filter, &mut marked));
    assert_eq!(marked, module(1, "m", &["test"], vec![function(2, "f", &["test"])]));
    let mut plain = module(1, "m", &[], vec![function(2, "f", &["test"]), function(3, "g", &[])]);
    assert!(!delete_item(&filter, &mut plain));
    assert_eq!(plain, module(1, "m", &[], vec![function(3, "g", &[])]));
}

#[test]
fn the_configured_filter_spares_the_root() {
    let filter = env_to_filter(Some("true()")).unwrap();
    let mut tree = sample_tree();
    assert!(!delete_item(&filter, &mut tree));
    assert_eq!(tree, module(0, "", &[], Vec::new()));
    let keep_all = env_to_filter(None).unwrap();
    let mut same = sample_tree();
    assert!(!delete_item(&keep_all, &mut same));
    assert_eq!(same, sample_tree());
}

#[test]
fn deep_trees_are_pruned_at_every_level() {
    let mut tree = module(
        0,
        "",
        &[],
        vec![module(
            1,
            "a",
            &[],
            vec![module(
                2,
                "b",
                &[],
                vec![module(3, "c", &[], vec![function(4, "t", &["bench"]), function(5, "u", &[])])],
            )],
        )],
    );
    modify_ast(&parse_filter("bench()").unwrap(), &mut tree);
    assert_eq!(
        tree,
        module(
            0,
            "",
            &[],
            vec![module(
                1,
                "a",
                &[],
                vec![module(2, "b", &[], vec![module(3, "c", &[], vec![function(5, "u", &[])])])],
            )],
        )
    );
}

#[test]
fn a_clone_is_the_same_tree() {
    let tree = sample_tree();
    let copy = tree.clone();
    assert_eq!(copy, tree);
    let mut pruned = tree.clone();
    modify_ast(&parse_filter("fn()").unwrap(), &mut pruned);
    assert_eq!(tree, sample_tree());
    assert_ne!(pruned, tree);
    assert_eq!(names(&pruned.children), ["util", "empty", "Config"]);
}

#[test]
fn delete_item_never_deletes_the_root() {
    let mut tree = sample_tree();
    assert!(!delete_item(&CompiledPredicate::Always, &mut tree));
    assert_eq!(tree, module(0, "", &[], Vec::new()));
    let mut marked = module(0, "", &["test"], vec![function(1, "f", &["test"]), function(2, "g", &[])]);
    assert!(!delete_item(&parse_filter("test()").unwrap(), &mut marked));
    assert_eq!(marked, module(0, "", &["test"], vec![function(2, "g", &[])]));
    let mut bare = module(0, "", &[], Vec::new());
    assert!(!delete_item(&CompiledPredicate::Always, &mut bare));
    assert_eq!(bare, module(0, "", &[], Vec::new()));
}

#[test]
fn delete_item_deletes_what_only_resembles_the_root_in_part() {
    let mut named = module(1, "m", &[], vec![function(2, "f", &[])]);
    assert!(delete_item(&CompiledPredicate::Always, &mut named));
    assert_eq!(named, module(1, "m", &[], vec![function(2, "f", &[])]));
    let mut nameless = node(1, "", &[], Kind::Other, Vec::new());
    assert!(delete_item(&CompiledPredicate::Always, &mut nameless));
    let mut anonymous = function(1, "", &[]);
    assert!(delete_item(&CompiledPredicate::Always, &mut anonymous));
}

#[test]
fn delete_child_asks_the_filter_about_every_node() {
    let mut root = module(0, "", &[], vec![function(1, "f", &[])]);
    assert!(delete_child(&CompiledPredicate::Always, &mut root));
    assert_eq!(root, module(0, "", &[], vec![function(1, "f", &[])]));
    let mut kept = module(0, "", &[], vec![function(1, "f", &["test"]), function(2, "g", &[])]);
    assert!(!delete_child(&parse_filter("test()").unwrap(), &mut kept));
    assert_eq!(kept, module(0, "", &[], vec![function(2, "g", &[])]));
}

#[test]
fn a_nested_container_without_a_name_goes_with_always() {
    let mut tree = module(0, "", &[], vec![module(1, "", &[], vec![function(2, "f", &[])])]);
    modify_ast(&CompiledPredicate::Always, &mut tree);
    assert_eq!(tree, module(0, "", &[], Vec::new()));
}

#[test]
fn roots_are_containers_without_a_name() {
    assert!(looks_like_root(&module(0, "", &["test"], vec![function(1, "f", &[])])));
    assert!(!looks_like_root(&module(0, "m", &[], Vec::new())));
    assert!(!looks_like_root(&function(0, "", &[])));
    assert!(!looks_like_root(&node(0, "", &[], Kind::Other, Vec::new())));
}

#[test]
fn a_whole_pass_prunes_with_the_rule() {
    let mut tree = sample_tree();
    assert_eq!(prune_with_rule(Some("true()"), &mut tree), Ok(()));
    assert_eq!(tree, module(0, "", &[], Vec::new()));
    let mut tests = sample_tree();
    assert_eq!(prune_with_rule(Some("test()"), &mut tests), Ok(()));
    let mut expected = sample_tree();
    modify_ast(&parse_filter("test()").unwrap(), &mut expected);
    assert_eq!(tests, expected);
    assert_ne!(tests, sample_tree());
}

#[test]
fn a_whole_pass_without_a_rule_changes_nothing() {
    let mut tree = sample_tree();
    assert_eq!(prune_with_rule(None, &mut tree), Ok(()));
    assert_eq!(tree, sample_tree());
}

#[test]
fn a_wrong_rule_fails_before_anything_changes() {
    for rule in ["test(", "", "test() x", "nope()", "and()", "regex(\"(\")", "not(\"x\")"] {
        let mut tree = sample_tree();
        let result = prune_with_rule(Some(rule), &mut tree);
        assert!(result.is_err(), "{}", rule);
        assert_eq!(tree, sample_tree(), "{}", rule);
    }
    let mut tree = sample_tree();
    assert!(matches!(prune_with_rule(Some("f("), &mut tree), Err(FilterError::Grammar(_))));
    assert!(matches!(prune_with_rule(Some("f()"), &mut tree), Err(FilterError::Semantic(_))));
    assert_eq!(tree, sample_tree());
}
