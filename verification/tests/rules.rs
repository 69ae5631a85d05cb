use disable_code::compile::{expr_to_filter, Expectation, SemanticError};
use disable_code::expr::{Call, Expr};
use disable_code::filter::{and, not, or, CompiledPredicate};
use disable_code::node::{Kind, Node};
use disable_code::parser::{args, call, expr, name, quote, scan, ByteClass};
use disable_code::prune::Filter;
use disable_code::rule::{env_to_filter, parse, parse_filter, FilterError, GrammarError};
use disable_code::text::{bytes_to_string, same_text};

fn leaf(name: &str, markers: &[&str], kind: Kind) -> Node {
    Node {
        id: 0,
        name: name.to_string(),
        markers: markers.iter().map(|m| m.to_string()).collect(),
        kind,
        children: Vec::new(),
    }
}

fn samples() -> Vec<Node> {
    let mut nodes = Vec::new();
    for kind in [Kind::Function, Kind::Container, Kind::Other] {
        for markers in [&[][..], &["test"][..], &["bench"][..], &["test", "bench"][..]] {
            for name in ["", "foo", "foobar", "barfoo"] {
                nodes.push(leaf(name, markers, kind));
            }
        }
    }
    nodes
}

fn call_of(name: &str, args: Vec<Expr>) -> Expr {
    Expr::Call(Call { name: name.to_string(), args })
}

fn semantic(text: &str) -> SemanticError {
    match parse_filter(text) {
        Err(FilterError::Semantic(error)) => error,
        other => panic!("expected a semantic error, got {:?}", other),
    }
}

fn grammar(text: &str) -> GrammarError {
    match parse_filter(text) {
        Err(FilterError::Grammar(error)) => error,
        other => panic!("expected a grammar error, got {:?}", other),
    }
}

#[test]
fn not_negates_every_predicate_on_every_sample() {
    let rules = ["true()", "false()", "test()", "fn()", "regex(\"^foo\")", "or(test(),bench())"];
    for rule in rules {
        let plain = parse_filter(rule).unwrap();
        let negated = not(parse_filter(rule).unwrap());
        for node in samples() {
            assert_eq!(negated.apply(&node), !plain.apply(&node));
        }
    }
}

#[test]
fn empty_lists_are_true_and_false() {
    for node in samples() {
        assert!(and(Vec::new()).apply(&node));
        assert!(!or(Vec::new()).apply(&node));
        assert!(CompiledPredicate::AllOf(Vec::new()).apply(&node));
        assert!(!CompiledPredicate::AnyOf(Vec::new()).apply(&node));
    }
}

#[test]
fn and_of_test_and_fn_selects_test_functions_only() {
    let filter = parse_filter("and(test(),fn())").unwrap();
    for node in samples() {
        let expected = node.kind == Kind::Function && node.markers.iter().any(|m| m == "test");
        assert_eq!(filter.apply(&node), expected);
    }
}

#[test]
fn or_of_test_and_bench() {
    let filter = parse_filter("or(test(),bench())").unwrap();
    assert!(filter.apply(&leaf("b", &["bench"], Kind::Function)));
    assert!(!filter.apply(&leaf("b", &[], Kind::Function)));
    assert!(filter.apply(&leaf("b", &["test"], Kind::Other)));
    assert!(!filter.apply(&leaf("b", &["ignore"], Kind::Other)));
}

#[test]
fn not_of_regex_keeps_what_matches() {
    let filter = parse_filter("not(regex(\"^foo\"))").unwrap();
    assert!(!filter.apply(&leaf("foobar", &[], Kind::Function)));
    assert!(filter.apply(&leaf("barfoo", &[], Kind::Function)));
}

#[test]
fn regex_matches_anywhere_in_the_name() {
    let filter = parse_filter("regex(\"oba\")").unwrap();
    assert!(filter.apply(&leaf("foobar", &[], Kind::Other)));
    assert!(!filter.apply(&leaf("barfoo", &[], Kind::Other)));
    let anchored = parse_filter("regex(\"^bar$\")").unwrap();
    assert!(anchored.apply(&leaf("bar", &[], Kind::Other)));
    assert!(!anchored.apply(&leaf("barfoo", &[], Kind::Other)));
    let empty = parse_filter("regex(\"\")").unwrap();
    assert!(empty.apply(&leaf("", &[], Kind::Other)));
}

#[test]
fn blank_space_does_not_change_the_filter() {
    let tight = parse_filter("and(test(),fn())").unwrap();
    let loose = parse_filter("and( test() , fn() )").unwrap();
    let looser = parse_filter("and \t(\r\n test ( ) ,\nfn( ) ) \n").unwrap();
    for node in samples() {
        assert_eq!(tight.apply(&node), loose.apply(&node));
        assert_eq!(tight.apply(&node), looser.apply(&node));
    }
    assert_eq!(parse("and( test() , fn() )").unwrap(), parse("and(test(),fn())").unwrap());
}

#[test]
fn leaf_predicates() {
    let function = leaf("f", &["test"], Kind::Function);
    let module = leaf("m", &[], Kind::Container);
    let root = leaf("", &[], Kind::Container);
    let nameless = leaf("", &[], Kind::Other);
    assert!(CompiledPredicate::Always.apply(&function));
    assert!(!CompiledPredicate::Never.apply(&function));
    assert!(CompiledPredicate::IsFunctionDecl.apply(&function));
    assert!(!CompiledPredicate::IsFunctionDecl.apply(&module));
    assert!(CompiledPredicate::IsRootModule.apply(&root));
    assert!(!CompiledPredicate::IsRootModule.apply(&module));
    assert!(!CompiledPredicate::IsRootModule.apply(&nameless));
    assert!(CompiledPredicate::HasMarker("test".to_string()).apply(&function));
    assert!(!CompiledPredicate::HasMarker("tes".to_string()).apply(&function));
    assert!(!CompiledPredicate::HasMarker("test".to_string()).apply(&module));
    assert!(parse_filter("true()").unwrap().apply(&module));
    assert!(!parse_filter("false()").unwrap().apply(&module));
    assert!(parse_filter("bench()").unwrap().apply(&leaf("b", &["x", "bench"], Kind::Other)));
}

#[test]
fn lists_stop_at_the_member_that_settles_them() {
    let all = and(vec![CompiledPredicate::Always, CompiledPredicate::Never, CompiledPredicate::Always]);
    let any = or(vec![CompiledPredicate::Never, CompiledPredicate::Always, CompiledPredicate::Never]);
    let node = leaf("n", &[], Kind::Other);
    assert!(!all.apply(&node));
    assert!(any.apply(&node));
    assert!(and(vec![CompiledPredicate::Always, CompiledPredicate::Always]).apply(&node));
    assert!(!or(vec![CompiledPredicate::Never, CompiledPredicate::Never]).apply(&node));
}

#[test]
fn wrong_arguments_are_semantic_errors() {
    assert_eq!(
        semantic("test(\"1\")"),
        SemanticError::WrongArguments {
            function: "test".to_string(),
            expected: Expectation::NoArguments
        }
    );
    assert_eq!(
        semantic("and()"),
        SemanticError::WrongArguments {
            function: "and".to_string(),
            expected: Expectation::OneOrMoreArguments
        }
    );
    assert_eq!(
        semantic("or( )"),
        SemanticError::WrongArguments {
            function: "or".to_string(),
            expected: Expectation::OneOrMoreArguments
        }
    );
    assert_eq!(
        semantic("regex()"),
        SemanticError::WrongArguments {
            function: "regex".to_string(),
            expected: Expectation::OneStringArgument
        }
    );
    assert_eq!(
        semantic("regex(fn())"),
        SemanticError::WrongArguments {
            function: "regex".to_string(),
            expected: Expectation::OneStringArgument
        }
    );
    assert_eq!(
        semantic("regex(\"a\",\"b\")"),
        SemanticError::WrongArguments {
            function: "regex".to_string(),
            expected: Expectation::OneStringArgument
        }
    );
    assert_eq!(
        semantic("not()"),
        SemanticError::WrongArguments {
            function: "not".to_string(),
            expected: Expectation::OneArgument
        }
    );
    assert_eq!(
        semantic("not(fn(),fn())"),
        SemanticError::WrongArguments {
            function: "not".to_string(),
            expected: Expectation::OneArgument
        }
    );
    for name in ["true", "false", "bench", "fn"] {
        assert_eq!(
            semantic(&format!("{}(fn())", name)),
            SemanticError::WrongArguments {
                function: name.to_string(),
                expected: Expectation::NoArguments
            }
        );
    }
}

#[test]
fn messages_name_the_function_and_what_it_takes() {
    assert_eq!(semantic("test(\"1\")").message(), "test() takes no arguments");
    assert_eq!(semantic("and()").message(), "and() takes 1 or more arguments");
    assert_eq!(semantic("not()").message(), "not() takes 1 argument");
    assert_eq!(semantic("regex()").message(), "regex() takes exactly one string argument");
    assert_eq!(semantic("nope()").message(), "unrecognized function: nope");
    assert_eq!(semantic("not(\"x\")").message(), "unexpected string argument");
    let reason = regex::Regex::new("(").unwrap_err().to_string();
    assert!(!reason.is_empty());
    assert_eq!(
        semantic("regex(\"(\")").message(),
        format!("regex(): could not parse argument: {}", reason)
    );
}

#[test]
fn digits_are_not_in_the_grammar() {
    assert_eq!(
        grammar("test(1)"),
        GrammarError::Malformed { position: 5, fragment: "1)".to_string() }
    );
    assert_eq!(
        grammar("regex(1)"),
        GrammarError::Malformed { position: 6, fragment: "1)".to_string() }
    );
}

#[test]
fn unknown_functions_and_stray_strings() {
    assert_eq!(semantic("nope()"), SemanticError::UnknownFunction { name: "nope".to_string() });
    assert_eq!(semantic("tests()"), SemanticError::UnknownFunction { name: "tests".to_string() });
    assert_eq!(semantic("and(\"x\")"), SemanticError::UnexpectedString);
    assert_eq!(semantic("or(fn(),\"x\")"), SemanticError::UnexpectedString);
    assert_eq!(semantic("not(\"x\")"), SemanticError::UnexpectedString);
    assert_eq!(
        expr_to_filter(&Expr::Quote("x".to_string())).unwrap_err(),
        SemanticError::UnexpectedString
    );
}

#[test]
fn the_first_error_from_the_left_wins() {
    assert_eq!(
        semantic("and(nope(),test(\"x\"))"),
        SemanticError::UnknownFunction { name: "nope".to_string() }
    );
    assert_eq!(
        semantic("and(fn(),test(\"x\"),nope())"),
        SemanticError::WrongArguments {
            function: "test".to_string(),
            expected: Expectation::NoArguments
        }
    );
    assert_eq!(
        semantic("or(and(),nope())"),
        SemanticError::WrongArguments {
            function: "and".to_string(),
            expected: Expectation::OneOrMoreArguments
        }
    );
}

#[test]
fn invalid_patterns_are_semantic_errors() {
    match semantic("regex(\"(\")") {
        SemanticError::InvalidPattern { pattern, error } => {
            assert_eq!(pattern, "(");
            assert_eq!(error, regex::Regex::new("(").unwrap_err());
        }
        other => panic!("unexpected {:?}", other),
    }
    assert!(matches!(
        semantic("and(fn(),regex(\"[a\"))"),
        SemanticError::InvalidPattern { .. }
    ));
}

#[test]
fn compile_works_on_trees_built_by_hand() {
    let tree = call_of(
        "and",
        vec![call_of("not", vec![call_of("fn", vec![])]), call_of("regex", vec![Expr::Quote("^a".to_string())])],
    );
    let filter = expr_to_filter(&tree).unwrap();
    assert!(filter.apply(&leaf("ab", &[], Kind::Other)));
    assert!(!filter.apply(&leaf("ab", &[], Kind::Function)));
    assert!(!filter.apply(&leaf("ba", &[], Kind::Other)));
}

#[test]
fn parse_gives_the_expression_tree() {
    let parsed = parse("and( test() , regex(\"^a b\") )").unwrap();
    let expected = Call {
        name: "and".to_string(),
        args: vec![call_of("test", vec![]), call_of("regex", vec![Expr::Quote("^a b".to_string())])],
    };
    assert_eq!(parsed, expected);
    assert_eq!(parse("x()").unwrap(), Call { name: "x".to_string(), args: vec![] });
    assert_eq!(
        parse("f(\"\")").unwrap(),
        Call { name: "f".to_string(), args: vec![Expr::Quote(String::new())] }
    );
    assert_eq!(
        parse("f(\"h\u{e9}, (w\u{f6}rld)\")").unwrap(),
        Call { name: "f".to_string(), args: vec![Expr::Quote("h\u{e9}, (w\u{f6}rld)".to_string())] }
    );
    assert_eq!(
        parse("a(b(c(d())))").unwrap(),
        Call {
            name: "a".to_string(),
            args: vec![call_of("b", vec![call_of("c", vec![call_of("d", vec![])])])]
        }
    );
}

#[test]
fn malformed_rules() {
    let cases: [(&str, usize); 14] = [
        ("", 0),
        ("\"test\"", 0),
        (" test()", 0),
        ("Test()", 0),
        ("test", 4),
        ("test(", 5),
        ("test(fn()", 9),
        ("and(test(),)", 11),
        ("and(,test())", 4),
        ("and(test() fn())", 11),
        ("regex(\"abc)", 6),
        ("and(test();fn())", 10),
        ("te st()", 3),
        ("f(g)", 3),
    ];
    for (text, position) in cases {
        assert_eq!(
            parse(text).unwrap_err(),
            GrammarError::Malformed { position, fragment: text[position..].to_string() },
            "{:?}",
            text
        );
    }
}

#[test]
fn trailing_input_is_an_error() {
    assert_eq!(
        parse("test() x").unwrap_err(),
        GrammarError::TrailingInput { position: 7, fragment: "x".to_string() }
    );
    assert_eq!(
        parse("test())").unwrap_err(),
        GrammarError::TrailingInput { position: 6, fragment: ")".to_string() }
    );
    assert_eq!(
        grammar("and(fn())fn()"),
        GrammarError::TrailingInput { position: 9, fragment: "fn()".to_string() }
    );
    assert!(parse("test() \t\r\n").is_ok());
}

#[test]
fn grammar_errors_come_before_semantic_ones() {
    assert!(matches!(parse_filter("nope(() "), Err(FilterError::Grammar(_))));
    assert!(matches!(parse_filter("nope()"), Err(FilterError::Semantic(_))));
}

#[test]
fn pieces_of_the_grammar() {
    let input = b"  ab12 \"q r\" (x(),\"y\") ";
    assert_eq!(scan(input, 0, ByteClass::Blank), 2);
    assert_eq!(scan(input, 2, ByteClass::Letter), 4);
    assert_eq!(scan(input, 8, ByteClass::Quoted), 11);
    assert_eq!(scan(input, 4, ByteClass::Letter), 4);
    assert_eq!(scan(input, 100, ByteClass::Blank), 100);
    assert_eq!(name(input, 2), Ok(("ab".to_string(), 4)));
    assert_eq!(name(input, 4), Err(4));
    assert_eq!(name(input, 100), Err(100));
    assert_eq!(quote(input, 7), Ok(("q r".to_string(), 12)));
    assert_eq!(quote(input, 2), Err(2));
    assert_eq!(quote(input, 11), Ok((" (x(),".to_string(), 19)));
    assert_eq!(quote(input, 20), Err(20));
    assert_eq!(quote(input, 100), Err(100));
    assert_eq!(
        args(input, 12),
        Ok((vec![call_of("x", vec![]), Expr::Quote("y".to_string())], 23))
    );
    assert_eq!(args(input, 14), Err(14));
    assert_eq!(expr(input, 6), Ok((Expr::Quote("q r".to_string()), 13)));
    assert_eq!(expr(b" f ( ) ,", 0), Ok((call_of("f", vec![]), 7)));
    assert_eq!(expr(b" 1", 0), Err(1));
    assert_eq!(call(b"f()  g", 0), Ok((Call { name: "f".to_string(), args: vec![] }, 5)));
    assert_eq!(call(b" f()", 0), Err(0));
    assert!(ByteClass::Blank.has(b'\t') && ByteClass::Blank.has(b' '));
    assert!(ByteClass::Blank.has(b'\r') && ByteClass::Blank.has(b'\n'));
    assert!(!ByteClass::Blank.has(0x0b) && !ByteClass::Blank.has(b'a'));
    assert!(ByteClass::Letter.has(b'a') && ByteClass::Letter.has(b'z'));
    assert!(!ByteClass::Letter.has(b'A') && !ByteClass::Letter.has(b'{') && !ByteClass::Letter.has(b'`'));
    assert!(ByteClass::Quoted.has(b'a') && !ByteClass::Quoted.has(b'"'));
}

#[test]
fn bytes_become_text() {
    assert_eq!(bytes_to_string(b"hello"), "hello");
    assert_eq!(bytes_to_string("h\u{e9}".as_bytes()), "h\u{e9}");
    assert_eq!(bytes_to_string(&[0x61, 0xff, 0x62]), "a\u{fffd}b");
    assert_eq!(bytes_to_string(&[]), "");
    assert_eq!(quote(&[0x22, 0xff, 0x22], 0), Ok(("\u{fffd}".to_string(), 3)));
}

#[test]
fn same_text_compares_texts() {
    assert!(same_text("test", "test"));
    assert!(same_text("", ""));
    assert!(!same_text("test", "tes"));
    assert!(!same_text("test", "tesu"));
    assert!(!same_text("", "a"));
    assert!(same_text("h\u{e9}", "h\u{e9}"));
}

#[test]
fn without_a_rule_nothing_is_removed() {
    let filter = env_to_filter(None).unwrap();
    for node in samples() {
        assert!(!filter.apply(&node));
    }
}

#[test]
fn a_rule_never_selects_the_root() {
    let filter = env_to_filter(Some("true()")).unwrap();
    for node in samples() {
        let root = node.kind == Kind::Container && node.name.is_empty();
        assert_eq!(filter.apply(&node), !root);
    }
    let tests = env_to_filter(Some("test()")).unwrap();
    assert!(!tests.apply(&leaf("", &["test"], Kind::Container)));
    assert!(tests.apply(&leaf("m", &["test"], Kind::Container)));
    assert!(tests.apply(&leaf("", &["test"], Kind::Function)));
}

#[test]
fn a_bad_rule_gives_no_filter() {
    assert!(matches!(env_to_filter(Some("test(")), Err(FilterError::Grammar(_))));
    assert!(matches!(env_to_filter(Some("test(fn())")), Err(FilterError::Semantic(_))));
    assert!(matches!(env_to_filter(Some("")), Err(FilterError::Grammar(_))));
}

fn written(expr: &Expr) -> String {
    match expr {
        Expr::Quote(text) => format!("\"{}\"", text),
        Expr::Call(call) => {
            let args: Vec<String> = call.args.iter().map(written).collect();
            format!("{}({})", call.name, args.join(","))
        }
    }
}

#[test]
fn what_is_written_out_reads_back() {
    let trees = [
        call_of("true", vec![]),
        call_of("regex", vec![Expr::Quote("^a, (b)$".to_string())]),
        call_of(
            "and",
            vec![
                call_of("not", vec![call_of("test", vec![])]),
                call_of("or", vec![call_of("fn", vec![]), call_of("regex", vec![Expr::Quote(String::new())])]),
                Expr::Quote("\u{e9}\u{4e16}".to_string()),
            ],
        ),
        call_of("x", vec![Expr::Quote("a".to_string()), Expr::Quote("b".to_string()), call_of("y", vec![])]),
    ];
    for tree in trees {
        let text = written(&tree);
        let read = parse(&text).unwrap();
        assert_eq!(Expr::Call(read), tree, "{}", text);
        assert_eq!(expr(text.as_bytes(), 0), Ok((tree, text.len())));
    }
}

#[test]
fn fragments_are_the_end_of_the_rule() {
    for text in ["f(\u{e9}", "f(\"\u{e9}\") \u{4e16}", "\u{e9}", "f() \u{e9}\u{e9}", "f(\"\u{e9})"] {
        match parse(text).unwrap_err() {
            GrammarError::Malformed { position, fragment }
            | GrammarError::TrailingInput { position, fragment } => {
                assert_eq!(fragment, &text[position..], "{}", text);
            }
        }
    }
}
