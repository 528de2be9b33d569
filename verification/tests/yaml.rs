use irc_bot::util::yaml::{
    any_to_seq, check_type, get_arg_by_short_or_long_key, iter_as_seq, mk_false, mk_int, mk_map, mk_seq, mk_str, mk_true,
    parse_and_check_node, parse_node, scalar_to_str, yaml_clone, yaml_eq, Kind, YamlNode,
};

#[test]
fn parsing_nodes() {
    assert!(parse_node("").unwrap().is_none());
    assert_eq!(parse_node("123").unwrap(), Some(mk_int(123)));
    assert_eq!(parse_node("x").unwrap(), Some(mk_str("x")));
    assert_eq!(parse_node("true").unwrap(), Some(mk_true()));
    assert!(parse_node("{").is_err());
    assert!(parse_node("--- a\n--- b").is_err());
    assert_eq!(
        parse_node("[a, 1]").unwrap(),
        Some(mk_seq(vec![mk_str("a"), mk_int(1)]))
    );
}

#[test]
fn scalars_and_sequences() {
    assert_eq!(scalar_to_str(&mk_str("x"), "it").unwrap(), "x");
    assert_eq!(scalar_to_str(&mk_int(12), "it").unwrap(), "12");
    assert_eq!(scalar_to_str(&mk_false(), "it").unwrap(), "false");
    assert!(scalar_to_str(&mk_seq(vec![]), "it").is_err());
    let seq = mk_seq(vec![mk_str("a"), mk_str("b")]);
    assert_eq!(any_to_seq(Some(&seq)).len(), 2);
    assert_eq!(any_to_seq(Some(&mk_str("a"))), vec![mk_str("a")]);
    assert_eq!(any_to_seq(None).len(), 0);
    assert_eq!(iter_as_seq(Some(&seq)).len(), 2);
}

#[test]
fn arguments_by_short_or_long_key() {
    let m = mk_map(vec![(mk_str("r"), mk_str("x")), (mk_str("string"), mk_str("y"))]);
    match &m {
        YamlNode::Hash(entries) => {
            let r = get_arg_by_short_or_long_key(entries, &mk_str("r"), &mk_str("regex")).unwrap();
            assert_eq!(r, Some(mk_str("x")));
            let s = get_arg_by_short_or_long_key(entries, &mk_str("s"), &mk_str("string")).unwrap();
            assert_eq!(s, Some(mk_str("y")));
            assert_eq!(get_arg_by_short_or_long_key(entries, &mk_str("t"), &mk_str("tag")).unwrap(), None);
            let both = vec![(mk_str("r"), mk_str("x")), (mk_str("regex"), mk_str("y"))];
            assert!(get_arg_by_short_or_long_key(&both, &mk_str("r"), &mk_str("regex")).is_err());
        }
        _ => unreachable!(),
    }
}

#[test]
fn type_checks() {
    let syntax = parse_node("{k: v}").unwrap().unwrap();
    assert!(check_type(&syntax, &parse_node("k: x").unwrap().unwrap(), "arg").is_ok());
    assert!(check_type(&syntax, &parse_node("j: x").unwrap().unwrap(), "arg").is_err());
    assert!(parse_and_check_node("", &syntax, "arg", mk_map(vec![])).is_err());
    assert_eq!(Kind::of(&mk_str("x")), Kind::of(&mk_int(1)));
    assert!(yaml_eq(&yaml_clone(&syntax), &syntax));
}

use irc_bot::util::yaml::YamlError;

#[test]
fn yaml_error_messages() {
    match parse_node("--- a\n--- b") {
        Err(e) => {
            assert!(matches!(e, YamlError::NoSingleNode(2)));
            assert_eq!(e.message(), "While parsing YAML: Wanted a single node, but found 2 nodes.");
        }
        other => panic!("unexpected {:?}", other),
    }
    assert!(matches!(parse_node("{"), Err(YamlError::YamlScan(_))));
    let syntax = parse_node("{k: v}").unwrap().unwrap();
    match check_type(&syntax, &parse_node("j: x").unwrap().unwrap(), "arg") {
        Err(e) => {
            assert!(matches!(e, YamlError::RequiredFieldMissing(_)));
            assert_eq!(e.message(), "While handling YAML: An object is missing the required field \"k\".");
        }
        other => panic!("unexpected {:?}", other),
    }
    match scalar_to_str(&mk_seq(vec![]), "the thing") {
        Err(e) => assert_eq!(
            e.message(),
            "While handling YAML: Expected the thing to be of type Scalar, but it is of type Sequence."
        ),
        other => panic!("unexpected {:?}", other),
    }
    let both = vec![(mk_str("r"), mk_str("x")), (mk_str("regex"), mk_str("y"))];
    match get_arg_by_short_or_long_key(&both, &mk_str("r"), &mk_str("regex")) {
        Err(e) => assert_eq!(
            e.message(),
            "While handling YAML: An argument was given by both its full key \"regex\" and its abbreviated key \"r\"; please use one or the other but not both."
        ),
        other => panic!("unexpected {:?}", other),
    }
    assert_eq!(
        YamlError::ExpectedEmptyStream.message(),
        "While handling YAML: Expected an empty stream, but found a non-empty stream."
    );
}
