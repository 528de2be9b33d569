use irc_bot::framework::bot_cmd::parse_arg;
use irc_bot::util::yaml::{mk_map, mk_seq, mk_str, parse_node, YamlNode};

fn pa(syntax_str: &str, arg_str: &str) -> Result<YamlNode, String> {
    let syntax = parse_node(syntax_str).unwrap().unwrap_or(mk_map(Vec::new()));
    parse_arg(&syntax, arg_str).map_err(|err| format!("{:?}", err))
}

fn s(text: &str) -> YamlNode {
    mk_str(text)
}

fn map(entries: &[(YamlNode, YamlNode)]) -> YamlNode {
    mk_map(entries.iter().map(|(k, v)| (copy(k), copy(v))).collect())
}

fn seq(entries: &[YamlNode]) -> YamlNode {
    mk_seq(entries.iter().map(copy).collect())
}

fn copy(n: &YamlNode) -> YamlNode {
    match n {
        YamlNode::Real(x) => YamlNode::Real(x.clone()),
        YamlNode::Integer(i) => YamlNode::Integer(*i),
        YamlNode::String(x) => YamlNode::String(x.clone()),
        YamlNode::Boolean(b) => YamlNode::Boolean(*b),
        YamlNode::Array(v) => YamlNode::Array(v.iter().map(copy).collect()),
        YamlNode::Hash(v) => YamlNode::Hash(v.iter().map(|(k, x)| (copy(k), copy(x))).collect()),
        YamlNode::Alias(a) => YamlNode::Alias(*a),
        YamlNode::Null => YamlNode::Null,
        YamlNode::BadValue => YamlNode::BadValue,
    }
}

#[test]
fn parse_arg_examples() {
    assert_eq!(pa("", ""), Ok(map(&[])));
    assert_eq!(pa("{}", ""), Ok(map(&[])));
    assert_eq!(pa("{k: '[v]'}", ""), Ok(map(&[])));
    assert_eq!(pa("{k: '[v]'}", "k: x"), Ok(map(&[(s("k"), s("x"))])));
    assert_eq!(pa("{k: '[v]'}", "k: 1"), Ok(map(&[(s("k"), YamlNode::Integer(1))])));
    assert!(pa("{k: '[v]'}", "k: {}").is_err());
    assert_eq!(pa("{k: v}", "k: x"), Ok(map(&[(s("k"), s("x"))])));
    assert!(pa("{k: v}", "").is_err());
    assert_eq!(pa("{k: [a]}", "k: [b]"), Ok(map(&[(s("k"), seq(&[s("b")]))])));
    assert_eq!(pa("{k: [a]}", ""), Ok(map(&[])));
    assert!(pa("{k: [a]}", "k: x").is_err());
    assert!(pa("{k: '[v]', j: v}", "").is_err());
    assert_eq!(pa("{k: '[v]', j: v}", "j: x"), Ok(map(&[(s("j"), s("x"))])));
    assert_eq!(pa("{k: {j: '[v]'}}", ""), Ok(map(&[])));
    assert!(pa("{k: {j: v}}", "").is_err());
    assert_eq!(pa("{k: {j: v}}", "k: {j: x}"), Ok(map(&[(s("k"), map(&[(s("j"), s("x"))]))])));
    assert_eq!(pa("{k: ...}", "k: x"), Ok(map(&[(s("k"), s("x"))])));
    assert_eq!(pa("{k: '[...]'}", "k: x"), Ok(map(&[(s("k"), s("x"))])));
    assert_eq!(pa("{k: '[...]'}", "k: 1"), Ok(map(&[(s("k"), YamlNode::Integer(1))])));
    assert_eq!(pa("{k: '[...]'}", "k: {}"), Ok(map(&[(s("k"), map(&[]))])));
    assert_eq!(pa("{k: '[...]'}", "k: []"), Ok(map(&[(s("k"), seq(&[]))])));
    assert_eq!(pa("{k: '[...]'}", ""), Ok(map(&[])));
    assert!(pa("{k: ...}", "").is_err());
    assert_eq!(pa("{k: ...}", "k: [b]"), Ok(map(&[(s("k"), seq(&[s("b")]))])));
    assert_eq!(pa("{k: ...}", "k: {j: x}"), Ok(map(&[(s("k"), map(&[(s("j"), s("x"))]))])));
    assert!(pa("{k: {j: ...}}", "").is_err());
    assert_eq!(pa("{k: {j: ...}}", "k: {j: 123}"), Ok(map(&[(s("k"), map(&[(s("j"), YamlNode::Integer(123))]))])));
}
