//! A model of YAML nodes, and the checking of YAML values against expected shapes, which is how
//! bot commands' arguments are validated.

use vstd::prelude::*;
use super::text::chars_of;
use super::text::push_str_chars;
use super::text::str_eq;
use super::text::string_from_chars;

verus! {

/// A YAML node, as `yaml_rust` loads it. A mapping keeps its entries in insertion order, with
/// no key occurring twice.
#[derive(Debug, PartialEq)]
pub enum YamlNode {
    /// A floating-point number, kept as its text.
    Real(String),
    /// An integer.
    Integer(i64),
    /// A string.
    String(String),
    /// A Boolean.
    Boolean(bool),
    /// A sequence.
    Array(Vec<YamlNode>),
    /// A mapping, as its entries in order.
    Hash(Vec<(YamlNode, YamlNode)>),
    /// An alias (not supported by `yaml_rust`).
    Alias(usize),
    /// The null value.
    Null,
    /// A value that could not be accessed.
    BadValue,
}

/// The kind of a YAML node, for error messages.
#[derive(Copy, Clone, Debug, PartialEq, Eq, Structural)]
pub enum Kind {
    /// A scalar: a string, number, Boolean or null.
    Scalar,
    /// A sequence.
    Sequence,
    /// A mapping.
    Mapping,
    /// Something else (an alias or a bad value).
    Nonexhaustive,
}

/// The kind of a node.
pub open spec fn kind_of(node: YamlNode) -> Kind {
    match node {
        YamlNode::Real(_) | YamlNode::Integer(_) | YamlNode::String(_) | YamlNode::Boolean(_) | YamlNode::Null => Kind::Scalar,
        YamlNode::Array(_) => Kind::Sequence,
        YamlNode::Hash(_) => Kind::Mapping,
        YamlNode::Alias(_) | YamlNode::BadValue => Kind::Nonexhaustive,
    }
}

impl Kind {
    /// Returns the kind of `node`.
    pub fn of(node: &YamlNode) -> (r: Kind)
        ensures
            r == kind_of(*node),
    {
        match node {
            YamlNode::Real(_) | YamlNode::Integer(_) | YamlNode::String(_) | YamlNode::Boolean(_) | YamlNode::Null => Kind::Scalar,
            YamlNode::Array(_) => Kind::Sequence,
            YamlNode::Hash(_) => Kind::Mapping,
            YamlNode::Alias(_) | YamlNode::BadValue => Kind::Nonexhaustive,
        }
    }
}

/// A YAML node as a mathematical value: the view of a [`YamlNode`].
pub ghost enum YamlView {
    Real(Seq<char>),
    Integer(i64),
    String(Seq<char>),
    Boolean(bool),
    Array(Seq<YamlView>),
    Hash(Seq<(YamlView, YamlView)>),
    Alias(usize),
    Null,
    BadValue,
}

/// The view of a node.
pub open spec fn yaml_view(y: YamlNode) -> YamlView
    decreases y,
{
    match y {
        YamlNode::Real(s) => YamlView::Real(s@),
        YamlNode::Integer(i) => YamlView::Integer(i),
        YamlNode::String(s) => YamlView::String(s@),
        YamlNode::Boolean(b) => YamlView::Boolean(b),
        YamlNode::Array(v) => YamlView::Array(
            Seq::new(
                v@.len(),
                |i: int|
                    {
                        if 0 <= i < v@.len() {
                            yaml_view(v@[i])
                        } else {
                            YamlView::Null
                        }
                    },
            ),
        ),
        YamlNode::Hash(v) => YamlView::Hash(
            Seq::new(
                v@.len(),
                |i: int|
                    {
                        if 0 <= i < v@.len() {
                            (yaml_view(v@[i].0), yaml_view(v@[i].1))
                        } else {
                            (YamlView::Null, YamlView::Null)
                        }
                    },
            ),
        ),
        YamlNode::Alias(n) => YamlView::Alias(n),
        YamlNode::Null => YamlView::Null,
        YamlNode::BadValue => YamlView::BadValue,
    }
}

impl View for YamlNode {
    type V = YamlView;

    open spec fn view(&self) -> YamlView {
        yaml_view(*self)
    }
}

/// Whether two nodes are equal, compared structurally.
pub fn yaml_eq(a: &YamlNode, b: &YamlNode) -> (r: bool)
    ensures
        r == (a@ == b@),
    decreases a,
{
    match (a, b) {
        (YamlNode::Real(x), YamlNode::Real(y)) => str_eq(x.as_str(), y.as_str()),
        (YamlNode::Integer(x), YamlNode::Integer(y)) => *x == *y,
        (YamlNode::String(x), YamlNode::String(y)) => str_eq(x.as_str(), y.as_str()),
        (YamlNode::Boolean(x), YamlNode::Boolean(y)) => *x == *y,
        (YamlNode::Array(x), YamlNode::Array(y)) => {
            let ghost va = a@->Array_0;
            let ghost vb = b@->Array_0;
            if x.len() != y.len() {
                assert(va.len() != vb.len());
                return false;
            }
            let mut i: usize = 0;
            while i < x.len()
                invariant
                    *a == YamlNode::Array(*x),
                    *b == YamlNode::Array(*y),
                    va == a@->Array_0,
                    vb == b@->Array_0,
                    x@.len() == y@.len(),
                    i <= x@.len(),
                    forall|j: int| 0 <= j < i ==> va[j] == vb[j],
                decreases x@.len() - i,
            {
                assert(decreases_to!(*a => *x));
                assert(decreases_to!(*x => x@));
                assert(decreases_to!(x@ => x@[i as int]));
                if !yaml_eq(&x[i], &y[i]) {
                    assert(va[i as int] != vb[i as int]);
                    return false;
                }
                i += 1;
            }
            assert(va =~= vb);
            true
        },
        (YamlNode::Hash(x), YamlNode::Hash(y)) => {
            let ghost va = a@->Hash_0;
            let ghost vb = b@->Hash_0;
            if x.len() != y.len() {
                assert(va.len() != vb.len());
                return false;
            }
            let mut i: usize = 0;
            while i < x.len()
                invariant
                    *a == YamlNode::Hash(*x),
                    *b == YamlNode::Hash(*y),
                    va == a@->Hash_0,
                    vb == b@->Hash_0,
                    x@.len() == y@.len(),
                    i <= x@.len(),
                    forall|j: int| 0 <= j < i ==> va[j] == vb[j],
                decreases x@.len() - i,
            {
                assert(decreases_to!(*a => *x));
                assert(decreases_to!(*x => x@));
                assert(decreases_to!(x@ => x@[i as int]));
                assert(decreases_to!(x@[i as int] => x@[i as int].0));
                assert(decreases_to!(x@[i as int] => x@[i as int].1));
                if !yaml_eq(&x[i].0, &y[i].0) {
                    assert(va[i as int].0 != vb[i as int].0);
                    return false;
                }
                if !yaml_eq(&x[i].1, &y[i].1) {
                    assert(va[i as int].1 != vb[i as int].1);
                    return false;
                }
                i += 1;
            }
            assert(va =~= vb);
            true
        },
        (YamlNode::Alias(x), YamlNode::Alias(y)) => *x == *y,
        (YamlNode::Null, YamlNode::Null) => true,
        (YamlNode::BadValue, YamlNode::BadValue) => true,
        _ => false,
    }
}

/// The views of the entries of a mapping.
pub open spec fn entries_view(v: Seq<(YamlNode, YamlNode)>) -> Seq<(YamlView, YamlView)> {
    Seq::new(v.len(), |i: int| (yaml_view(v[i].0), yaml_view(v[i].1)))
}

/// The views of the elements of a sequence.
pub open spec fn elements_view(v: Seq<YamlNode>) -> Seq<YamlView> {
    Seq::new(v.len(), |i: int| yaml_view(v[i]))
}

pub proof fn lemma_view_unfold(y: YamlNode)
    ensures
        y matches YamlNode::Array(v) ==> y@ == YamlView::Array(elements_view(v@)),
        y matches YamlNode::Hash(v) ==> y@ == YamlView::Hash(entries_view(v@)),
{
    match y {
        YamlNode::Array(v) => {
            assert(y@->Array_0 =~= elements_view(v@));
        },
        YamlNode::Hash(v) => {
            assert(y@->Hash_0 =~= entries_view(v@));
        },
        _ => {},
    }
}

/// Returns a deep copy of `y`.
pub fn yaml_clone(y: &YamlNode) -> (r: YamlNode)
    ensures
        r@ == y@,
    decreases y,
{
    proof {
        lemma_view_unfold(*y);
    }
    match y {
        YamlNode::Real(s) => YamlNode::Real(s.clone()),
        YamlNode::Integer(i) => YamlNode::Integer(*i),
        YamlNode::String(s) => YamlNode::String(s.clone()),
        YamlNode::Boolean(b) => YamlNode::Boolean(*b),
        YamlNode::Array(v) => {
            assert(decreases_to!(*y => *v));
            let mut out: Vec<YamlNode> = Vec::new();
            let mut i: usize = 0;
            while i < v.len()
                invariant
                    *y == YamlNode::Array(*v),
                    decreases_to!(*y => *v),
                    i <= v@.len(),
                    out@.len() == i,
                    forall|j: int| 0 <= j < i ==> out@[j]@ == v@[j]@,
                decreases v@.len() - i,
            {
                assert(decreases_to!(*v => v@));
                assert(decreases_to!(v@ => v@[i as int]));
                out.push(yaml_clone(&v[i]));
                i += 1;
            }
            let r = YamlNode::Array(out);
            proof {
                lemma_view_unfold(r);
                assert(elements_view(out@) =~= elements_view(v@));
            }
            r
        },
        YamlNode::Hash(v) => {
            assert(decreases_to!(*y => *v));
            let mut out: Vec<(YamlNode, YamlNode)> = Vec::new();
            let mut i: usize = 0;
            while i < v.len()
                invariant
                    *y == YamlNode::Hash(*v),
                    decreases_to!(*y => *v),
                    i <= v@.len(),
                    out@.len() == i,
                    forall|j: int| 0 <= j < i ==> out@[j].0@ == v@[j].0@ && out@[j].1@ == v@[j].1@,
                decreases v@.len() - i,
            {
                assert(decreases_to!(*v => v@));
                assert(decreases_to!(v@ => v@[i as int]));
                assert(decreases_to!(v@[i as int] => v@[i as int].0));
                assert(decreases_to!(v@[i as int] => v@[i as int].1));
                let k = yaml_clone(&v[i].0);
                let val = yaml_clone(&v[i].1);
                out.push((k, val));
                i += 1;
            }
            let r = YamlNode::Hash(out);
            proof {
                lemma_view_unfold(r);
                assert(entries_view(out@) =~= entries_view(v@));
            }
            r
        },
        YamlNode::Alias(n) => YamlNode::Alias(*n),
        YamlNode::Null => YamlNode::Null,
        YamlNode::BadValue => YamlNode::BadValue,
    }
}

/// The index of the first entry of `entries`, at or after `from`, whose key is `key`.
pub open spec fn key_index(entries: Seq<(YamlView, YamlView)>, key: YamlView, from: int) -> Option<int>
    decreases entries.len() - from,
{
    if from < 0 || from >= entries.len() {
        None
    } else if entries[from].0 == key {
        Some(from)
    } else {
        key_index(entries, key, from + 1)
    }
}

/// The value that a mapping with the given entries holds under `key`, as `get` finds it.
pub open spec fn lookup(entries: Seq<(YamlView, YamlView)>, key: YamlView) -> Option<YamlView> {
    match key_index(entries, key, 0) {
        Some(i) => Some(entries[i].1),
        None => None,
    }
}

proof fn lemma_key_index_bounds(entries: Seq<(YamlView, YamlView)>, key: YamlView, from: int)
    ensures
        key_index(entries, key, from) matches Some(i) ==> from <= i < entries.len() && entries[i].0
            == key,
    decreases entries.len() - from,
{
    if 0 <= from < entries.len() && entries[from].0 != key {
        lemma_key_index_bounds(entries, key, from + 1);
    }
}

/// Finds the index of the entry with the given key, if any.
fn find_key(entries: &Vec<(YamlNode, YamlNode)>, key: &YamlNode) -> (r: Option<usize>)
    ensures
        r matches Some(i) ==> key_index(entries_view(entries@), key@, 0) == Some(i as int),
        r is None ==> key_index(entries_view(entries@), key@, 0) is None,
{
    let ghost ev = entries_view(entries@);
    let mut i: usize = 0;
    while i < entries.len()
        invariant
            ev == entries_view(entries@),
            i <= entries@.len(),
            key_index(ev, key@, 0) == key_index(ev, key@, i as int),
        decreases entries@.len() - i,
    {
        if yaml_eq(&entries[i].0, key) {
            return Some(i);
        }
        i += 1;
    }
    None
}

/// The entries of a mapping after inserting `value` under `key` as `LinkedHashMap::insert`
/// does: any entry with that key is removed, and the new entry goes last.
pub open spec fn hash_insert(entries: Seq<(YamlView, YamlView)>, key: YamlView, value: YamlView) -> Seq<
    (YamlView, YamlView),
> {
    without_key(entries, key).push((key, value))
}

/// The entries whose key is not `key`, in order.
pub open spec fn without_key(entries: Seq<(YamlView, YamlView)>, key: YamlView) -> Seq<
    (YamlView, YamlView),
>
    decreases entries.len(),
{
    if entries.len() == 0 {
        seq![]
    } else if entries.last().0 == key {
        without_key(entries.drop_last(), key)
    } else {
        without_key(entries.drop_last(), key).push(entries.last())
    }
}

/// The entries of the mapping built by inserting the given pairs in order.
pub open spec fn hash_from_pairs(pairs: Seq<(YamlView, YamlView)>) -> Seq<(YamlView, YamlView)>
    decreases pairs.len(),
{
    if pairs.len() == 0 {
        seq![]
    } else {
        hash_insert(hash_from_pairs(pairs.drop_last()), pairs.last().0, pairs.last().1)
    }
}

/// Inserts `(key, value)` into the entries `acc` as a `LinkedHashMap` would.
fn insert_entry(acc: Vec<(YamlNode, YamlNode)>, key: YamlNode, value: YamlNode) -> (r: Vec<(YamlNode, YamlNode)>)
    ensures
        entries_view(r@) == hash_insert(entries_view(acc@), key@, value@),
{
    let ghost kv = key@;
    let mut out: Vec<(YamlNode, YamlNode)> = Vec::new();
    let mut i: usize = 0;
    while i < acc.len()
        invariant
            i <= acc@.len(),
            kv == key@,
            entries_view(out@) == without_key(entries_view(acc@).take(i as int), kv),
        decreases acc@.len() - i,
    {
        assert(entries_view(acc@).take(i + 1).drop_last() =~= entries_view(acc@).take(i as int));
        if !yaml_eq(&acc[i].0, &key) {
            let k = yaml_clone(&acc[i].0);
            let v = yaml_clone(&acc[i].1);
            let ghost before = out@;
            out.push((k, v));
            assert(entries_view(out@) =~= entries_view(before).push(entries_view(acc@)[i as int]));
        }
        i += 1;
    }
    assert(entries_view(acc@).take(acc@.len() as int) =~= entries_view(acc@));
    let ghost before = out@;
    out.push((key, value));
    assert(entries_view(out@) =~= entries_view(before).push((kv, value@)));
    out
}

#[verifier::external_type_specification]
#[verifier::external_body]
pub struct ExScanError(yaml_rust::ScanError);

#[verifier::external_type_specification]
#[verifier::external_body]
pub struct ExEmitError(yaml_rust::EmitError);

#[verifier::external_type_specification]
#[verifier::external_body]
pub struct ExOutsideYaml(yaml_rust::Yaml);

/// Errors in handling YAML.
#[derive(Debug)]
pub enum YamlError {
    /// Rendering a node as text failed.
    YamlEmit(yaml_rust::EmitError),
    /// The text is not valid YAML.
    YamlScan(yaml_rust::ScanError),
    /// A single node was wanted, but the stream held the given number of nodes.
    NoSingleNode(usize),
    /// A mapping lacks the named required field.
    RequiredFieldMissing(String),
    /// A YAML alias was encountered.
    AliasesNotSupported,
    /// The node at the given path has the second kind where the first was expected.
    TypeMismatch(String, Kind, Kind),
    /// A non-empty stream was expected.
    ExpectedNonEmptyStream,
    /// An empty stream was expected.
    ExpectedEmptyStream,
    /// An argument was given by both its full key and its abbreviated key.
    ArgGivenByBothLongAndShortKey(String, String),
}

/// The `Debug` rendering of a kind.
pub open spec fn kind_debug(k: Kind) -> Seq<char> {
    match k {
        Kind::Scalar => "Scalar"@,
        Kind::Sequence => "Sequence"@,
        Kind::Mapping => "Mapping"@,
        Kind::Nonexhaustive => "__Nonexhaustive"@,
    }
}

fn kind_debug_exec(k: Kind) -> (r: &'static str)
    ensures
        r@ == kind_debug(k),
{
    match k {
        Kind::Scalar => "Scalar",
        Kind::Sequence => "Sequence",
        Kind::Mapping => "Mapping",
        Kind::Nonexhaustive => "__Nonexhaustive",
    }
}

/// The message of a `yaml_rust` emitting error, as its `Display` writes it. The contract says
/// nothing of the text.
#[verifier::external_body]
fn emit_error_text(e: &yaml_rust::EmitError) -> String {
    format!("{}", e)
}

/// The message of a `yaml_rust` scanning error, as its `Display` writes it (the problem and
/// where it was met). The contract says nothing of the text.
#[verifier::external_body]
fn scan_error_text(e: &yaml_rust::ScanError) -> String {
    format!("{}", e)
}

/// The message of a YAML problem, where it is this library's own.
pub open spec fn problem_message(p: Problem) -> Option<Seq<char>> {
    match p {
        Problem::Emit | Problem::Scan => None,
        Problem::NoSingleNode(n) => Some("While parsing YAML: Wanted a single node, but found "@ + crate::util::text::decimal(n) + " nodes."@),
        Problem::RequiredFieldMissing(f) => Some("While handling YAML: An object is missing the required field "@ + crate::util::text::debug_quoted(f) + "."@),
        Problem::AliasesNotSupported => Some("While handling YAML: Encountered a YAML alias, which is not supported by `yaml_rust`."@),
        Problem::TypeMismatch(path, e, a) => Some("While handling YAML: Expected "@ + path + " to be of type "@ + kind_debug(e) + ", but it is of type "@ + kind_debug(a) + "."@),
        Problem::ExpectedNonEmptyStream => Some("While handling YAML: Expected a non-empty stream, but found an empty stream."@),
        Problem::ExpectedEmptyStream => Some("While handling YAML: Expected an empty stream, but found a non-empty stream."@),
        Problem::ArgGivenByBothLongAndShortKey(l, s) => Some("While handling YAML: An argument was given by both its full key "@ + crate::util::text::debug_quoted(l)
            + " and its abbreviated key "@ + crate::util::text::debug_quoted(s) + "; please use one or the other but not both."@),
    }
}

impl YamlError {
    /// The error's message, as its `Display` writes it.
    pub fn message(&self) -> (r: String)
        ensures
            problem_message(problem_of(*self)) matches Some(m) ==> r@ == m,
    {
        let mut acc: Vec<char> = Vec::new();
        match self {
            YamlError::YamlEmit(e) => {
                return emit_error_text(e);
            },
            YamlError::YamlScan(e) => {
                return scan_error_text(e);
            },
            YamlError::NoSingleNode(n) => {
                crate::util::text::push_str_chars(&mut acc, "While parsing YAML: Wanted a single node, but found ");
                crate::util::text::push_decimal(*n, &mut acc);
                crate::util::text::push_str_chars(&mut acc, " nodes.");
            },
            YamlError::RequiredFieldMissing(f) => {
                crate::util::text::push_str_chars(&mut acc, "While handling YAML: An object is missing the required field ");
                crate::util::text::push_str_chars(&mut acc, crate::util::text::debug_str(f.as_str()).as_str());
                crate::util::text::push_str_chars(&mut acc, ".");
            },
            YamlError::AliasesNotSupported => {
                crate::util::text::push_str_chars(&mut acc, "While handling YAML: Encountered a YAML alias, which is not supported by `yaml_rust`.");
            },
            YamlError::TypeMismatch(path, e, a) => {
                crate::util::text::push_str_chars(&mut acc, "While handling YAML: Expected ");
                crate::util::text::push_str_chars(&mut acc, path.as_str());
                crate::util::text::push_str_chars(&mut acc, " to be of type ");
                crate::util::text::push_str_chars(&mut acc, kind_debug_exec(*e));
                crate::util::text::push_str_chars(&mut acc, ", but it is of type ");
                crate::util::text::push_str_chars(&mut acc, kind_debug_exec(*a));
                crate::util::text::push_str_chars(&mut acc, ".");
            },
            YamlError::ExpectedNonEmptyStream => {
                crate::util::text::push_str_chars(&mut acc, "While handling YAML: Expected a non-empty stream, but found an empty stream.");
            },
            YamlError::ExpectedEmptyStream => {
                crate::util::text::push_str_chars(&mut acc, "While handling YAML: Expected an empty stream, but found a non-empty stream.");
            },
            YamlError::ArgGivenByBothLongAndShortKey(l, s) => {
                crate::util::text::push_str_chars(&mut acc, "While handling YAML: An argument was given by both its full key ");
                crate::util::text::push_str_chars(&mut acc, crate::util::text::debug_str(l.as_str()).as_str());
                crate::util::text::push_str_chars(&mut acc, " and its abbreviated key ");
                crate::util::text::push_str_chars(&mut acc, crate::util::text::debug_str(s.as_str()).as_str());
                crate::util::text::push_str_chars(&mut acc, "; please use one or the other but not both.");
            },
        }
        assert(problem_message(problem_of(*self)) matches Some(m) ==> acc@ =~= m);
        crate::util::text::string_from_chars(acc.as_slice())
    }
}

/// What went wrong, as a mathematical value.
pub ghost enum Problem {
    Emit,
    Scan,
    NoSingleNode(nat),
    RequiredFieldMissing(Seq<char>),
    AliasesNotSupported,
    TypeMismatch(Seq<char>, Kind, Kind),
    ExpectedNonEmptyStream,
    ExpectedEmptyStream,
    ArgGivenByBothLongAndShortKey(Seq<char>, Seq<char>),
}

/// The problem that an error reports.
pub open spec fn problem_of(e: YamlError) -> Problem {
    match e {
        YamlError::YamlEmit(_) => Problem::Emit,
        YamlError::YamlScan(_) => Problem::Scan,
        YamlError::NoSingleNode(n) => Problem::NoSingleNode(n as nat),
        YamlError::RequiredFieldMissing(s) => Problem::RequiredFieldMissing(s@),
        YamlError::AliasesNotSupported => Problem::AliasesNotSupported,
        YamlError::TypeMismatch(p, k1, k2) => Problem::TypeMismatch(p@, k1, k2),
        YamlError::ExpectedNonEmptyStream => Problem::ExpectedNonEmptyStream,
        YamlError::ExpectedEmptyStream => Problem::ExpectedEmptyStream,
        YamlError::ArgGivenByBothLongAndShortKey(a, b) => Problem::ArgGivenByBothLongAndShortKey(
            a@,
            b@,
        ),
    }
}

/// A name for what `yaml_rust::YamlLoader::load_from_str` loads from a text: its documents in
/// order, or `None` where the text is not valid YAML.
pub uninterp spec fn yaml_loaded(src: Seq<char>) -> Option<Seq<YamlView>>;

/// A name for the text that `yaml_rust::YamlEmitter::dump`, in compact mode, writes for a
/// node, or `None` where it fails.
pub uninterp spec fn yaml_emitted(node: YamlView) -> Option<Seq<char>>;

/// Converts a node loaded by `yaml_rust` into this library's model, variant by variant.
#[verifier::external_body]
fn from_outside(y: &yaml_rust::Yaml) -> YamlNode {
    match y {
        yaml_rust::Yaml::Real(s) => YamlNode::Real(s.clone()),
        yaml_rust::Yaml::Integer(i) => YamlNode::Integer(*i),
        yaml_rust::Yaml::String(s) => YamlNode::String(s.clone()),
        yaml_rust::Yaml::Boolean(b) => YamlNode::Boolean(*b),
        yaml_rust::Yaml::Array(v) => YamlNode::Array(v.iter().map(from_outside).collect()),
        yaml_rust::Yaml::Hash(h) => YamlNode::Hash(
            h.iter().map(|(k, v)| (from_outside(k), from_outside(v))).collect(),
        ),
        yaml_rust::Yaml::Alias(n) => YamlNode::Alias(*n),
        yaml_rust::Yaml::Null => YamlNode::Null,
        yaml_rust::Yaml::BadValue => YamlNode::BadValue,
    }
}

/// Converts a node of this library's model into `yaml_rust`'s, variant by variant.
#[verifier::external_body]
fn to_outside(y: &YamlNode) -> yaml_rust::Yaml {
    match y {
        YamlNode::Real(s) => yaml_rust::Yaml::Real(s.clone()),
        YamlNode::Integer(i) => yaml_rust::Yaml::Integer(*i),
        YamlNode::String(s) => yaml_rust::Yaml::String(s.clone()),
        YamlNode::Boolean(b) => yaml_rust::Yaml::Boolean(*b),
        YamlNode::Array(v) => yaml_rust::Yaml::Array(v.iter().map(to_outside).collect()),
        YamlNode::Hash(h) => yaml_rust::Yaml::Hash(
            h.iter().map(|(k, v)| (to_outside(k), to_outside(v))).collect(),
        ),
        YamlNode::Alias(n) => yaml_rust::Yaml::Alias(*n),
        YamlNode::Null => yaml_rust::Yaml::Null,
        YamlNode::BadValue => yaml_rust::Yaml::BadValue,
    }
}

/// Loads the YAML documents in `src` by calling `yaml_rust::YamlLoader::load_from_str`.
/// The contract claims only that the result is [`yaml_loaded`] of the text: what a YAML parser
/// loads is not stated here.
#[verifier::external_body]
fn load_documents(src: &str) -> (r: Result<Vec<YamlNode>, yaml_rust::ScanError>)
    ensures
        r is Ok <==> yaml_loaded(src@) is Some,
        r matches Ok(docs) ==> elements_view(docs@) == yaml_loaded(src@)->0,
{
    yaml_rust::YamlLoader::load_from_str(src).map(|docs| docs.iter().map(from_outside).collect())
}

/// Renders `node` as text by calling `yaml_rust::YamlEmitter::dump` in compact mode. The
/// contract claims only that the result is [`yaml_emitted`] of the node.
#[verifier::external_body]
fn emit_node(node: &YamlNode) -> (r: Result<String, yaml_rust::EmitError>)
    ensures
        r is Ok <==> yaml_emitted(node@) is Some,
        r matches Ok(s) ==> s@ == yaml_emitted(node@)->0,
{
    let outside = to_outside(node);
    let mut text = String::new();
    let result = {
        let mut emitter = yaml_rust::YamlEmitter::new(&mut text);
        emitter.compact(true);
        emitter.dump(&outside)
    };
    result.map(|()| text)
}

/// The document-start marker that the emitter writes first.
pub open spec fn doc_start() -> Seq<char> {
    seq!['-', '-', '-', '\n']
}

/// `t` with every leading document-start marker removed, as `trim_start_matches` removes them.
pub open spec fn strip_doc_start(t: Seq<char>) -> Seq<char>
    decreases t.len(),
{
    if t.len() >= 4 && t.take(4) == doc_start() {
        strip_doc_start(t.skip(4))
    } else {
        t
    }
}

/// The text of a node: a string's own text, or else the node rendered as YAML without its
/// document-start marker; `None` where rendering fails.
pub open spec fn text_of(node: YamlView) -> Option<Seq<char>> {
    match node {
        YamlView::String(s) => Some(s),
        _ => match yaml_emitted(node) {
            Some(t) => Some(strip_doc_start(t)),
            None => None,
        },
    }
}

fn strip_doc_start_exec(t: &str) -> (r: String)
    ensures
        r@ == strip_doc_start(t@),
{
    let cs = chars_of(t);
    let n = cs.len();
    let mut i: usize = 0;
    proof {
        assert(cs@.skip(0) =~= cs@);
    }
    while n - i >= 4 && cs[i] == '-' && cs[i + 1] == '-' && cs[i + 2] == '-' && cs[i + 3] == '\n'
        invariant
            i <= n,
            n == cs@.len(),
            strip_doc_start(cs@) == strip_doc_start(cs@.skip(i as int)),
        decreases n - i,
    {
        assert(cs@.skip(i as int).take(4) =~= doc_start());
        assert(cs@.skip(i as int).skip(4) =~= cs@.skip(i + 4));
        i += 4;
    }
    let mut out: Vec<char> = Vec::new();
    let mut j = i;
    while j < n
        invariant
            i <= j <= n,
            n == cs@.len(),
            out@ == cs@.subrange(i as int, j as int),
        decreases n - j,
    {
        out.push(cs[j]);
        j += 1;
        assert(out@ =~= cs@.subrange(i as int, j as int));
    }
    proof {
        let rest = cs@.skip(i as int);
        assert(out@ =~= rest);
        if rest.len() >= 4 {
            if rest.take(4) == doc_start() {
                assert(rest[0] == '-' && rest[1] == '-' && rest[2] == '-' && rest[3] == '\n');
            }
        }
    }
    string_from_chars(out.as_slice())
}

/// Converts any type of YAML node to a string: a string node's own text, or else the node
/// rendered as compact YAML (without its document-start marker). Fails only if rendering fails.
pub fn any_to_str(node: &YamlNode) -> (r: Result<String, YamlError>)
    ensures
        r matches Ok(s) ==> text_of(node@) == Some(s@),
        r matches Err(e) ==> text_of(node@) is None && problem_of(e) == Problem::Emit,
        text_of(node@) is Some ==> r is Ok,
{
    match node {
        YamlNode::String(s) => Ok(s.clone()),
        _ => match emit_node(node) {
            Ok(text) => Ok(strip_doc_start_exec(text.as_str())),
            Err(e) => Err(YamlError::YamlEmit(e)),
        },
    }
}

/// What converting a node to text as a scalar gives: the text of a scalar, the problem of a
/// scalar that cannot be rendered, or a type mismatch labelled `label`.
pub open spec fn scalar_text(node: YamlView, label: Seq<char>) -> Result<Seq<char>, Problem> {
    if kind_of_view(node) == Kind::Scalar {
        match text_of(node) {
            Some(t) => Ok(t),
            None => Err(Problem::Emit),
        }
    } else {
        Err(Problem::TypeMismatch(label, Kind::Scalar, kind_of_view(node)))
    }
}

/// A node's kind is that of its view.
pub proof fn lemma_kind_of_view(node: YamlNode)
    ensures
        kind_of(node) == kind_of_view(node@),
{
    lemma_view_unfold(node);
}

/// Converts a scalar YAML node to a string, as [`any_to_str`] does. A sequence, a mapping or
/// anything stranger gives a type-mismatch error labelled `subject_label`.
pub fn scalar_to_str(node: &YamlNode, subject_label: &str) -> (r: Result<String, YamlError>)
    ensures
        match scalar_text(node@, subject_label@) {
            Ok(t) => r matches Ok(s) && s@ == t,
            Err(p) => r matches Err(e) && problem_of(e) == p,
        },
{
    proof {
        lemma_kind_of_view(*node);
    }
    match Kind::of(node) {
        Kind::Scalar => any_to_str(node),
        wrong_kind => Err(YamlError::TypeMismatch(subject_label.to_owned(), Kind::Scalar, wrong_kind)),
    }
}

/// A node of a single string.
pub fn mk_str(s: &str) -> (r: YamlNode)
    ensures
        r == YamlNode::String(r->String_0) && r@ == YamlView::String(s@),
{
    YamlNode::String(s.to_owned())
}

/// A node of the Boolean `true`.
pub fn mk_true() -> (r: YamlNode)
    ensures
        r == YamlNode::Boolean(true),
{
    YamlNode::Boolean(true)
}

/// A node of the Boolean `false`.
pub fn mk_false() -> (r: YamlNode)
    ensures
        r == YamlNode::Boolean(false),
{
    YamlNode::Boolean(false)
}

/// A node of an integer.
pub fn mk_int(n: i64) -> (r: YamlNode)
    ensures
        r == YamlNode::Integer(n),
{
    YamlNode::Integer(n)
}

/// A sequence node of the given elements.
pub fn mk_seq(entries: Vec<YamlNode>) -> (r: YamlNode)
    ensures
        r@ == YamlView::Array(elements_view(entries@)),
{
    let r = YamlNode::Array(entries);
    proof {
        lemma_view_unfold(r);
    }
    r
}

/// A mapping node built by inserting the given pairs in order, as collecting them into a
/// `LinkedHashMap` does: a repeated key keeps its last value, placed last.
pub fn mk_map(entries: Vec<(YamlNode, YamlNode)>) -> (r: YamlNode)
    ensures
        r@ == YamlView::Hash(hash_from_pairs(entries_view(entries@))),
{
    let mut acc: Vec<(YamlNode, YamlNode)> = Vec::new();
    let mut i: usize = 0;
    while i < entries.len()
        invariant
            i <= entries@.len(),
            entries_view(acc@) == hash_from_pairs(entries_view(entries@).take(i as int)),
        decreases entries@.len() - i,
    {
        let k = yaml_clone(&entries[i].0);
        let v = yaml_clone(&entries[i].1);
        acc = insert_entry(acc, k, v);
        assert(entries_view(entries@).take(i + 1).drop_last() =~= entries_view(entries@).take(
            i as int,
        ));
        i += 1;
    }
    assert(entries_view(entries@).take(entries@.len() as int) =~= entries_view(entries@));
    let r = YamlNode::Hash(acc);
    proof {
        lemma_view_unfold(r);
    }
    r
}

/// The kind of a node's view.
pub open spec fn kind_of_view(v: YamlView) -> Kind {
    match v {
        YamlView::Real(_) | YamlView::Integer(_) | YamlView::String(_) | YamlView::Boolean(_)
        | YamlView::Null => Kind::Scalar,
        YamlView::Array(_) => Kind::Sequence,
        YamlView::Hash(_) => Kind::Mapping,
        YamlView::Alias(_) | YamlView::BadValue => Kind::Nonexhaustive,
    }
}

/// The text `...`.
pub open spec fn ellipsis() -> Seq<char> {
    seq!['.', '.', '.']
}

/// The text `[...]`.
pub open spec fn bracketed_ellipsis() -> Seq<char> {
    seq!['[', '.', '.', '.', ']']
}

/// Whether an expected shape accepts anything: it is the string `...` or `[...]`.
pub open spec fn accepts_anything(e: YamlView) -> bool {
    e == YamlView::String(ellipsis()) || e == YamlView::String(bracketed_ellipsis())
}

/// Whether an expected shape marks an optional field: a string in square brackets.
pub open spec fn is_optional_marker(e: YamlView) -> bool {
    match e {
        YamlView::String(s) => s.len() >= 1 && s[0] == '[' && s.last() == ']',
        _ => false,
    }
}

/// The labels of a path joined with full stops.
pub open spec fn join_dots(p: Seq<Seq<char>>) -> Seq<char>
    decreases p.len(),
{
    if p.len() == 0 {
        seq![]
    } else if p.len() == 1 {
        p[0]
    } else {
        join_dots(p.drop_last()) + seq!['.'] + p.last()
    }
}

/// Checks a node against an expected shape, reached along `path` and labelled `label`: the
/// problem found first, or `None` if the node has the expected shape. Kinds must agree (a
/// string, number, Boolean or null is a scalar); a mapping's fields are checked in the order
/// of the expected mapping; a field missing from the node is fine if the expected value is a
/// bracketed string or a sequence, is checked as an empty mapping if it is a mapping, and is
/// otherwise a missing required field.
pub open spec fn check_node(e: YamlView, a: YamlView, path: Seq<Seq<char>>, label: Seq<char>) -> Option<
    Problem,
>
    decreases e, 1int, 0int,
{
    if accepts_anything(e) {
        None
    } else {
        let p = path.push(label);
        match (e, a) {
            (YamlView::Hash(_), YamlView::Hash(af)) => check_fields(e, af, p, 0),
            _ => if kind_of_view(e) == Kind::Nonexhaustive || kind_of_view(a) == Kind::Nonexhaustive {
                Some(Problem::AliasesNotSupported)
            } else if kind_of_view(e) == kind_of_view(a) {
                None
            } else {
                Some(Problem::TypeMismatch(join_dots(p), kind_of_view(e), kind_of_view(a)))
            },
        }
    }
}

/// Checks the fields of the expected mapping `e` from the `i`th on against the entries `af`.
pub open spec fn check_fields(e: YamlView, af: Seq<(YamlView, YamlView)>, p: Seq<Seq<char>>, i: int) -> Option<
    Problem,
>
    decreases e, 0int, e->Hash_0.len() - i,
{
    if !(e is Hash) || i < 0 || i >= e->Hash_0.len() {
        None
    } else {
        let key = e->Hash_0[i].0;
        let ev = e->Hash_0[i].1;
        let here = match lookup(af, key) {
            Some(av) => match text_of(key) {
                Some(l) => check_node(ev, av, p, l),
                None => Some(Problem::Emit),
            },
            None => if is_optional_marker(ev) || ev is Array {
                None
            } else if ev is Hash {
                match text_of(key) {
                    Some(l) => check_node(ev, YamlView::Hash(seq![]), p, l),
                    None => Some(Problem::Emit),
                }
            } else {
                match text_of(key) {
                    Some(l) => Some(Problem::RequiredFieldMissing(l)),
                    None => Some(Problem::Emit),
                }
            },
        };
        if here is Some {
            here
        } else {
            check_fields(e, af, p, i + 1)
        }
    }
}

/// The problem a result reports, if any.
pub open spec fn outcome<T>(r: Result<T, YamlError>) -> Option<Problem> {
    match r {
        Ok(_) => None,
        Err(e) => Some(problem_of(e)),
    }
}

/// The labels of a path buffer.
pub open spec fn labels(v: Seq<String>) -> Seq<Seq<char>> {
    v.map_values(|s: String| s@)
}

fn join_dots_exec(path: &Vec<String>) -> (r: String)
    ensures
        r@ == join_dots(labels(path@)),
{
    let mut acc: Vec<char> = Vec::new();
    let mut i: usize = 0;
    while i < path.len()
        invariant
            i <= path@.len(),
            acc@ == join_dots(labels(path@).take(i as int)),
        decreases path@.len() - i,
    {
        let ghost before = acc@;
        assert(labels(path@).take(i + 1).drop_last() =~= labels(path@).take(i as int));
        if i > 0 {
            acc.push('.');
        }
        push_str_chars(&mut acc, path[i].as_str());
        if i == 0 {
            assert(acc@ =~= join_dots(labels(path@).take(1)));
        } else {
            assert(acc@ =~= before + seq!['.'] + labels(path@)[i as int]);
        }
        i += 1;
    }
    assert(labels(path@).take(path@.len() as int) =~= labels(path@));
    string_from_chars(acc.as_slice())
}

fn accepts_anything_exec(e: &YamlNode) -> (r: bool)
    ensures
        r == accepts_anything(e@),
{
    proof {
        reveal_strlit("...");
        reveal_strlit("[...]");
    }
    match e {
        YamlNode::String(s) => {
            let r = str_eq(s.as_str(), "...") || str_eq(s.as_str(), "[...]");
            assert("..."@ =~= ellipsis());
            assert("[...]"@ =~= bracketed_ellipsis());
            r
        },
        _ => false,
    }
}

fn is_optional_marker_exec(e: &YamlNode) -> (r: bool)
    ensures
        r == is_optional_marker(e@),
{
    match e {
        YamlNode::String(s) => {
            let cs = chars_of(s.as_str());
            cs.len() >= 1 && cs[0] == '[' && cs[cs.len() - 1] == ']'
        },
        _ => false,
    }
}

/// Checks `actual` against the shape `expected`, with `path_buf` holding the labels of the
/// enclosing nodes and `subject_label` labelling this one. On success the path buffer is as it
/// was.
pub(crate) fn check_type_inner(
    expected: &YamlNode,
    actual: &YamlNode,
    path_buf: &mut Vec<String>,
    subject_label: String,
) -> (r: Result<(), YamlError>)
    ensures
        outcome(r) == check_node(expected@, actual@, labels(old(path_buf)@), subject_label@),
        r is Ok ==> labels(final(path_buf)@) == labels(old(path_buf)@),
    decreases expected, 1int,
{
    if accepts_anything_exec(expected) {
        return Ok(());
    }
    let ghost p0 = labels(path_buf@);
    path_buf.push(subject_label);
    assert(labels(path_buf@) =~= p0.push(subject_label@));
    let ek = Kind::of(expected);
    let ak = Kind::of(actual);
    proof {
        lemma_view_unfold(*expected);
        lemma_view_unfold(*actual);
    }
    match (expected, actual) {
        (YamlNode::Hash(_), YamlNode::Hash(af)) => {
            match check_field_types(expected, af, path_buf) {
                Ok(()) => {},
                Err(e) => {
                    return Err(e);
                },
            }
        },
        _ => {
            if ek == Kind::Nonexhaustive || ak == Kind::Nonexhaustive {
                return Err(YamlError::AliasesNotSupported);
            }
            if ek != ak {
                let joined = join_dots_exec(path_buf);
                return Err(YamlError::TypeMismatch(joined, ek, ak));
            }
        },
    }
    let ghost before_pop = path_buf@;
    assert(labels(before_pop).len() == p0.len() + 1);
    path_buf.pop();
    assert(path_buf@ =~= before_pop.drop_last());
    assert(labels(path_buf@) =~= labels(before_pop).drop_last());
    assert(labels(path_buf@) =~= p0);
    Ok(())
}

/// Checks the fields of the expected mapping `expected` against `actual_fields`.
fn check_field_types(
    expected: &YamlNode,
    actual_fields: &Vec<(YamlNode, YamlNode)>,
    path_buf: &mut Vec<String>,
) -> (r: Result<(), YamlError>)
    ensures
        outcome(r) == check_fields(
            expected@,
            entries_view(actual_fields@),
            labels(old(path_buf)@),
            0,
        ),
        r is Ok ==> labels(final(path_buf)@) == labels(old(path_buf)@),
    decreases expected, 0int,
{
    proof {
        lemma_view_unfold(*expected);
    }
    let ghost ev = expected@;
    let ghost af = entries_view(actual_fields@);
    let ghost p = labels(path_buf@);
    match expected {
        YamlNode::Hash(ef) => {
            let mut i: usize = 0;
            while i < ef.len()
                invariant
                    *expected == YamlNode::Hash(*ef),
                    ev == expected@,
                    ev == YamlView::Hash(entries_view(ef@)),
                    af == entries_view(actual_fields@),
                    decreases_to!(*expected => *ef),
                    i <= ef@.len(),
                    labels(path_buf@) == p,
                    p == labels(old(path_buf)@),
                    check_fields(ev, af, p, 0) == check_fields(ev, af, p, i as int),
                decreases ef@.len() - i,
            {
                assert(decreases_to!(*ef => ef@));
                assert(decreases_to!(ef@ => ef@[i as int]));
                assert(decreases_to!(ef@[i as int] => ef@[i as int].1));
                let key = &ef[i].0;
                let val = &ef[i].1;
                proof {
                    lemma_view_unfold(*val);
                }
                assert(ev->Hash_0[i as int] == (key@, val@));
                let found = find_key(actual_fields, key);
                proof {
                    lemma_key_index_bounds(af, key@, 0);
                }
                match found {
                    Some(j) => {
                        assert(lookup(af, key@) == Some(actual_fields@[j as int].1@));
                        let label = match any_to_str(key) {
                            Ok(l) => l,
                            Err(e) => {
                                return Err(e);
                            },
                        };
                        match check_type_inner(val, &actual_fields[j].1, path_buf, label) {
                            Ok(()) => {},
                            Err(e) => {
                                return Err(e);
                            },
                        }
                    },
                    None => {
                        let is_seq = match val {
                            YamlNode::Array(_) => true,
                            _ => false,
                        };
                        let is_map = match val {
                            YamlNode::Hash(_) => true,
                            _ => false,
                        };
                        if is_optional_marker_exec(val) || is_seq {
                        } else if is_map {
                            let label = match any_to_str(key) {
                                Ok(l) => l,
                                Err(e) => {
                                    return Err(e);
                                },
                            };
                            let no_entries: Vec<(YamlNode, YamlNode)> = Vec::new();
                            assert(entries_view(no_entries@) =~= seq![]);
                            let empty = YamlNode::Hash(no_entries);
                            proof {
                                lemma_view_unfold(empty);
                            }
                            match check_type_inner(val, &empty, path_buf, label) {
                                Ok(()) => {},
                                Err(e) => {
                                    return Err(e);
                                },
                            }
                        } else {
                            let label = match any_to_str(key) {
                                Ok(l) => l,
                                Err(e) => {
                                    return Err(e);
                                },
                            };
                            return Err(YamlError::RequiredFieldMissing(label));
                        }
                    },
                }
                i += 1;
            }
            Ok(())
        },
        _ => Ok(()),
    }
}

/// Checks that `actual` has the type and structure of `expected`; `subject_label` names
/// `actual` in any error.
pub fn check_type(expected: &YamlNode, actual: &YamlNode, subject_label: &str) -> (r: Result<(), YamlError>)
    ensures
        outcome(r) == check_node(expected@, actual@, seq![], subject_label@),
{
    let mut path_buf: Vec<String> = Vec::new();
    assert(labels(path_buf@) =~= seq![]);
    check_type_inner(expected, actual, &mut path_buf, subject_label.to_owned())
}

/// What parsing a lone node from `src` gives: the node, `None` for an empty stream, or the
/// problem.
pub open spec fn parsed_node(src: Seq<char>) -> Result<Option<YamlView>, Problem> {
    match yaml_loaded(src) {
        None => Err(Problem::Scan),
        Some(docs) => if docs.len() == 0 {
            Ok(None)
        } else if docs.len() == 1 {
            Ok(Some(docs[0]))
        } else {
            Err(Problem::NoSingleNode(docs.len()))
        },
    }
}

/// Parses a lone YAML node: `Ok(Some(node))` for a single node, `Ok(None)` for an empty
/// stream, and an error for a stream of several documents or text that is not YAML.
pub fn parse_node(src: &str) -> (r: Result<Option<YamlNode>, YamlError>)
    ensures
        match parsed_node(src@) {
            Ok(None) => r matches Ok(None),
            Ok(Some(n)) => r matches Ok(Some(m)) && m@ == n,
            Err(p) => r matches Err(e) && problem_of(e) == p,
        },
{
    let mut stream = match load_documents(src) {
        Ok(s) => s,
        Err(e) => {
            return Err(YamlError::YamlScan(e));
        },
    };
    let ghost docs = stream@;
    let n0 = stream.len();
    let node = stream.pop();
    if stream.len() == 0 {
        Ok(node)
    } else {
        Err(YamlError::NoSingleNode(stream.len() + 1))
    }
}

/// Parses a lone node from `src` (taking `default` for an empty stream) and checks it against
/// `expected_syntax` (see [`check_node`]); returns the node if it passes.
pub fn parse_and_check_node(
    src: &str,
    expected_syntax: &YamlNode,
    subject_label: &str,
    default: YamlNode,
) -> (r: Result<YamlNode, YamlError>)
    ensures
        match parsed_node(src@) {
            Err(p) => r matches Err(e) && problem_of(e) == p,
            Ok(opt) => {
                let n = match opt {
                    Some(x) => x,
                    None => default@,
                };
                match check_node(expected_syntax@, n, seq![], subject_label@) {
                    None => r matches Ok(v) && v@ == n,
                    Some(p) => r matches Err(e) && problem_of(e) == p,
                }
            },
        },
{
    let node = match parse_node(src) {
        Ok(Some(n)) => n,
        Ok(None) => default,
        Err(e) => {
            return Err(e);
        },
    };
    match check_type(expected_syntax, &node, subject_label) {
        Ok(()) => Ok(node),
        Err(e) => Err(e),
    }
}

/// The value of `key` among the entries of a mapping, if it has one.
pub fn hash_get<'a>(entries: &'a Vec<(YamlNode, YamlNode)>, key: &YamlNode) -> (r: Option<&'a YamlNode>)
    ensures
        match lookup(entries_view(entries@), key@) {
            Some(v) => r matches Some(x) && x@ == v,
            None => r is None,
        },
{
    proof {
        lemma_key_index_bounds(entries_view(entries@), key@, 0);
    }
    match find_key(entries, key) {
        Some(i) => Some(&entries[i].1),
        None => None,
    }
}

/// What getting an argument by a short or a long key gives (see
/// [`get_arg_by_short_or_long_key`]).
pub open spec fn arg_by_short_or_long(
    entries: Seq<(YamlView, YamlView)>,
    short_key: YamlView,
    long_key: YamlView,
) -> Result<Option<YamlView>, Problem> {
    match (lookup(entries, short_key), lookup(entries, long_key)) {
        (Some(v), None) => Ok(Some(v)),
        (None, Some(v)) => Ok(Some(v)),
        (None, None) => Ok(None),
        (Some(_), Some(_)) => match (text_of(long_key), text_of(short_key)) {
            (Some(l), Some(s)) => Err(Problem::ArgGivenByBothLongAndShortKey(l, s)),
            _ => Err(Problem::Emit),
        },
    }
}

/// Gets an argument from the entries of a mapping of arguments by either an abbreviated
/// ("short") form or the full ("long") form of the argument's key. If both forms are found,
/// returns an error naming both keys (rendered long key first); if neither, `Ok(None)`.
pub fn get_arg_by_short_or_long_key(
    args: &Vec<(YamlNode, YamlNode)>,
    short_key: &YamlNode,
    long_key: &YamlNode,
) -> (r: Result<Option<YamlNode>, YamlError>)
    ensures
        ({
            let entries = entries_view(args@);
            match (lookup(entries, short_key@), lookup(entries, long_key@)) {
                (Some(v), None) => r matches Ok(Some(x)) && x@ == v,
                (None, Some(v)) => r matches Ok(Some(x)) && x@ == v,
                (None, None) => r matches Ok(None),
                (Some(_), Some(_)) => match (text_of(long_key@), text_of(short_key@)) {
                    (Some(l), Some(s)) => r matches Err(e) && problem_of(e)
                        == Problem::ArgGivenByBothLongAndShortKey(l, s),
                    _ => r matches Err(e) && problem_of(e) == Problem::Emit,
                },
            }
        }),
{
    let ghost entries = entries_view(args@);
    let s = find_key(args, short_key);
    let l = find_key(args, long_key);
    proof {
        lemma_key_index_bounds(entries, short_key@, 0);
        lemma_key_index_bounds(entries, long_key@, 0);
    }
    match (s, l) {
        (Some(i), None) => Ok(Some(yaml_clone(&args[i].1))),
        (None, Some(i)) => Ok(Some(yaml_clone(&args[i].1))),
        (Some(_), Some(_)) => {
            let long_text = match any_to_str(long_key) {
                Ok(t) => t,
                Err(e) => {
                    return Err(e);
                },
            };
            let short_text = match any_to_str(short_key) {
                Ok(t) => t,
                Err(e) => {
                    return Err(e);
                },
            };
            Err(YamlError::ArgGivenByBothLongAndShortKey(long_text, short_text))
        },
        (None, None) => Ok(None),
    }
}

/// The elements of a node taken as a sequence: a sequence's elements, a lone other node, or
/// nothing for `None`.
pub open spec fn as_seq_view(node: Option<YamlView>) -> Seq<YamlView> {
    match node {
        Some(YamlView::Array(v)) => v,
        Some(single) => seq![single],
        None => seq![],
    }
}

/// Converts any type of YAML node to a sequence: a sequence's elements, a vector of the node
/// alone otherwise, and nothing for `None`.
pub fn any_to_seq(node: Option<&YamlNode>) -> (r: Vec<YamlNode>)
    ensures
        elements_view(r@) == as_seq_view(
            match node {
                Some(n) => Some(n@),
                None => None,
            },
        ),
{
    match node {
        Some(n) => {
            proof {
                lemma_view_unfold(*n);
            }
            match n {
                YamlNode::Array(v) => {
                    let mut out: Vec<YamlNode> = Vec::new();
                    let mut i: usize = 0;
                    while i < v.len()
                        invariant
                            i <= v@.len(),
                            out@.len() == i,
                            elements_view(out@) == elements_view(v@).take(i as int),
                        decreases v@.len() - i,
                    {
                        let c = yaml_clone(&v[i]);
                        let ghost before = out@;
                        out.push(c);
                        assert(elements_view(before) =~= elements_view(v@).take(i as int));
                        assert(elements_view(out@) =~= elements_view(v@).take(i + 1));
                        i += 1;
                    }
                    assert(elements_view(v@).take(v@.len() as int) =~= elements_view(v@));
                    out
                },
                _ => {
                    let out = vec![yaml_clone(n)];
                    assert(elements_view(out@) =~= seq![n@]);
                    out
                },
            }
        },
        None => {
            let out: Vec<YamlNode> = Vec::new();
            assert(elements_view(out@) =~= seq![]);
            out
        },
    }
}

/// Returns the elements of a node taken as a sequence, as [`any_to_seq`] does.
pub fn iter_as_seq(node: Option<&YamlNode>) -> (r: Vec<YamlNode>)
    ensures
        elements_view(r@) == as_seq_view(
            match node {
                Some(n) => Some(n@),
                None => None,
            },
        ),
{
    any_to_seq(node)
}

} // verus!
