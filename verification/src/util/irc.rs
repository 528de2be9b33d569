//! IRC-specific string rules: case-insensitive comparison and channel names.

use std::cmp::Ordering;
use vstd::prelude::*;
use vstd::string::StringSliceAdditionalSpecFns;
use vstd::std_specs::cmp::PartialEqSpecImpl;
use vstd::std_specs::cmp::PartialOrdSpecImpl;
use super::text::chars_of;

verus! {

/// The IRC case-folding of one byte: ASCII upper-case letters become lower-case, and `[`, `]`,
/// `\` and `~` become `{`, `}`, `|` and `^`.
pub open spec fn irc_fold(b: u8) -> u8 {
    if 65 <= b <= 90 {
        (b + 32) as u8
    } else if b == 91 {
        123
    } else if b == 93 {
        125
    } else if b == 92 {
        124
    } else if b == 126 {
        94
    } else {
        b
    }
}

/// The IRC case-folding of a byte string.
pub open spec fn irc_folded(s: Seq<u8>) -> Seq<u8> {
    s.map_values(|b: u8| irc_fold(b))
}

/// Strict lexicographic order on byte strings (a proper prefix comes first).
pub open spec fn lex_lt(a: Seq<u8>, b: Seq<u8>) -> bool
    decreases a.len(),
{
    if a.len() == 0 {
        b.len() > 0
    } else if b.len() == 0 {
        false
    } else if a[0] < b[0] {
        true
    } else if a[0] > b[0] {
        false
    } else {
        lex_lt(a.drop_first(), b.drop_first())
    }
}

/// Whether `x` comes before `y` when both are compared under IRC case-folding.
pub open spec fn casefold_less(x: Seq<u8>, y: Seq<u8>) -> bool {
    lex_lt(irc_folded(x), irc_folded(y))
}

/// Whether `x` and `y` are equal under IRC case-folding.
pub open spec fn casefold_equal(x: Seq<u8>, y: Seq<u8>) -> bool {
    irc_folded(x) == irc_folded(y)
}

/// The ordering of `x` and `y` under IRC case-folding.
pub open spec fn casefold_ordering(x: Seq<u8>, y: Seq<u8>) -> Ordering {
    if casefold_less(x, y) {
        Ordering::Less
    } else if casefold_equal(x, y) {
        Ordering::Equal
    } else {
        Ordering::Greater
    }
}

proof fn lemma_lex_lt_irreflexive(a: Seq<u8>)
    ensures
        !lex_lt(a, a),
    decreases a.len(),
{
    if a.len() > 0 {
        lemma_lex_lt_irreflexive(a.drop_first());
    }
}

proof fn lemma_lex_lt_transitive(a: Seq<u8>, b: Seq<u8>, c: Seq<u8>)
    requires
        lex_lt(a, b),
        lex_lt(b, c),
    ensures
        lex_lt(a, c),
    decreases a.len(),
{
    if a.len() > 0 && b.len() > 0 && c.len() > 0 && a[0] == b[0] && b[0] == c[0] {
        lemma_lex_lt_transitive(a.drop_first(), b.drop_first(), c.drop_first());
    }
}

proof fn lemma_lex_lt_total(a: Seq<u8>, b: Seq<u8>)
    ensures
        lex_lt(a, b) || a == b || lex_lt(b, a),
        !(lex_lt(a, b) && lex_lt(b, a)),
    decreases a.len(),
{
    if a.len() > 0 && b.len() > 0 && a[0] == b[0] {
        lemma_lex_lt_total(a.drop_first(), b.drop_first());
        if a.drop_first() == b.drop_first() {
            assert(a =~= seq![a[0]] + a.drop_first());
            assert(b =~= seq![b[0]] + b.drop_first());
        }
    } else if a.len() == 0 && b.len() == 0 {
        assert(a =~= b);
    }
}

/// Comparison under IRC case-folding is a strict weak order: irreflexive and transitive, with
/// exactly one of "less", "equal" and "greater" holding of any two strings.
pub proof fn lemma_casefold_order(x: Seq<u8>, y: Seq<u8>, z: Seq<u8>)
    ensures
        !casefold_less(x, x),
        casefold_less(x, y) && casefold_less(y, z) ==> casefold_less(x, z),
        casefold_equal(x, y) && casefold_equal(y, z) ==> casefold_equal(x, z),
        casefold_less(x, y) || casefold_equal(x, y) || casefold_less(y, x),
        !(casefold_less(x, y) && casefold_less(y, x)),
        casefold_equal(x, y) ==> !casefold_less(x, y),
        casefold_ordering(x, y) == Ordering::Less <==> casefold_ordering(y, x) == Ordering::Greater,
{
    lemma_lex_lt_irreflexive(irc_folded(x));
    if casefold_less(x, y) && casefold_less(y, z) {
        lemma_lex_lt_transitive(irc_folded(x), irc_folded(y), irc_folded(z));
    }
    lemma_lex_lt_total(irc_folded(x), irc_folded(y));
}

fn irc_fold_exec(b: u8) -> (r: u8)
    ensures
        r == irc_fold(b),
{
    if 65 <= b && b <= 90 {
        b + 32
    } else if b == 91 {
        123
    } else if b == 93 {
        125
    } else if b == 92 {
        124
    } else if b == 126 {
        94
    } else {
        b
    }
}

/// Compares byte strings under IRC case-folding: -1 for less, 0 for equal, 1 for greater.
fn casefold_sign(xb: &[u8], yb: &[u8]) -> (r: i8)
    ensures
        r == -1 <==> casefold_less(xb@, yb@),
        r == 0 <==> casefold_equal(xb@, yb@),
        r == 1 <==> casefold_less(yb@, xb@),
        -1 <= r <= 1,
{
    let ghost fx = irc_folded(xb@);
    let ghost fy = irc_folded(yb@);
    proof {
        lemma_lex_lt_total(fx, fy);
        assert(fx.skip(0) =~= fx);
        assert(fy.skip(0) =~= fy);
    }
    let mut i: usize = 0;
    while i < xb.len() && i < yb.len()
        invariant
            fx == irc_folded(xb@),
            fy == irc_folded(yb@),
            i <= xb@.len(),
            i <= yb@.len(),
            lex_lt(fx, fy) == lex_lt(fx.skip(i as int), fy.skip(i as int)),
            lex_lt(fy, fx) == lex_lt(fy.skip(i as int), fx.skip(i as int)),
            (fx == fy) == (fx.skip(i as int) == fy.skip(i as int)),
        decreases xb@.len() - i,
    {
        let a = irc_fold_exec(xb[i]);
        let b = irc_fold_exec(yb[i]);
        assert(fx.skip(i as int)[0] == a);
        assert(fy.skip(i as int)[0] == b);
        if a < b {
            assert(fx != fy) by {
                assert(fx[i as int] != fy[i as int]);
            }
            return -1;
        }
        if a > b {
            assert(fx != fy) by {
                assert(fx[i as int] != fy[i as int]);
            }
            proof {
                lemma_lex_lt_total(fx, fy);
            }
            return 1;
        }
        proof {
            assert(fx.skip(i as int).drop_first() =~= fx.skip(i + 1));
            assert(fy.skip(i as int).drop_first() =~= fy.skip(i + 1));
            if fx.skip(i + 1) == fy.skip(i + 1) {
                assert forall|k: int| 0 <= k < fx.skip(i as int).len() implies fx.skip(i as int)[k]
                    == fy.skip(i as int)[k] by {
                    if k > 0 {
                        assert(fx.skip(i as int)[k] == fx.skip(i + 1)[k - 1]);
                        assert(fy.skip(i as int)[k] == fy.skip(i + 1)[k - 1]);
                    }
                }
                assert(fx.skip(i as int) =~= fy.skip(i as int));
            }
        }
        i += 1;
    }
    if xb.len() < yb.len() {
        assert(fx.skip(i as int).len() == 0);
        -1
    } else if xb.len() > yb.len() {
        assert(fy.skip(i as int).len() == 0);
        1
    } else {
        assert(fx.skip(i as int) =~= fy.skip(i as int));
        0
    }
}

/// Compares two strings case-insensitively, using the IRC rules for case-folding.
pub fn case_insensitive_str_cmp(x: &str, y: &str) -> (r: Ordering)
    ensures
        r == casefold_ordering(x.spec_bytes(), y.spec_bytes()),
{
    let sign = casefold_sign(x.as_bytes(), y.as_bytes());
    proof {
        lemma_casefold_order(x.spec_bytes(), y.spec_bytes(), y.spec_bytes());
    }
    if sign < 0 {
        Ordering::Less
    } else if sign == 0 {
        Ordering::Equal
    } else {
        Ordering::Greater
    }
}


/// Whether `c` may appear in the body of a channel name: anything but NUL, BEL, CR, LF, space,
/// comma and colon.
pub open spec fn is_chan_body_char(c: char) -> bool {
    c != '\0' && c != '\x07' && c != '\r' && c != '\n' && c != ' ' && c != ',' && c != ':'
}

/// Whether `c` is an ASCII upper-case letter or digit.
pub open spec fn is_upper_or_digit(c: char) -> bool {
    ('A' <= c && c <= 'Z') || ('0' <= c && c <= '9')
}

/// Whether `t` is a valid stretch of channel-name body: at most 49 body characters.
pub open spec fn is_chan_body(t: Seq<char>) -> bool {
    t.len() <= 49 && forall|i: int| 0 <= i < t.len() ==> is_chan_body_char(#[trigger] t[i])
}

/// The length of the channel-name prefix that `s` starts with, if any: one of `#`, `&` and `+`,
/// or `!` followed by five upper-case letters or digits.
pub open spec fn chan_prefix_len(s: Seq<char>) -> Option<int> {
    if s.len() >= 1 && (s[0] == '#' || s[0] == '&' || s[0] == '+') {
        Some(1)
    } else if s.len() >= 6 && s[0] == '!' && forall|i: int|
        1 <= i < 6 ==> is_upper_or_digit(#[trigger] s[i]) {
        Some(6)
    } else {
        None
    }
}

/// Whether `r` is what may follow a channel-name prefix: a body, optionally followed by a colon
/// and a second body.
pub open spec fn is_chan_rest(r: Seq<char>) -> bool {
    is_chan_body(r) || exists|m: int|
        0 <= m < r.len() && r[m] == ':' && is_chan_body(#[trigger] r.take(m)) && is_chan_body(
            r.skip(m + 1),
        )
}

/// Whether the whole of `s` is an IRC channel name as IETF RFC 2812 (section 2.3.1, with erratum
/// 3783) permits under its most permissive reading: a prefix, then up to 49 body characters,
/// optionally then a colon and up to 49 more.
pub open spec fn is_channel_name(s: Seq<char>) -> bool {
    match chan_prefix_len(s) {
        Some(k) => is_chan_rest(s.skip(k)),
        None => false,
    }
}

fn is_chan_body_char_exec(c: char) -> (r: bool)
    ensures
        r == is_chan_body_char(c),
{
    c != '\0' && c != '\x07' && c != '\r' && c != '\n' && c != ' ' && c != ',' && c != ':'
}

/// Checks that `s[start..end]` is a channel-name body.
fn chan_body_exec(s: &Vec<char>, start: usize, end: usize) -> (r: bool)
    requires
        start <= end <= s@.len(),
    ensures
        r == is_chan_body(s@.subrange(start as int, end as int)),
{
    if end - start > 49 {
        return false;
    }
    let mut i = start;
    while i < end
        invariant
            start <= i <= end <= s@.len(),
            forall|j: int| start <= j < i ==> is_chan_body_char(s@[j]),
        decreases end - i,
    {
        if !is_chan_body_char_exec(s[i]) {
            assert(!is_chan_body_char(s@.subrange(start as int, end as int)[i - start]));
            return false;
        }
        i += 1;
    }
    assert forall|j: int| 0 <= j < s@.subrange(start as int, end as int).len() implies is_chan_body_char(
        #[trigger] s@.subrange(start as int, end as int)[j],
    ) by {
        assert(s@.subrange(start as int, end as int)[j] == s@[start + j]);
    }
    true
}

/// Checks the whole of `s` against the channel-name grammar.
fn is_channel_name_exec(s: &Vec<char>) -> (r: bool)
    ensures
        r == is_channel_name(s@),
{
    let n = s.len();
    let k: usize;
    if n >= 1 && (s[0] == '#' || s[0] == '&' || s[0] == '+') {
        k = 1;
    } else if n >= 6 && s[0] == '!' {
        let mut i: usize = 1;
        while i < 6
            invariant
                1 <= i <= 6,
                n == s@.len(),
                n >= 6,
                s@[0] == '!',
                forall|j: int| 1 <= j < i ==> is_upper_or_digit(s@[j]),
            decreases 6 - i,
        {
            let c = s[i];
            if !(('A' <= c && c <= 'Z') || ('0' <= c && c <= '9')) {
                assert(!is_upper_or_digit(s@[i as int]));
                return false;
            }
            i += 1;
        }
        k = 6;
    } else {
        return false;
    }
    assert(chan_prefix_len(s@) == Some(k as int));
    let ghost rest = s@.skip(k as int);
    // Find the first colon after the prefix, if any.
    let mut m = k;
    while m < n && s[m] != ':'
        invariant
            k <= m <= n,
            n == s@.len(),
            forall|j: int| k <= j < m ==> s@[j] != ':',
        decreases n - m,
    {
        m += 1;
    }
    if m == n {
        let ok = chan_body_exec(s, k, n);
        assert(s@.subrange(k as int, n as int) =~= rest);
        if !ok {
            assert forall|mm: int| 0 <= mm < rest.len() && rest[mm] == ':' implies !is_chan_body(
                #[trigger] rest.take(mm),
            ) || !is_chan_body(rest.skip(mm + 1)) by {
                assert(rest[mm] == s@[k + mm]);
            }
        }
        ok
    } else {
        let first = chan_body_exec(s, k, m);
        let second = chan_body_exec(s, m + 1, n);
        let ghost mm = (m - k) as int;
        assert(rest.take(mm) =~= s@.subrange(k as int, m as int));
        assert(rest.skip(mm + 1) =~= s@.subrange(m + 1, n as int));
        assert(rest[mm] == ':');
        assert(!is_chan_body(rest)) by {
            assert(!is_chan_body_char(rest[mm]));
        }
        if !(first && second) {
            assert forall|m2: int| 0 <= m2 < rest.len() && rest[m2] == ':' implies !is_chan_body(
                #[trigger] rest.take(m2),
            ) || !is_chan_body(rest.skip(m2 + 1)) by {
                if m2 > mm {
                    assert(rest.take(m2)[mm] == ':');
                } else if m2 < mm {
                    assert(rest[m2] == s@[k + m2]);
                }
            }
        }
        first && second
    }
}

/// The error returned when a string is not a valid IRC channel name.
#[derive(Clone, Debug, PartialEq, Eq)]
pub enum ChannelNameError {
    /// The given string, which is not a valid channel name.
    InvalidChannelName(String),
}

/// A string that is a valid IRC channel name, compared case-insensitively per IRC's rules.
#[derive(Clone, Debug)]
pub struct ChannelName {
    name: String,
}

impl ChannelName {
    /// The name's text.
    pub closed spec fn text(&self) -> Seq<char> {
        self.name@
    }

    /// The name's UTF-8 bytes.
    pub closed spec fn bytes(&self) -> Seq<u8> {
        vstd::utf8::encode_utf8(self.name@)
    }

    /// Constructs a new `ChannelName` from a string, verifying that the whole string is a
    /// channel name (see [`is_channel_name`]). Otherwise returns an error holding the string.
    pub fn new(name: &str) -> (r: Result<ChannelName, ChannelNameError>)
        ensures
            is_channel_name(name@) ==> (r matches Ok(c) && c.text() == name@),
            !is_channel_name(name@) ==> (r matches Err(ChannelNameError::InvalidChannelName(s))
                && s@ == name@),
    {
        let cs = chars_of(name);
        if is_channel_name_exec(&cs) {
            Ok(ChannelName { name: name.to_owned() })
        } else {
            Err(ChannelNameError::InvalidChannelName(name.to_owned()))
        }
    }

    /// The channel name as a string slice.
    pub fn as_str(&self) -> (r: &str)
        ensures
            r@ == self.text(),
            r.spec_bytes() == self.bytes(),
    {
        self.name.as_str()
    }
}

impl PartialEq for ChannelName {
    fn eq(&self, other: &Self) -> (r: bool) {
        casefold_sign(self.name.as_str().as_bytes(), other.name.as_str().as_bytes()) == 0
    }
}

impl PartialEqSpecImpl for ChannelName {
    open spec fn obeys_eq_spec() -> bool {
        true
    }

    open spec fn eq_spec(&self, other: &Self) -> bool {
        casefold_equal(self.bytes(), other.bytes())
    }
}

impl PartialOrd for ChannelName {
    fn partial_cmp(&self, other: &Self) -> (r: Option<Ordering>) {
        Some(case_insensitive_str_cmp(self.name.as_str(), other.name.as_str()))
    }
}

impl PartialOrdSpecImpl for ChannelName {
    open spec fn obeys_partial_cmp_spec() -> bool {
        true
    }

    open spec fn partial_cmp_spec(&self, other: &Self) -> Option<Ordering> {
        Some(casefold_ordering(self.bytes(), other.bytes()))
    }
}

} // verus!
