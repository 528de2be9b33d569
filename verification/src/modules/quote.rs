//! The quotation module: a database of quotations, queries over it, and the rendering of
//! quotations for IRC.

use vstd::prelude::*;
use crate::framework::bot_cmd::BotCmdResult;
use crate::framework::err::FrameworkError;
use crate::framework::reaction::Reaction;
use crate::framework::bot_cmd::BotCmdAuthLvl;
use crate::framework::modl_sys::{mk_module, Module, ModuleFeature};
use crate::util::regex::{mk_case_insensitive_regex, CompiledRegex, REGEX_SIZE_LIMIT};
use crate::util::{lemma_same_multiset_contains, munge_pieces, random_order, zwsp_munge};
use crate::util::yaml::{
    arg_by_short_or_long, as_seq_view, elements_view, entries_view, get_arg_by_short_or_long_key, hash_get,
    iter_as_seq, lookup, mk_str, problem_of, scalar_text, scalar_to_str, Problem, YamlNode, YamlView,
};
use crate::util::text::{
    join_with, sort_strings, sorted_texts, string_views, byte_len, count_char, lemma_count_char_concat, push_str_chars,
    chars_of, line_ranges, lines_of, range_texts, string_from_chars, string_of_range, trim, trim_bounds,
};

verus! {

/// The position of a quotation file in the database's list of files.
#[derive(Clone, Copy, Debug, PartialEq, Eq, Structural)]
pub struct QuotationFileId(pub usize);

/// The identifier of a quotation: its position in the database's list of quotations.
#[derive(Clone, Copy, Debug, PartialEq, Eq, Structural)]
pub struct QuotationId(pub usize);

/// The manner in which a quotation's text is formatted.
#[derive(Clone, Copy, Debug, PartialEq, Eq, Structural)]
pub enum QuotationFormat {
    /// Lines of an IRC-style chat log, each with leading metadata to be left out.
    Chat,
    /// A plain, indivisible lump of text.
    Plain,
}

/// How the bot avoids pinging people whose nicknames appear in a quotation.
#[derive(Clone, Copy, Debug, PartialEq, Eq, Structural)]
pub enum AntiPingTactic {
    /// Insert zero-width spaces into the nicknames of users present.
    Munge,
    /// Refuse to post the quotation while such a user is present.
    Eschew,
    /// Do nothing.
    Nothing,
}

/// The default quotation format of a quotation file: `Chat`.
pub fn default_quotation_format_for_serde() -> (r: QuotationFormat)
    ensures
        r == QuotationFormat::Chat,
{
    QuotationFormat::Chat
}

/// The default anti-ping tactic of a quotation file: `Munge`.
pub fn default_anti_ping_tactic_for_serde() -> (r: AntiPingTactic)
    ensures
        r == AntiPingTactic::Munge,
{
    AntiPingTactic::Munge
}

impl QuotationFileId {
    /// The position of the file in the database's list of files.
    pub fn array_index(&self) -> (r: usize)
        ensures
            r == self.0,
    {
        self.0
    }
}

impl QuotationId {
    /// The position of the quotation in the database's list of quotations.
    pub fn array_index(&self) -> (r: usize)
        ensures
            r == self.0,
    {
        self.0
    }
}

/// The upper-case hexadecimal digit for `d`, which is below 16.
pub open spec fn hex_digit_char(d: nat) -> char {
    if d < 10 {
        (48 + d) as char
    } else {
        (55 + d) as char
    }
}

/// The upper-case hexadecimal numeral for `n`, without leading zeros, as `{:X}` writes it.
pub open spec fn hex_upper(n: nat) -> Seq<char>
    decreases n,
{
    if n < 16 {
        seq![hex_digit_char(n)]
    } else {
        hex_upper(n / 16).push(hex_digit_char(n % 16))
    }
}

/// Why a quotation identifier failed to parse, as `usize::from_str_radix` reports it.
#[derive(Clone, Copy, Debug, PartialEq, Eq, Structural)]
pub enum ParseIdError {
    /// The text is empty.
    Empty,
    /// The text holds a character that is not a hexadecimal digit where one is needed.
    InvalidDigit,
    /// The number is too large for a `usize`.
    PosOverflow,
}

impl ParseIdError {
    /// The message that `ParseIntError` displays for this kind of error.
    pub fn message(&self) -> (r: &'static str)
        ensures
            r@ == parse_error_message(*self),
    {
        match self {
            ParseIdError::Empty => "cannot parse integer from empty string",
            ParseIdError::InvalidDigit => "invalid digit found in string",
            ParseIdError::PosOverflow => "number too large to fit in target type",
        }
    }
}

/// The message that `ParseIntError` displays for each kind of error.
pub open spec fn parse_error_message(e: ParseIdError) -> Seq<char> {
    match e {
        ParseIdError::Empty => "cannot parse integer from empty string"@,
        ParseIdError::InvalidDigit => "invalid digit found in string"@,
        ParseIdError::PosOverflow => "number too large to fit in target type"@,
    }
}

/// The value of a hexadecimal digit of either case.
pub open spec fn hex_digit_value(c: char) -> Option<nat> {
    if '0' <= c && c <= '9' {
        Some((c as nat - 48) as nat)
    } else if 'a' <= c && c <= 'f' {
        Some((c as nat - 87) as nat)
    } else if 'A' <= c && c <= 'F' {
        Some((c as nat - 55) as nat)
    } else {
        None
    }
}

/// Reads the hexadecimal digits `d` onto the accumulated value `acc`, left to right, failing at
/// the first character that is not a digit, or where the value would exceed `usize::MAX`.
pub open spec fn scan_hex(d: Seq<char>, acc: nat) -> Result<nat, ParseIdError>
    decreases d.len(),
{
    if d.len() == 0 {
        Ok(acc)
    } else {
        match hex_digit_value(d[0]) {
            None => Err(ParseIdError::InvalidDigit),
            Some(v) => if acc * 16 + v > usize::MAX {
                Err(ParseIdError::PosOverflow)
            } else {
                scan_hex(d.drop_first(), acc * 16 + v)
            },
        }
    }
}

/// What `usize::from_str_radix(s, 16)` gives: an optional leading `+`, then one or more
/// hexadecimal digits of either case.
pub open spec fn parse_id_outcome(s: Seq<char>) -> Result<nat, ParseIdError> {
    if s.len() == 0 {
        Err(ParseIdError::Empty)
    } else if s[0] == '+' {
        if s.len() == 1 {
            Err(ParseIdError::InvalidDigit)
        } else {
            scan_hex(s.drop_first(), 0)
        }
    } else {
        scan_hex(s, 0)
    }
}

fn hex_digit(d: usize) -> (r: char)
    requires
        d < 16,
    ensures
        r == hex_digit_char(d as nat),
{
    if d < 10 {
        let b: u8 = 48 + d as u8;
        b as char
    } else {
        let b: u8 = 55 + d as u8;
        b as char
    }
}

fn push_hex(n: usize, acc: &mut Vec<char>)
    ensures
        final(acc)@ == old(acc)@ + hex_upper(n as nat),
    decreases n,
{
    if n >= 16 {
        push_hex(n / 16, acc);
    }
    acc.push(hex_digit(n % 16));
    assert(final(acc)@ =~= old(acc)@ + hex_upper(n as nat));
}

impl QuotationId {
    /// The identifier as it is displayed: upper-case hexadecimal.
    pub fn to_string(&self) -> (r: String)
        ensures
            r@ == hex_upper(self.0 as nat),
    {
        let mut acc: Vec<char> = Vec::new();
        push_hex(self.0, &mut acc);
        assert(acc@ =~= hex_upper(self.0 as nat));
        string_from_chars(acc.as_slice())
    }

    /// Parses an identifier as it is displayed (hexadecimal, of either case, with an optional
    /// leading `+`).
    pub fn parse_str(src: &str) -> (r: Result<QuotationId, ParseIdError>)
        ensures
            match parse_id_outcome(src@) {
                Ok(n) => r == Ok::<QuotationId, ParseIdError>(QuotationId(n as usize)),
                Err(e) => r == Err::<QuotationId, ParseIdError>(e),
            },
    {
        let cs = crate::util::text::chars_of(src);
        if cs.len() == 0 {
            return Err(ParseIdError::Empty);
        }
        let mut i: usize = 0;
        if cs[0] == '+' {
            if cs.len() == 1 {
                return Err(ParseIdError::InvalidDigit);
            }
            i = 1;
        }
        let ghost digits = cs@.skip(i as int);
        assert(i == 0 ==> digits =~= src@);
        assert(i == 1 ==> digits =~= src@.drop_first());
        let mut acc: usize = 0;
        while i < cs.len()
            invariant
                cs@ == src@,
                i <= cs@.len(),
                parse_id_outcome(src@) == scan_hex(cs@.skip(i as int), acc as nat),
            decreases cs@.len() - i,
        {
            let c = cs[i];
            let ghost rest = cs@.skip(i as int);
            assert(rest[0] == c);
            assert(rest.drop_first() =~= cs@.skip(i + 1));
            let v: usize = if '0' <= c && c <= '9' {
                (c as u32 - 48) as usize
            } else if 'a' <= c && c <= 'f' {
                (c as u32 - 87) as usize
            } else if 'A' <= c && c <= 'F' {
                (c as u32 - 55) as usize
            } else {
                return Err(ParseIdError::InvalidDigit);
            };
            assert(hex_digit_value(c) == Some(v as nat));
            match acc.checked_mul(16) {
                None => {
                    return Err(ParseIdError::PosOverflow);
                },
                Some(m) => match m.checked_add(v) {
                    None => {
                        return Err(ParseIdError::PosOverflow);
                    },
                    Some(next) => {
                        acc = next;
                    },
                },
            }
            i += 1;
        }
        assert(cs@.skip(i as int).len() == 0);
        Ok(QuotationId(acc))
    }
}

proof fn lemma_scan_hex_concat(a: Seq<char>, b: Seq<char>, acc: nat)
    ensures
        scan_hex(a + b, acc) == match scan_hex(a, acc) {
            Ok(x) => scan_hex(b, x),
            Err(e) => Err(e),
        },
    decreases a.len(),
{
    if a.len() == 0 {
        assert(a + b =~= b);
    } else {
        assert((a + b)[0] == a[0]);
        assert((a + b).drop_first() =~= a.drop_first() + b);
        match hex_digit_value(a[0]) {
            None => {},
            Some(v) => {
                if acc * 16 + v <= usize::MAX {
                    lemma_scan_hex_concat(a.drop_first(), b, acc * 16 + v);
                }
            },
        }
    }
}

proof fn lemma_hex_digit_roundtrip(d: nat)
    requires
        d < 16,
    ensures
        hex_digit_value(hex_digit_char(d)) == Some(d),
        hex_digit_char(d) != '+',
{
}

proof fn lemma_scan_hex_upper(n: nat)
    requires
        n <= usize::MAX,
    ensures
        scan_hex(hex_upper(n), 0) == Ok::<nat, ParseIdError>(n),
        hex_upper(n).len() > 0,
        hex_upper(n)[0] != '+',
    decreases n,
{
    if n < 16 {
        lemma_hex_digit_roundtrip(n);
        let d = seq![hex_digit_char(n)];
        assert(d.drop_first() =~= Seq::<char>::empty());
        assert(scan_hex(d.drop_first(), 0 * 16 + n) == Ok::<nat, ParseIdError>(n));
        assert(hex_upper(n) == d);
    } else {
        let q = n / 16;
        let r = n % 16;
        assert(q * 16 + r == n) by (nonlinear_arith)
            requires
                q == n / 16,
                r == n % 16,
        ;
        lemma_scan_hex_upper(q);
        lemma_hex_digit_roundtrip(r);
        let d = seq![hex_digit_char(r)];
        assert(hex_upper(n) =~= hex_upper(q) + d);
        lemma_scan_hex_concat(hex_upper(q), d, 0);
        assert(d.drop_first() =~= Seq::<char>::empty());
        assert(scan_hex(d.drop_first(), q * 16 + r) == Ok::<nat, ParseIdError>(n));
        assert(scan_hex(d, q) == Ok::<nat, ParseIdError>(n));
        assert(hex_upper(n)[0] == hex_upper(q)[0]);
    }
}

/// An identifier's displayed form parses back to the same identifier, and any text that parses
/// as an identifier is redisplayed as text that parses to that identifier again.
pub proof fn lemma_quotation_id_roundtrip(id: usize, s: Seq<char>)
    ensures
        parse_id_outcome(hex_upper(id as nat)) == Ok::<nat, ParseIdError>(id as nat),
        parse_id_outcome(s) matches Ok(n) ==> n <= usize::MAX && parse_id_outcome(hex_upper(n))
            == Ok::<nat, ParseIdError>(n),
{
    lemma_scan_hex_upper(id as nat);
    if parse_id_outcome(s) is Ok {
        let n = parse_id_outcome(s)->Ok_0;
        lemma_scan_hex_bounded(if s[0] == '+' { s.drop_first() } else { s }, 0);
        lemma_scan_hex_upper(n);
    }
}

proof fn lemma_scan_hex_bounded(d: Seq<char>, acc: nat)
    requires
        acc <= usize::MAX,
    ensures
        scan_hex(d, acc) matches Ok(n) ==> n <= usize::MAX,
    decreases d.len(),
{
    if d.len() > 0 {
        match hex_digit_value(d[0]) {
            None => {},
            Some(v) => {
                if acc * 16 + v <= usize::MAX {
                    lemma_scan_hex_bounded(d.drop_first(), acc * 16 + v);
                }
            },
        }
    }
}

/// Whether `c` is in the ASCII whitespace class `[[:space:]]`: tab, line feed, vertical tab,
/// form feed, carriage return or space.
pub open spec fn is_ascii_space(c: char) -> bool {
    c == ' ' || ('\t' <= c && c <= '\r')
}

/// Whether `c` may stand in a word of chat-line metadata: anything but ASCII whitespace, `*`,
/// `<` and `>`.
pub open spec fn is_metadata_word_char(c: char) -> bool {
    !is_ascii_space(c) && c != '*' && c != '<' && c != '>'
}

/// The end of the run of metadata-word characters of `s` that starts at `i`.
pub open spec fn word_end(s: Seq<char>, i: int) -> int
    decreases s.len() - i,
{
    if i < 0 || i >= s.len() {
        s.len() as int
    } else if is_metadata_word_char(s[i]) {
        word_end(s, i + 1)
    } else {
        i
    }
}

/// The end of the run of ASCII whitespace of `s` that starts at `i`.
pub open spec fn space_end(s: Seq<char>, i: int) -> int
    decreases s.len() - i,
{
    if i < 0 || i >= s.len() {
        s.len() as int
    } else if is_ascii_space(s[i]) {
        space_end(s, i + 1)
    } else {
        i
    }
}

pub proof fn lemma_word_end_bounds(s: Seq<char>, i: int)
    requires
        0 <= i <= s.len(),
    ensures
        i <= word_end(s, i) <= s.len(),
        forall|k: int| i <= k < word_end(s, i) ==> is_metadata_word_char(#[trigger] s[k]),
        word_end(s, i) < s.len() ==> !is_metadata_word_char(s[word_end(s, i)]),
    decreases s.len() - i,
{
    if i < s.len() && is_metadata_word_char(s[i]) {
        lemma_word_end_bounds(s, i + 1);
    }
}

pub proof fn lemma_space_end_bounds(s: Seq<char>, i: int)
    requires
        0 <= i <= s.len(),
    ensures
        i <= space_end(s, i) <= s.len(),
        forall|k: int| i <= k < space_end(s, i) ==> is_ascii_space(#[trigger] s[k]),
    decreases s.len() - i,
{
    if i < s.len() && is_ascii_space(s[i]) {
        lemma_space_end_bounds(s, i + 1);
    }
}

/// Where the metadata of a chat line that starts at `i` ends: the metadata is the longest run
/// of words, each made of metadata-word characters and followed by ASCII whitespace or the end
/// of the line (with that whitespace), as the anchored pattern
/// `^(?:[^[:space:]*<>]+(?:[[:space:]]+|$))*` matches it.
pub open spec fn metadata_end(s: Seq<char>, i: int) -> int
    decreases s.len() + 1 - i,
{
    if i < 0 || i >= s.len() {
        i
    } else {
        proof {
            lemma_word_end_bounds(s, i);
        }
        let w = word_end(s, i);
        if w == i {
            i
        } else if w == s.len() {
            w
        } else if is_ascii_space(s[w]) {
            proof {
                lemma_space_end_bounds(s, w);
            }
            metadata_end(s, space_end(s, w))
        } else {
            i
        }
    }
}

/// The end of the run of `>` characters of `s` that starts at `i`.
pub open spec fn gt_end(s: Seq<char>, i: int) -> int
    decreases s.len() - i,
{
    if i < 0 || i >= s.len() {
        s.len() as int
    } else if s[i] == '>' {
        gt_end(s, i + 1)
    } else {
        i
    }
}

pub proof fn lemma_metadata_end_bounds(s: Seq<char>, i: int)
    requires
        0 <= i <= s.len(),
    ensures
        i <= metadata_end(s, i) <= s.len(),
    decreases s.len() + 1 - i,
{
    if i < s.len() {
        lemma_word_end_bounds(s, i);
        let w = word_end(s, i);
        if w != i && w != s.len() && is_ascii_space(s[w]) {
            lemma_space_end_bounds(s, w);
            lemma_metadata_end_bounds(s, space_end(s, w));
        }
    }
}

proof fn lemma_gt_end_bounds(s: Seq<char>, i: int)
    requires
        0 <= i <= s.len(),
    ensures
        i <= gt_end(s, i) <= s.len(),
        forall|k: int| i <= k < gt_end(s, i) ==> s[k] == '>',
    decreases s.len() - i,
{
    if i < s.len() && s[i] == '>' {
        lemma_gt_end_bounds(s, i + 1);
    }
}

/// The length of what stripping leaves is at most the line's.
proof fn lemma_strip_len(line: Seq<char>)
    ensures
        strip_chat_metadata_view(line).len() <= line.len(),
{
    lemma_metadata_end_bounds(line, 0);
    lemma_gt_end_bounds(line, metadata_end(line, 0));
}

proof fn lemma_word_end_at(s: Seq<char>, i: int, j: int)
    requires
        0 <= i <= j < s.len(),
        forall|k: int| i <= k < j ==> is_metadata_word_char(#[trigger] s[k]),
        !is_metadata_word_char(s[j]),
    ensures
        word_end(s, i) == j,
    decreases j - i,
{
    if i < j {
        lemma_word_end_at(s, i + 1, j);
    }
}

/// A leading word of metadata is stripped: for any nonempty word of characters other than
/// ASCII whitespace, `*`, `<` and `>` (a timestamp such as `[12:34]`, say), followed by one
/// ASCII whitespace character and then a line that starts with `<`, stripping leaves that line.
pub proof fn lemma_metadata_word_stripped(w: Seq<char>, sp: char, rest: Seq<char>)
    requires
        w.len() > 0,
        forall|k: int| 0 <= k < w.len() ==> !(#[trigger] w[k] == ' ' || ('\t' <= w[k] && w[k] <= '\r'))
            && w[k] != '*' && w[k] != '<' && w[k] != '>',
        sp == ' ' || ('\t' <= sp && sp <= '\r'),
        rest.len() > 0,
        rest[0] == '<',
    ensures
        strip_chat_metadata_view(w + seq![sp] + rest) == rest,
{
    let s = w + seq![sp] + rest;
    let wl = w.len() as int;
    assert forall|k: int| 0 <= k < wl implies is_metadata_word_char(#[trigger] s[k]) by {
        assert(s[k] == w[k]);
    }
    assert(s[wl] == sp);
    lemma_word_end_at(s, 0, wl);
    assert(s[wl + 1] == '<');
    assert(space_end(s, wl + 1) == wl + 1);
    assert(space_end(s, wl) == wl + 1);
    assert(word_end(s, wl + 1) == wl + 1);
    assert(metadata_end(s, wl + 1) == wl + 1);
    assert(metadata_end(s, 0) == wl + 1);
    assert(gt_end(s, wl + 1) == wl + 1);
    assert(s.skip(wl + 1) =~= rest);
}

proof fn lemma_ends_shift(a: Seq<char>, b: Seq<char>, i: int)
    requires
        a.len() <= i <= a.len() + b.len(),
    ensures
        word_end(a + b, i) == word_end(b, i - a.len()) + a.len(),
        space_end(a + b, i) == space_end(b, i - a.len()) + a.len(),
        gt_end(a + b, i) == gt_end(b, i - a.len()) + a.len(),
    decreases a.len() + b.len() - i,
{
    let s = a + b;
    if i < s.len() {
        assert(s[i] == b[i - a.len()]);
        lemma_ends_shift(a, b, i + 1);
    }
}

proof fn lemma_metadata_end_shift(a: Seq<char>, b: Seq<char>, i: int)
    requires
        a.len() <= i <= a.len() + b.len(),
    ensures
        metadata_end(a + b, i) == metadata_end(b, i - a.len()) + a.len(),
    decreases a.len() + b.len() + 1 - i,
{
    let s = a + b;
    let j = i - a.len();
    lemma_ends_shift(a, b, i);
    if i < s.len() {
        lemma_word_end_bounds(s, i);
        lemma_word_end_bounds(b, j);
        let w = word_end(s, i);
        if w != i && w != s.len() {
            assert(s[w] == b[w - a.len()]);
            if is_ascii_space(s[w]) {
                lemma_ends_shift(a, b, w);
                lemma_space_end_bounds(s, w);
                lemma_metadata_end_shift(a, b, space_end(s, w));
            }
        }
    }
}

/// Stripping takes off leading words of metadata one by one: a nonempty word of characters
/// other than ASCII whitespace, `*`, `<` and `>` (a timestamp such as `[12:34]`, say), followed
/// by ASCII whitespace up to a line that does not start with ASCII whitespace, is stripped, and
/// the line is then stripped as it would be alone.
pub proof fn lemma_metadata_words_stripped_in_turn(w: Seq<char>, sp: char, rest: Seq<char>)
    requires
        w.len() > 0,
        forall|k: int| 0 <= k < w.len() ==> !(#[trigger] w[k] == ' ' || ('\t' <= w[k] && w[k] <= '\r'))
            && w[k] != '*' && w[k] != '<' && w[k] != '>',
        sp == ' ' || ('\t' <= sp && sp <= '\r'),
        rest.len() > 0 ==> !(rest[0] == ' ' || ('\t' <= rest[0] && rest[0] <= '\r')),
    ensures
        strip_chat_metadata_view(w + seq![sp] + rest) == strip_chat_metadata_view(rest),
{
    let a = w + seq![sp];
    let s = a + rest;
    let wl = w.len() as int;
    assert forall|k: int| 0 <= k < wl implies is_metadata_word_char(#[trigger] s[k]) by {
        assert(s[k] == w[k]);
    }
    assert(s[wl] == sp);
    lemma_word_end_at(s, 0, wl);
    lemma_ends_shift(a, rest, wl + 1);
    if rest.len() > 0 {
        assert(space_end(rest, 0) == 0);
    }
    assert(space_end(s, wl + 1) == wl + 1);
    assert(space_end(s, wl) == wl + 1);
    lemma_metadata_end_shift(a, rest, wl + 1);
    assert(metadata_end(s, 0) == metadata_end(s, wl + 1));
    let m = metadata_end(rest, 0);
    lemma_metadata_end_bounds(rest, 0);
    lemma_ends_shift(a, rest, m + wl + 1);
    lemma_gt_end_bounds(rest, m);
    assert(a.len() == wl + 1);
    assert(s.skip(gt_end(rest, m) + wl + 1) =~= rest.skip(gt_end(rest, m)));
}

/// A chat line without its metadata and without the `>` characters that then lead it.
pub open spec fn strip_chat_metadata_view(line: Seq<char>) -> Seq<char> {
    line.skip(gt_end(line, metadata_end(line, 0)))
}

fn word_end_exec(s: &[char], i: usize) -> (r: usize)
    requires
        i <= s@.len(),
    ensures
        i <= r <= s@.len(),
        r == word_end(s@, i as int),
{
    let n = s.len();
    let mut j = i;
    while j < n
        invariant
            n == s@.len(),
            i <= j <= n,
            word_end(s@, i as int) == word_end(s@, j as int),
        decreases n - j,
    {
        let c = s[j];
        let is_word = !(c == ' ' || ('\t' <= c && c <= '\r')) && c != '*' && c != '<' && c != '>';
        if !is_word {
            return j;
        }
        j += 1;
    }
    j
}

fn space_end_exec(s: &[char], i: usize) -> (r: usize)
    requires
        i <= s@.len(),
    ensures
        i <= r <= s@.len(),
        r == space_end(s@, i as int),
{
    let n = s.len();
    let mut j = i;
    while j < n && (s[j] == ' ' || ('\t' <= s[j] && s[j] <= '\r'))
        invariant
            n == s@.len(),
            i <= j <= n,
            space_end(s@, i as int) == space_end(s@, j as int),
        decreases n - j,
    {
        j += 1;
    }
    j
}

fn gt_end_exec(s: &[char], i: usize) -> (r: usize)
    requires
        i <= s@.len(),
    ensures
        i <= r <= s@.len(),
        r == gt_end(s@, i as int),
{
    let n = s.len();
    let mut j = i;
    while j < n && s[j] == '>'
        invariant
            n == s@.len(),
            i <= j <= n,
            gt_end(s@, i as int) == gt_end(s@, j as int),
        decreases n - j,
    {
        j += 1;
    }
    j
}

fn metadata_end_exec(s: &[char]) -> (r: usize)
    ensures
        r <= s@.len(),
        r == metadata_end(s@, 0),
{
    let n = s.len();
    let mut i: usize = 0;
    while i < n
        invariant
            n == s@.len(),
            i <= n,
            metadata_end(s@, 0) == metadata_end(s@, i as int),
        decreases n - i,
    {
        let w = word_end_exec(s, i);
        if w == i {
            return i;
        }
        if w == n {
            return n;
        }
        if !(s[w] == ' ' || ('\t' <= s[w] && s[w] <= '\r')) {
            return i;
        }
        let e = space_end_exec(s, w);
        proof {
            lemma_space_end_bounds(s@, w + 1);
        }
        assert(e > w);
        i = e;
    }
    i
}

/// Strips a chat line of its metadata: the longest run of leading words that hold no ASCII
/// whitespace, `*`, `<` or `>`, each followed by ASCII whitespace or the end of the line, and
/// then any `>` characters that lead what remains.
pub fn strip_chat_metadata(line: &str) -> (r: Option<String>)
    ensures
        r matches Some(x) && x@ == strip_chat_metadata_view(line@),
{
    let cs = chars_of(line);
    let m = metadata_end_exec(cs.as_slice());
    let g = gt_end_exec(cs.as_slice(), m);
    let out = string_of_range(cs.as_slice(), g, cs.len());
    assert(cs@.subrange(g as int, cs@.len() as int) =~= line@.skip(g as int));
    Some(out)
}

/// What becomes of one line of a chat-format quotation: trimmed, stripped of metadata and
/// trimmed again, or dropped where either trimming leaves nothing.
pub open spec fn chat_line(l: Seq<char>) -> Option<Seq<char>> {
    let t = trim(l);
    if t.len() == 0 {
        None
    } else {
        let u = trim(strip_chat_metadata_view(t));
        if u.len() == 0 {
            None
        } else {
            Some(u)
        }
    }
}

/// The lines that remain of `ls` after [`chat_line`], in order.
pub open spec fn chat_lines_of(ls: Seq<Seq<char>>) -> Seq<Seq<char>>
    decreases ls.len(),
{
    if ls.len() == 0 {
        seq![]
    } else {
        let rest = chat_lines_of(ls.drop_first());
        match chat_line(ls[0]) {
            Some(u) => seq![u] + rest,
            None => rest,
        }
    }
}

/// The lines that a chat-format quotation's text is shown as.
pub open spec fn chat_lines(text: Seq<char>) -> Seq<Seq<char>> {
    chat_lines_of(lines_of(text))
}

fn chat_line_exec(cs: &[char], from: usize, to: usize) -> (r: Option<String>)
    requires
        from <= to <= cs@.len(),
    ensures
        match chat_line(cs@.subrange(from as int, to as int)) {
            Some(u) => r matches Some(x) && x@ == u,
            None => r is None,
        },
{
    let (a, b) = trim_bounds(cs, from, to);
    if a == b {
        return None;
    }
    let mut t: Vec<char> = Vec::new();
    let mut k = a;
    while k < b
        invariant
            a <= k <= b <= cs@.len(),
            t@ == cs@.subrange(a as int, k as int),
        decreases b - k,
    {
        t.push(cs[k]);
        k += 1;
        assert(t@ =~= cs@.subrange(a as int, k as int));
    }
    let m = metadata_end_exec(t.as_slice());
    let g = gt_end_exec(t.as_slice(), m);
    assert(t@.subrange(g as int, t@.len() as int) =~= strip_chat_metadata_view(t@));
    let (c, d) = trim_bounds(t.as_slice(), g, t.len());
    if c == d {
        return None;
    }
    Some(string_of_range(t.as_slice(), c, d))
}

/// The lines of the text of a chat-format quotation as they are shown: each trimmed, stripped
/// of metadata and trimmed again, with lines that come out empty left out.
pub fn chat_lines_stripped(text: &str) -> (r: Vec<String>)
    ensures
        string_views(r@) == chat_lines(text@),
{
    let cs = chars_of(text);
    let ranges = line_ranges(cs.as_slice());
    let ghost ls = lines_of(cs@);
    let mut out: Vec<String> = Vec::new();
    let mut k: usize = 0;
    assert(ls.skip(0) =~= ls);
    assert(string_views(out@) =~= Seq::<Seq<char>>::empty());
    assert(string_views(out@) + chat_lines_of(ls.skip(0)) =~= chat_lines_of(ls));
    while k < ranges.len()
        invariant
            cs@ == text@,
            ls == lines_of(cs@),
            range_texts(cs@, ranges@) == ls,
            forall|j: int| 0 <= j < ranges@.len() ==> (#[trigger] ranges@[j]).0 <= ranges@[j].1 <= cs@.len(),
            k <= ranges@.len(),
            string_views(out@) + chat_lines_of(ls.skip(k as int)) == chat_lines_of(ls),
        decreases ranges@.len() - k,
    {
        let (a, b) = ranges[k];
        let ghost rest = ls.skip(k as int);
        assert(rest[0] == ls[k as int]);
        assert(rest.drop_first() =~= ls.skip(k + 1));
        let ghost before = string_views(out@);
        match chat_line_exec(cs.as_slice(), a, b) {
            Some(u) => {
                out.push(u);
                assert(string_views(out@) =~= before + seq![u@]);
                assert(string_views(out@) + chat_lines_of(ls.skip(k + 1)) =~= before + (seq![u@]
                    + chat_lines_of(ls.skip(k + 1))));
            },
            None => {},
        }
        k += 1;
    }
    assert(ls.skip(k as int) =~= Seq::<Seq<char>>::empty());
    assert(string_views(out@) + chat_lines_of(ls.skip(k as int)) =~= string_views(out@));
    out
}

/// A quotation in the database.
#[derive(Debug)]
pub struct Quotation {
    /// The quotation's identifier.
    pub id: QuotationId,
    /// The file that the quotation came from.
    pub file_id: QuotationFileId,
    /// How the quotation's text is formatted.
    pub format: QuotationFormat,
    /// The quotation's text.
    pub text: String,
    /// Tags that count as part of the quotation for searches but are not shown.
    pub tags: Vec<String>,
    /// A URL of a copy of the quotation, offered where the text is too long to post.
    pub url: Option<String>,
    /// How the bot avoids pinging people named in the quotation.
    pub anti_ping_tactic: AntiPingTactic,
}

/// The sum, over `ls`, of each line's length in bytes plus one.
pub open spec fn lines_bytes_plus_one(ls: Seq<Seq<char>>) -> nat
    decreases ls.len(),
{
    if ls.len() == 0 {
        0
    } else {
        lines_bytes_plus_one(ls.drop_last()) + byte_len(ls.last()) + 1
    }
}

/// The length in bytes of a quotation's text as it is shown without anti-ping munging: for a
/// chat-format quotation, its shown lines and one space between each two; for a plain one,
/// its text.
pub open spec fn quotation_byte_len_of(format: QuotationFormat, text: Seq<char>) -> nat {
    match format {
        QuotationFormat::Chat => {
            let t = lines_bytes_plus_one(chat_lines(text));
            if t == 0 {
                0
            } else {
                (t - 1) as nat
            }
        },
        QuotationFormat::Plain => byte_len(text),
    }
}

proof fn lemma_lines_bytes_take(ls: Seq<Seq<char>>, k: int)
    requires
        0 <= k < ls.len(),
    ensures
        lines_bytes_plus_one(ls.take(k + 1)) == lines_bytes_plus_one(ls.take(k)) + byte_len(ls[k]) + 1,
{
    assert(ls.take(k + 1).drop_last() =~= ls.take(k));
}

proof fn lemma_lines_bytes_monotonic(ls: Seq<Seq<char>>, k: int)
    requires
        0 <= k <= ls.len(),
    ensures
        lines_bytes_plus_one(ls.take(k)) <= lines_bytes_plus_one(ls),
    decreases ls.len() - k,
{
    if k == ls.len() {
        assert(ls.take(k) =~= ls);
    } else {
        lemma_lines_bytes_take(ls, k);
        lemma_lines_bytes_monotonic(ls, k + 1);
    }
}

/// Whether a chat-format quotation's byte length fits in a `usize`.
pub open spec fn byte_len_fits(format: QuotationFormat, text: Seq<char>) -> bool {
    match format {
        QuotationFormat::Chat => lines_bytes_plus_one(chat_lines(text)) <= usize::MAX,
        QuotationFormat::Plain => byte_len(text) <= usize::MAX,
    }
}

/// The length in bytes of a quotation's text as it is shown without anti-ping munging.
pub fn quotation_byte_len(quotation: &Quotation) -> (r: usize)
    requires
        byte_len_fits(quotation.format, quotation.text@),
    ensures
        r == quotation_byte_len_of(quotation.format, quotation.text@),
{
    match quotation.format {
        QuotationFormat::Chat => {
            let lines = chat_lines_stripped(quotation.text.as_str());
            let ghost ls = chat_lines(quotation.text@);
            let mut total: usize = 0;
            let mut k: usize = 0;
            assert(ls.take(0) =~= Seq::<Seq<char>>::empty());
            while k < lines.len()
                invariant
                    string_views(lines@) == ls,
                    lines_bytes_plus_one(ls) <= usize::MAX,
                    k <= lines@.len(),
                    total == lines_bytes_plus_one(ls.take(k as int)),
                decreases lines@.len() - k,
            {
                proof {
                    lemma_lines_bytes_take(ls, k as int);
                    lemma_lines_bytes_monotonic(ls, k + 1);
                    assert(ls[k as int] == lines@[k as int]@);
                }
                let l = lines[k].as_str().len();
                assert(l == byte_len(ls[k as int]));
                total = total + l + 1;
                k += 1;
            }
            assert(ls.take(k as int) =~= ls);
            if total == 0 {
                0
            } else {
                total - 1
            }
        },
        QuotationFormat::Plain => quotation.text.as_str().len(),
    }
}

/// `s` with the nicknames `nicks` munged as [`zwsp_munge`] munges them.
pub open spec fn munged(s: Seq<char>, nicks: Seq<Seq<char>>) -> Seq<char> {
    munge_pieces(s, nicks).flatten()
}

/// The anti-ping tactic in force: the one requested, or else the quotation's own.
pub open spec fn effective_tactic(requested: Option<AntiPingTactic>, own: AntiPingTactic) -> AntiPingTactic {
    match requested {
        Some(t) => t,
        None => own,
    }
}

/// The text of a quotation as it is shown, where users with the nicknames `nicks` are
/// present: a chat-format quotation's shown lines joined with single spaces, a plain
/// quotation's text; under the tactic `Munge`, each line (or the text) munged.
pub open spec fn shown_text(
    tactic: AntiPingTactic,
    format: QuotationFormat,
    text: Seq<char>,
    nicks: Seq<Seq<char>>,
) -> Seq<char> {
    match format {
        QuotationFormat::Chat => {
            let ls = chat_lines(text);
            if tactic == AntiPingTactic::Munge {
                join_with(Seq::new(ls.len(), |i: int| munged(ls[i], nicks)), seq![' '])
            } else {
                join_with(ls, seq![' '])
            }
        },
        QuotationFormat::Plain => if tactic == AntiPingTactic::Munge {
            munged(text, nicks)
        } else {
            text
        },
    }
}

/// Whether showing a quotation abridges it: a chat-format quotation some of whose lines are
/// left out.
pub open spec fn is_abridged(format: QuotationFormat, text: Seq<char>) -> bool {
    format == QuotationFormat::Chat && chat_lines(text).len() != lines_of(text).len()
}

/// Whether any of `needles` occurs in a quotation's shown lines (chat format) or text (plain).
pub open spec fn text_contains_any(format: QuotationFormat, text: Seq<char>, needles: Seq<Seq<char>>) -> bool {
    match format {
        QuotationFormat::Chat => exists|i: int, j: int|
            0 <= i < needles.len() && 0 <= j < chat_lines(text).len() && crate::util::text::contains_seq(
                #[trigger] chat_lines(text)[j],
                #[trigger] needles[i],
            ),
        QuotationFormat::Plain => exists|i: int|
            0 <= i < needles.len() && crate::util::text::contains_seq(text, #[trigger] needles[i]),
    }
}

/// A quotation as it is posted: its identifier in brackets (curly where the text is
/// abridged, square otherwise), a space, and its shown text.
pub open spec fn rendered_view(
    requested: Option<AntiPingTactic>,
    q: Quotation,
    nicks: Seq<Seq<char>>,
) -> Seq<char> {
    let ab = is_abridged(q.format, q.text@);
    (if ab {
        seq!['{']
    } else {
        seq!['[']
    }) + hex_upper(q.id.0 as nat) + (if ab {
        seq!['}']
    } else {
        seq![']']
    }) + seq![' '] + shown_text(
        effective_tactic(requested, q.anti_ping_tactic),
        q.format,
        q.text@,
        nicks,
    )
}

fn munge_with(s: &str, nicks: &[String]) -> (r: String)
    requires
        s@.len() <= usize::MAX / 2,
    ensures
        r@ == munged(s@, string_views(nicks@)),
{
    let mut needles: Vec<&str> = Vec::new();
    let mut i: usize = 0;
    while i < nicks.len()
        invariant
            i <= nicks@.len(),
            needles@.len() == i,
            forall|j: int| 0 <= j < i ==> (#[trigger] needles@[j])@ == nicks@[j]@,
        decreases nicks@.len() - i,
    {
        needles.push(nicks[i].as_str());
        i += 1;
    }
    assert(needles@.map_values(|n: &str| n@) =~= string_views(nicks@));
    let m = zwsp_munge(s, needles.as_slice());
    m.collect_string()
}

/// Bounds on the lengths of shown lines.
proof fn lemma_trim_len(s: Seq<char>)
    ensures
        trim(s).len() <= s.len(),
{
    lemma_trim_start_len(s);
    lemma_trim_end_len(crate::util::text::trim_start(s));
}

proof fn lemma_trim_start_len(s: Seq<char>)
    ensures
        crate::util::text::trim_start(s).len() <= s.len(),
    decreases s.len(),
{
    if s.len() > 0 && crate::util::text::is_whitespace(s[0]) {
        lemma_trim_start_len(s.drop_first());
    }
}

proof fn lemma_trim_end_len(s: Seq<char>)
    ensures
        crate::util::text::trim_end(s).len() <= s.len(),
    decreases s.len(),
{
    if s.len() > 0 && crate::util::text::is_whitespace(s.last()) {
        lemma_trim_end_len(s.drop_last());
    }
}

proof fn lemma_lines_from_len(s: Seq<char>, from: int)
    requires
        0 <= from,
    ensures
        forall|k: int| 0 <= k < crate::util::text::lines_from(s, from).len() ==> (#[trigger] crate::util::text::lines_from(s, from)[k]).len() <= s.len(),
    decreases s.len() + 1 - from,
{
    if from < s.len() {
        crate::util::text::lemma_line_end_bounds(s, from);
        let e = crate::util::text::line_end(s, from);
        lemma_lines_from_len(s, e + 1);
        let l = crate::util::text::line_text(s, from, e);
        let ls = crate::util::text::lines_from(s, from);
        assert(ls == seq![l] + crate::util::text::lines_from(s, e + 1));
        assert forall|k: int| 0 <= k < ls.len() implies (#[trigger] ls[k]).len() <= s.len() by {
            if k > 0 {
                assert(ls[k] == crate::util::text::lines_from(s, e + 1)[k - 1]);
            }
        }
    }
}

proof fn lemma_chat_lines_of_len(ls: Seq<Seq<char>>, bound: nat)
    requires
        forall|k: int| 0 <= k < ls.len() ==> (#[trigger] ls[k]).len() <= bound,
    ensures
        forall|k: int| 0 <= k < chat_lines_of(ls).len() ==> (#[trigger] chat_lines_of(ls)[k]).len() <= bound,
    decreases ls.len(),
{
    if ls.len() > 0 {
        let rest = ls.drop_first();
        assert forall|k: int| 0 <= k < rest.len() implies (#[trigger] rest[k]).len() <= bound by {
            assert(rest[k] == ls[k + 1]);
        }
        lemma_chat_lines_of_len(rest, bound);
        let t = trim(ls[0]);
        lemma_trim_len(ls[0]);
        if t.len() > 0 {
            lemma_trim_len(strip_chat_metadata_view(t));
            lemma_strip_len(t);
        }
        let out = chat_lines_of(ls);
        assert forall|k: int| 0 <= k < out.len() implies (#[trigger] out[k]).len() <= bound by {
            match chat_line(ls[0]) {
                Some(u) => {
                    assert(out == seq![u] + chat_lines_of(rest));
                    if k == 0 {
                        assert(out[0] == u);
                    } else {
                        assert(out[k] == chat_lines_of(rest)[k - 1]);
                    }
                },
                None => {},
            }
        }
    }
}

/// The `Debug` rendering of a list of numbers: their decimal numerals between square brackets,
/// separated by `, `.
pub open spec fn numbers_debug(ns: Seq<u32>) -> Seq<char> {
    seq!['['] + join_with(Seq::new(ns.len(), |i: int| crate::util::text::decimal(ns[i] as nat)), ", "@) + seq![']']
}

/// The reply to `quote-database-reload`, given the five-number summary of the numbers of pieces
/// into which the chat-format quotations' texts are broken.
pub open spec fn reload_report_text(summary: Seq<u32>) -> Seq<char> {
    "I have reloaded my quotation database. The five-number summary of the numbers of pieces into which chat-format quotations' texts get broken, assuming no anti-ping munging, is "@
        + numbers_debug(summary) + seq!['.']
}

/// The reply to `quote-database-reload` (see [`reload_report_text`]).
pub fn reload_report(summary: &[u32]) -> (r: Reaction)
    ensures
        r matches Reaction::Msg(m) && m@ == reload_report_text(summary@),
{
    let mut parts: Vec<String> = Vec::new();
    let mut i: usize = 0;
    while i < summary.len()
        invariant
            i <= summary@.len(),
            string_views(parts@) == Seq::new(summary@.len(), |k: int| crate::util::text::decimal(summary@[k] as nat)).take(i as int),
        decreases summary@.len() - i,
    {
        let mut d: Vec<char> = Vec::new();
        crate::util::text::push_decimal(summary[i] as usize, &mut d);
        let ghost before = string_views(parts@);
        let ds = string_from_chars(d.as_slice());
        parts.push(ds);
        proof {
            let all = Seq::new(summary@.len(), |k: int| crate::util::text::decimal(summary@[k] as nat));
            assert(d@ =~= crate::util::text::decimal(summary@[i as int] as nat));
            assert(string_views(parts@) =~= before.push(all[i as int]));
            assert(all.take(i + 1) =~= all.take(i as int).push(all[i as int]));
        }
        i += 1;
    }
    let joined = crate::util::text::join_strings_with(&parts, ", ");
    let mut acc: Vec<char> = Vec::new();
    push_str_chars(&mut acc, "I have reloaded my quotation database. The five-number summary of the numbers of pieces into which chat-format quotations' texts get broken, assuming no anti-ping munging, is ");
    acc.push('[');
    let js = string_from_chars(joined.as_slice());
    push_str_chars(&mut acc, js.as_str());
    acc.push(']');
    acc.push('.');
    proof {
        let all = Seq::new(summary@.len(), |k: int| crate::util::text::decimal(summary@[k] as nat));
        assert(all.take(i as int) =~= all);
        assert(acc@ =~= reload_report_text(summary@));
    }
    Reaction::Msg(string_from_chars(acc.as_slice()))
}

/// The number of pieces into which a chat-format text is broken for sending without
/// anti-ping munging: its shown lines with a separator between each two, counted up to
/// `u32::MAX`.
pub open spec fn chat_piece_count(text: Seq<char>) -> nat {
    let n = chat_lines(text).len();
    let pieces: nat = if n == 0 { 0 } else { (2 * n - 1) as nat };
    if pieces <= u32::MAX { pieces } else { u32::MAX as nat }
}

/// The number of pieces into which a chat-format text is broken for sending without anti-ping
/// munging (see [`chat_piece_count`]).
pub fn chat_text_piece_count(text: &str) -> (r: u32)
    ensures
        r == chat_piece_count(text@),
{
    let lines = chat_lines_stripped(text);
    let n = lines.len();
    assert(n == chat_lines(text@).len());
    if n == 0 {
        0
    } else if n > 2147483648 {
        u32::MAX
    } else {
        (2 * (n as u64) - 1) as u32
    }
}

/// Each shown line of a chat-format quotation is no longer than its text.
pub proof fn lemma_chat_lines_len(text: Seq<char>)
    ensures
        forall|k: int| 0 <= k < chat_lines(text).len() ==> (#[trigger] chat_lines(text)[k]).len() <= text.len(),
{
    lemma_lines_from_len(text, 0);
    lemma_chat_lines_of_len(lines_of(text), text.len());
}

fn join_strings(ls: &Vec<String>) -> (r: Vec<char>)
    ensures
        r@ == join_with(string_views(ls@), seq![' ']),
{
    let r = crate::util::text::join_strings_with(ls, " ");
    proof {
        reveal_strlit(" ");
        assert(" "@ =~= seq![' ']);
    }
    r
}

/// The text of a quotation as it is shown, and whether it was abridged, where users with the
/// nicknames `nicks` are present and `requested` (if any) overrides the quotation's
/// anti-ping tactic.
pub fn quotation_text_pieces(
    requested: Option<AntiPingTactic>,
    quotation: &Quotation,
    nicks: &[String],
) -> (r: (String, bool))
    requires
        quotation.text@.len() <= usize::MAX / 2,
    ensures
        r.0@ == shown_text(
            effective_tactic(requested, quotation.anti_ping_tactic),
            quotation.format,
            quotation.text@,
            string_views(nicks@),
        ),
        r.1 == is_abridged(quotation.format, quotation.text@),
{
    let tactic = match requested {
        Some(t) => t,
        None => quotation.anti_ping_tactic,
    };
    let munge = match tactic {
        AntiPingTactic::Munge => true,
        _ => false,
    };
    match quotation.format {
        QuotationFormat::Chat => {
            let lines = chat_lines_stripped(quotation.text.as_str());
            let cs = chars_of(quotation.text.as_str());
            let orig = line_ranges(cs.as_slice());
            let abridged = lines.len() != orig.len();
            proof {
                assert(range_texts(cs@, orig@).len() == orig@.len());
            }
            if munge {
                let ghost ls = chat_lines(quotation.text@);
                proof {
                    lemma_chat_lines_len(quotation.text@);
                }
                let mut shown: Vec<String> = Vec::new();
                let mut k: usize = 0;
                while k < lines.len()
                    invariant
                        string_views(lines@) == ls,
                        forall|j: int| 0 <= j < ls.len() ==> (#[trigger] ls[j]).len() <= quotation.text@.len(),
                        quotation.text@.len() <= usize::MAX / 2,
                        k <= lines@.len(),
                        shown@.len() == k,
                        forall|j: int| 0 <= j < k ==> (#[trigger] shown@[j])@ == munged(ls[j], string_views(nicks@)),
                    decreases lines@.len() - k,
                {
                    assert(lines@[k as int]@ == ls[k as int]);
                    let m = munge_with(lines[k].as_str(), nicks);
                    shown.push(m);
                    k += 1;
                }
                assert(string_views(shown@) =~= Seq::new(ls.len(), |i: int| munged(ls[i], string_views(nicks@))));
                let out = join_strings(&shown);
                (string_from_chars(out.as_slice()), abridged)
            } else {
                let out = join_strings(&lines);
                (string_from_chars(out.as_slice()), abridged)
            }
        },
        QuotationFormat::Plain => {
            if munge {
                (munge_with(quotation.text.as_str(), nicks), false)
            } else {
                (quotation.text.clone(), false)
            }
        },
    }
}

/// Renders a quotation for posting: its identifier in brackets (curly where the text is
/// abridged, square otherwise), a space, and its shown text.
pub fn render_quotation(
    requested: Option<AntiPingTactic>,
    quotation: &Quotation,
    nicks: &[String],
) -> (r: String)
    requires
        quotation.text@.len() <= usize::MAX / 2,
    ensures
        r@ == rendered_view(requested, *quotation, string_views(nicks@)),
{
    let (text, abridged) = quotation_text_pieces(requested, quotation, nicks);
    let mut acc: Vec<char> = Vec::new();
    acc.push(if abridged { '{' } else { '[' });
    push_hex(quotation.id.0, &mut acc);
    acc.push(if abridged { '}' } else { ']' });
    acc.push(' ');
    push_str_chars(&mut acc, text.as_str());
    let ghost ab = is_abridged(quotation.format, quotation.text@);
    assert(acc@ =~= rendered_view(requested, *quotation, string_views(nicks@)));
    string_from_chars(acc.as_slice())
}

/// The length in bytes of a quotation as it is posted, without anti-ping munging: its
/// shown text, the identifier, two brackets and a space.
pub open spec fn rendered_byte_len_of(q: Quotation) -> nat {
    quotation_byte_len_of(q.format, q.text@) + 3 + hex_upper(q.id.0 as nat).len()
}

/// The length in bytes of a quotation as it is posted, without anti-ping munging.
pub fn rendered_quotation_byte_len(quotation: &Quotation) -> (r: usize)
    requires
        byte_len_fits(quotation.format, quotation.text@),
        rendered_byte_len_of(*quotation) <= usize::MAX,
    ensures
        r == rendered_byte_len_of(*quotation),
{
    let b = quotation_byte_len(quotation);
    let id = quotation.id.to_string();
    let n = crate::util::text::chars_of(id.as_str()).len();
    b + 3 + n
}

proof fn lemma_zwsp_inserted_plain(s: Seq<char>, mask: Seq<bool>, from: int)
    requires
        0 <= from <= s.len(),
        mask.len() == s.len(),
        forall|k: int| 0 <= k < mask.len() ==> !mask[k],
    ensures
        crate::util::zwsp_inserted(s, mask, from) == s.skip(from),
    decreases s.len() - from,
{
    if from < s.len() {
        lemma_zwsp_inserted_plain(s, mask, from + 1);
        assert(s.skip(from) =~= seq![s[from]] + s.skip(from + 1));
        assert(seq![s[from]] + s.skip(from + 1) =~= Seq::<char>::empty() + seq![s[from]] + s.skip(from + 1));
    } else {
        assert(s.skip(from) =~= Seq::<char>::empty());
    }
}

/// Munging with no nicknames leaves the text as it is.
pub proof fn lemma_munged_no_nicks(s: Seq<char>)
    ensures
        munged(s, seq![]) == s,
{
    let mask = crate::util::munge_mask(s, seq![]);
    crate::util::lemma_munge_concatenation(s, seq![]);
    assert forall|k: int| 0 <= k < mask.len() implies !mask[k] by {
        assert(!crate::util::munge_point_among(s, seq![], 0, k));
    }
    lemma_zwsp_inserted_plain(s, mask, 0);
    assert(s.skip(0) =~= s);
}

proof fn lemma_byte_len_space()
    ensures
        byte_len(seq![' ']) == 1,
{
    let sp = seq![' '];
    assert(sp.drop_first() =~= Seq::<char>::empty());
    assert(vstd::utf8::encode_utf8(sp.drop_first()) =~= Seq::<u8>::empty());
    assert(vstd::utf8::has_width_1_encoding(' ' as u32));
}

proof fn lemma_join_bytes(ls: Seq<Seq<char>>)
    ensures
        ls.len() == 0 ==> byte_len(join_with(ls, seq![' '])) == 0 && lines_bytes_plus_one(ls) == 0,
        ls.len() > 0 ==> byte_len(join_with(ls, seq![' '])) + 1 == lines_bytes_plus_one(ls),
    decreases ls.len(),
{
    if ls.len() == 0 {
        assert(vstd::utf8::encode_utf8(Seq::<char>::empty()) =~= Seq::<u8>::empty());
    } else if ls.len() == 1 {
        assert(ls.drop_last() =~= Seq::<Seq<char>>::empty());
        lemma_join_bytes(ls.drop_last());
    } else {
        lemma_join_bytes(ls.drop_last());
        let j = join_with(ls.drop_last(), seq![' ']);
        crate::util::text::lemma_byte_len_concat(j, seq![' ']);
        crate::util::text::lemma_byte_len_concat(j + seq![' '], ls.last());
        lemma_byte_len_space();
    }
}

/// The length in bytes of a quotation's shown text, with nobody present to be pinged (the text
/// that [`quotation_text_pieces`] gives), is what [`quotation_byte_len`] computes, whatever
/// anti-ping tactic is in force.
pub proof fn lemma_quotation_byte_len_accuracy(tactic: AntiPingTactic, format: QuotationFormat, text: Seq<char>)
    ensures
        byte_len(shown_text(tactic, format, text, seq![])) == quotation_byte_len_of(format, text),
{
    match format {
        QuotationFormat::Chat => {
            let ls = chat_lines(text);
            let m = Seq::new(ls.len(), |i: int| munged(ls[i], seq![]));
            assert forall|i: int| 0 <= i < ls.len() implies m[i] == ls[i] by {
                lemma_munged_no_nicks(ls[i]);
            }
            assert(m =~= ls);
            lemma_join_bytes(ls);
        },
        QuotationFormat::Plain => {
            lemma_munged_no_nicks(text);
        },
    }
}

proof fn lemma_byte_len_ascii(s: Seq<char>)
    requires
        forall|k: int| 0 <= k < s.len() ==> (#[trigger] s[k]) as u32 <= 0x7f,
    ensures
        byte_len(s) == s.len(),
    decreases s.len(),
{
    if s.len() > 0 {
        let t = s.drop_first();
        assert forall|k: int| 0 <= k < t.len() implies (#[trigger] t[k]) as u32 <= 0x7f by {
            assert(t[k] == s[k + 1]);
        }
        lemma_byte_len_ascii(t);
        assert(vstd::utf8::has_width_1_encoding(s[0] as u32));
    } else {
        assert(vstd::utf8::encode_utf8(s) =~= Seq::<u8>::empty());
    }
}

proof fn lemma_hex_upper_ascii(n: nat)
    ensures
        forall|k: int| 0 <= k < hex_upper(n).len() ==> (#[trigger] hex_upper(n)[k]) as u32 <= 0x7f,
    decreases n,
{
    if n >= 16 {
        lemma_hex_upper_ascii(n / 16);
        let h = hex_upper(n);
        assert forall|k: int| 0 <= k < h.len() implies (#[trigger] h[k]) as u32 <= 0x7f by {
            if k < h.len() - 1 {
                assert(h[k] == hex_upper(n / 16)[k]);
            }
        }
    }
}

/// A posted quotation, with nobody present to be pinged (what [`render_quotation`] gives), is
/// exactly as long in bytes as [`rendered_quotation_byte_len`] reckons.
pub proof fn lemma_rendered_byte_len_accuracy(requested: Option<AntiPingTactic>, q: Quotation)
    ensures
        byte_len(rendered_view(requested, q, seq![])) == rendered_byte_len_of(q),
{
    let ab = is_abridged(q.format, q.text@);
    let open_b = if ab { seq!['{'] } else { seq!['['] };
    let close_b = if ab { seq!['}'] } else { seq![']'] };
    let h = hex_upper(q.id.0 as nat);
    let t = shown_text(effective_tactic(requested, q.anti_ping_tactic), q.format, q.text@, seq![]);
    lemma_quotation_byte_len_accuracy(effective_tactic(requested, q.anti_ping_tactic), q.format, q.text@);
    lemma_hex_upper_ascii(q.id.0 as nat);
    lemma_byte_len_ascii(h);
    lemma_byte_len_ascii(open_b);
    lemma_byte_len_ascii(close_b);
    lemma_byte_len_space();
    crate::util::text::lemma_byte_len_concat(open_b, h);
    crate::util::text::lemma_byte_len_concat(open_b + h, close_b);
    crate::util::text::lemma_byte_len_concat(open_b + h + close_b, seq![' ']);
    crate::util::text::lemma_byte_len_concat(open_b + h + close_b + seq![' '], t);
}

/// The number of `<` characters in all of `ls` together.
pub open spec fn left_angles_in(ls: Seq<Seq<char>>) -> nat
    decreases ls.len(),
{
    if ls.len() == 0 {
        0
    } else {
        count_char(ls[0], '<') + left_angles_in(ls.drop_first())
    }
}

proof fn lemma_count_none(s: Seq<char>, c: char)
    requires
        forall|k: int| 0 <= k < s.len() ==> s[k] != c,
    ensures
        count_char(s, c) == 0,
    decreases s.len(),
{
    if s.len() > 0 {
        lemma_count_none(s.drop_last(), c);
    }
}

proof fn lemma_count_single(x: char, c: char)
    ensures
        count_char(seq![x], c) == if x == c { 1nat } else { 0nat },
{
    assert(seq![x].drop_last() =~= Seq::<char>::empty());
    assert(count_char(Seq::<char>::empty(), c) == 0);
    assert(seq![x].last() == x);
}

proof fn lemma_count_skip(s: Seq<char>, k: int, c: char)
    requires
        0 <= k <= s.len(),
        forall|j: int| 0 <= j < k ==> s[j] != c,
    ensures
        count_char(s.skip(k), c) == count_char(s, c),
{
    assert(s =~= s.take(k) + s.skip(k));
    lemma_count_char_concat(s.take(k), s.skip(k), c);
    lemma_count_none(s.take(k), c);
}

proof fn lemma_count_trim(s: Seq<char>)
    ensures
        count_char(trim(s), '<') == count_char(s, '<'),
{
    lemma_count_trim_start(s);
    lemma_count_trim_end(crate::util::text::trim_start(s));
}

proof fn lemma_count_trim_start(s: Seq<char>)
    ensures
        count_char(crate::util::text::trim_start(s), '<') == count_char(s, '<'),
    decreases s.len(),
{
    if s.len() > 0 && crate::util::text::is_whitespace(s[0]) {
        lemma_count_trim_start(s.drop_first());
        assert(s =~= seq![s[0]] + s.drop_first());
        lemma_count_char_concat(seq![s[0]], s.drop_first(), '<');
        lemma_count_single(s[0], '<');
    }
}

proof fn lemma_count_trim_end(s: Seq<char>)
    ensures
        count_char(crate::util::text::trim_end(s), '<') == count_char(s, '<'),
    decreases s.len(),
{
    if s.len() > 0 && crate::util::text::is_whitespace(s.last()) {
        lemma_count_trim_end(s.drop_last());
    }
}

proof fn lemma_metadata_chars(s: Seq<char>, i: int)
    requires
        0 <= i <= s.len(),
    ensures
        forall|k: int| i <= k < metadata_end(s, i) ==> (#[trigger] s[k]) != '<',
    decreases s.len() + 1 - i,
{
    if i < s.len() {
        lemma_word_end_bounds(s, i);
        let w = word_end(s, i);
        if w != i && w != s.len() && is_ascii_space(s[w]) {
            lemma_space_end_bounds(s, w);
            let e = space_end(s, w);
            lemma_metadata_chars(s, e);
            assert forall|k: int| i <= k < metadata_end(s, i) implies (#[trigger] s[k]) != '<' by {
                if k < w {
                    assert(is_metadata_word_char(s[k]));
                } else if k < e {
                    assert(is_ascii_space(s[k]));
                }
            }
        }
    }
}

proof fn lemma_count_strip(t: Seq<char>)
    ensures
        count_char(strip_chat_metadata_view(t), '<') == count_char(t, '<'),
{
    lemma_metadata_end_bounds(t, 0);
    lemma_metadata_chars(t, 0);
    let m = metadata_end(t, 0);
    lemma_gt_end_bounds(t, m);
    let g = gt_end(t, m);
    assert forall|j: int| 0 <= j < g implies t[j] != '<' by {
        if j >= m {
            assert(t[j] == '>');
        }
    }
    lemma_count_skip(t, g, '<');
}

proof fn lemma_count_chat_line(l: Seq<char>)
    ensures
        count_char(l, '<') == match chat_line(l) {
            Some(u) => count_char(u, '<'),
            None => 0,
        },
{
    let t = trim(l);
    lemma_count_trim(l);
    if t.len() == 0 {
        lemma_count_none(t, '<');
    } else {
        let u = trim(strip_chat_metadata_view(t));
        lemma_count_strip(t);
        lemma_count_trim(strip_chat_metadata_view(t));
        if u.len() == 0 {
            lemma_count_none(u, '<');
        }
    }
}

proof fn lemma_count_chat_lines_of(ls: Seq<Seq<char>>)
    ensures
        left_angles_in(chat_lines_of(ls)) == left_angles_in(ls),
    decreases ls.len(),
{
    if ls.len() > 0 {
        lemma_count_chat_lines_of(ls.drop_first());
        lemma_count_chat_line(ls[0]);
        match chat_line(ls[0]) {
            Some(u) => {
                let out = seq![u] + chat_lines_of(ls.drop_first());
                assert(out[0] == u);
                assert(out.drop_first() =~= chat_lines_of(ls.drop_first()));
            },
            None => {},
        }
    }
}

proof fn lemma_count_lines_from(s: Seq<char>, from: int)
    requires
        0 <= from <= s.len(),
    ensures
        left_angles_in(crate::util::text::lines_from(s, from)) == count_char(s.subrange(from, s.len() as int), '<'),
    decreases s.len() + 1 - from,
{
    if from == s.len() {
        lemma_count_none(s.subrange(from, s.len() as int), '<');
    } else {
        crate::util::text::lemma_line_end_bounds(s, from);
        let e = crate::util::text::line_end(s, from);
        let l = crate::util::text::line_text(s, from, e);
        let body = s.subrange(from, e);
        let ls = crate::util::text::lines_from(s, from);
        let rest = crate::util::text::lines_from(s, e + 1);
        assert(ls == seq![l] + rest);
        assert(ls[0] == l);
        assert(ls.drop_first() =~= rest);
        assert(left_angles_in(ls) == count_char(l, '<') + left_angles_in(rest));
        assert(count_char(l, '<') == count_char(body, '<')) by {
            if l != body {
                assert(body =~= l + seq!['\r']);
                lemma_count_char_concat(l, seq!['\r'], '<');
                lemma_count_single('\r', '<');
            }
        }
        if e < s.len() {
            lemma_count_lines_from(s, e + 1);
            assert(s.subrange(from, s.len() as int) =~= body + seq!['\n'] + s.subrange(e + 1, s.len() as int));
            lemma_count_char_concat(body + seq!['\n'], s.subrange(e + 1, s.len() as int), '<');
            lemma_count_char_concat(body, seq!['\n'], '<');
            lemma_count_single('\n', '<');
        } else {
            assert(crate::util::text::lines_from(s, e + 1) =~= Seq::<Seq<char>>::empty());
            assert(s.subrange(from, s.len() as int) =~= body);
        }
    }
}

/// Showing a chat-format quotation's lines keeps every `<` of its text: no line is left out,
/// nor any metadata stripped, that holds one.
pub proof fn lemma_chat_lines_keep_left_angle_brackets(text: Seq<char>)
    ensures
        left_angles_in(chat_lines(text)) == count_char(text, '<'),
{
    lemma_count_chat_lines_of(lines_of(text));
    lemma_count_lines_from(text, 0);
    assert(text.subrange(0, text.len() as int) =~= text);
}

/// Metadata of a quotation file.
#[derive(Debug)]
pub struct QuotationFileMetadata {
    /// The file's name.
    pub name: String,
    /// The file's position in the database's list of files.
    pub file_id: QuotationFileId,
    /// The anchored, case-insensitive regex of the channels where the file's quotations may be
    /// shown.
    pub channels_regex: CompiledRegex,
    /// How many quotations the file holds.
    pub quotation_count: usize,
}

impl QuotationFileMetadata {
    /// The position of the file in the database's list of files.
    pub fn array_index(&self) -> (r: usize)
        ensures
            r == self.file_id.0,
    {
        self.file_id.array_index()
    }
}

/// A database of quotations, loaded from quotation files.
#[derive(Debug)]
pub struct QuotationDatabase {
    /// The quotation files, in the order loaded.
    pub files: Vec<QuotationFileMetadata>,
    /// The quotations, in the order loaded.
    pub quotations: Vec<Quotation>,
}

impl QuotationDatabase {
    /// Whether the database is well formed: each file's and each quotation's identifier is its
    /// position, each quotation's file is one of the files, and no quotation's text has more
    /// characters than half the address space (as no string in memory can).
    pub open spec fn wf(&self) -> bool {
        &&& forall|i: int| 0 <= i < self.files@.len() ==> (#[trigger] self.files@[i]).file_id.0 == i
        &&& forall|i: int| 0 <= i < self.quotations@.len() ==> {
            &&& (#[trigger] self.quotations@[i]).id.0 == i
            &&& self.quotations@[i].file_id.0 < self.files@.len()
            &&& self.quotations@[i].text@.len() <= usize::MAX / 2
        }
    }

    /// An empty database.
    pub fn new() -> (r: QuotationDatabase)
        ensures
            r.wf(),
            r.files@.len() == 0,
            r.quotations@.len() == 0,
    {
        QuotationDatabase { files: Vec::new(), quotations: Vec::new() }
    }

    /// The database after a reload whose outcome is `outcome`: the database read, where one
    /// was; this one, unchanged, where there was no quotation directory to read; and an empty
    /// database where the reload failed part way, its error handed back.
    pub fn reloaded<E>(self, outcome: Result<Option<QuotationDatabase>, E>) -> (r: (QuotationDatabase, Option<E>))
        ensures
            match outcome {
                Ok(Some(q)) => r.0 == q && r.1 is None,
                Ok(None) => r.0 == self && r.1 is None,
                Err(e) => r.0.files@.len() == 0 && r.0.quotations@.len() == 0 && r.1 == Some(e),
            },
    {
        match outcome {
            Ok(Some(q)) => (q, None),
            Ok(None) => (self, None),
            Err(e) => (QuotationDatabase::new(), Some(e)),
        }
    }

    /// The metadata of the file with the given identifier, if there is one.
    pub fn get_file_metadata_by_id(&self, id: QuotationFileId) -> (r: Option<&QuotationFileMetadata>)
        ensures
            id.0 < self.files@.len() ==> r == Some(&self.files@[id.0 as int]),
            id.0 >= self.files@.len() ==> r is None,
    {
        if id.array_index() < self.files.len() {
            Some(&self.files[id.array_index()])
        } else {
            None
        }
    }

    /// The quotation with the given identifier, if there is one.
    pub fn get_quotation_by_id(&self, id: QuotationId) -> (r: Option<&Quotation>)
        ensures
            id.0 < self.quotations@.len() ==> r == Some(&self.quotations@[id.0 as int]),
            id.0 >= self.quotations@.len() ==> r is None,
    {
        if id.array_index() < self.quotations.len() {
            Some(&self.quotations[id.array_index()])
        } else {
            None
        }
    }
}

/// The parameters of a `quote` request.
#[derive(Debug)]
pub struct QuoteParams {
    /// Regexes, each of which must match the quotation somewhere.
    pub regexes: Vec<CompiledRegex>,
    /// Strings, each of which must occur in the quotation somewhere.
    pub literals: Vec<String>,
    /// Tags, all of which the quotation must have.
    pub tags: Vec<String>,
    /// The identifier of the quotation requested, as the user wrote it.
    pub id: Option<String>,
    /// The anti-ping tactic requested, overriding the quotations' own.
    pub anti_ping_tactic: Option<AntiPingTactic>,
}

impl QuoteParams {
    /// Parameters that ask for nothing in particular.
    pub fn empty() -> (r: QuoteParams)
        ensures
            r.regexes@.len() == 0,
            r.literals@.len() == 0,
            r.tags@.len() == 0,
            r.id is None,
            r.anti_ping_tactic is None,
    {
        QuoteParams {
            regexes: Vec::new(),
            literals: Vec::new(),
            tags: Vec::new(),
            id: None,
            anti_ping_tactic: None,
        }
    }
}

/// The texts in which a quotation's search terms are sought: its shown lines (chat format) or
/// its text (plain), then its tags.
pub open spec fn haystacks(q: Quotation) -> Seq<Seq<char>> {
    (match q.format {
        QuotationFormat::Chat => chat_lines(q.text@),
        QuotationFormat::Plain => seq![q.text@],
    }) + string_views(q.tags@)
}

/// Whether `tags` holds the tag `wanted`.
pub open spec fn tag_present(tags: Seq<String>, wanted: Seq<char>) -> bool {
    exists|j: int| 0 <= j < tags.len() && #[trigger] tags[j]@ == wanted
}

/// Whether the quotation has every wanted tag.
pub open spec fn has_all_tags(q: Quotation, wanted: Seq<Seq<char>>) -> bool {
    forall|i: int| 0 <= i < wanted.len() ==> #[trigger] tag_present(q.tags@, wanted[i])
}

/// Whether `rx` matches one of `hs`.
pub open spec fn regex_found(rx: CompiledRegex, hs: Seq<Seq<char>>) -> bool {
    exists|h: int| 0 <= h < hs.len() && #[trigger] rx.matches(hs[h])
}

/// Whether `lit` occurs in one of `hs`.
pub open spec fn literal_found(lit: Seq<char>, hs: Seq<Seq<char>>) -> bool {
    exists|h: int| 0 <= h < hs.len() && crate::util::text::contains_seq(#[trigger] hs[h], lit)
}

/// Whether a quotation answers a query: it has every requested tag, and there is at least one
/// text to search in it, and every regex matches and every string occurs in one of its texts
/// (not necessarily the same one).
pub open spec fn query_matches(params: QuoteParams, q: Quotation) -> bool {
    let hs = haystacks(q);
    &&& has_all_tags(q, string_views(params.tags@))
    &&& hs.len() > 0
    &&& forall|r: int| 0 <= r < params.regexes@.len() ==> #[trigger] regex_found(params.regexes@[r], hs)
    &&& forall|l: int| 0 <= l < params.literals@.len() ==> #[trigger] literal_found(params.literals@[l]@, hs)
}

/// Search terms are sought in a quotation's tags too: a quotation with at least one tag, that
/// has every requested tag, and in whose tags every requested regex matches and every requested
/// string occurs (each in some tag), answers the query, whatever its text.
pub proof fn lemma_terms_found_in_tags(params: QuoteParams, q: Quotation)
    requires
        q.tags@.len() > 0,
        forall|i: int| #![trigger params.tags@[i]] 0 <= i < params.tags@.len() ==> exists|j: int| #![trigger q.tags@[j]] 0 <= j < q.tags@.len() && q.tags@[j]@ == params.tags@[i]@,
        forall|r: int| #![trigger params.regexes@[r]] 0 <= r < params.regexes@.len() ==> exists|j: int| #![trigger q.tags@[j]] 0 <= j < q.tags@.len() && params.regexes@[r].matches(q.tags@[j]@),
        forall|l: int| #![trigger params.literals@[l]] 0 <= l < params.literals@.len() ==> exists|j: int| #![trigger q.tags@[j]] 0 <= j < q.tags@.len() && crate::util::text::contains_seq(q.tags@[j]@, params.literals@[l]@),
    ensures
        query_matches(params, q),
{
    let hs = haystacks(q);
    let front = match q.format {
        QuotationFormat::Chat => chat_lines(q.text@),
        QuotationFormat::Plain => seq![q.text@],
    };
    assert(hs == front + string_views(q.tags@));
    assert forall|j: int| 0 <= j < q.tags@.len() implies #[trigger] hs[front.len() as int + j] == q.tags@[j]@ by {}
    assert(hs[front.len() as int + 0] == q.tags@[0]@);
    assert forall|i: int| 0 <= i < params.tags@.len() implies #[trigger] tag_present(q.tags@, string_views(params.tags@)[i]) by {
        let j = choose|j: int| #![trigger q.tags@[j]] 0 <= j < q.tags@.len() && q.tags@[j]@ == params.tags@[i]@;
        assert(q.tags@[j]@ == string_views(params.tags@)[i]);
    }
    assert forall|r: int| 0 <= r < params.regexes@.len() implies #[trigger] regex_found(params.regexes@[r], hs) by {
        let j = choose|j: int| #![trigger q.tags@[j]] 0 <= j < q.tags@.len() && params.regexes@[r].matches(q.tags@[j]@);
        assert(hs[front.len() as int + j] == q.tags@[j]@);
    }
    assert forall|l: int| 0 <= l < params.literals@.len() implies #[trigger] literal_found(params.literals@[l]@, hs) by {
        let j = choose|j: int| #![trigger q.tags@[j]] 0 <= j < q.tags@.len() && crate::util::text::contains_seq(q.tags@[j]@, params.literals@[l]@);
        assert(hs[front.len() as int + j] == q.tags@[j]@);
    }
}

fn has_tag(tags: &Vec<String>, wanted: &String) -> (r: bool)
    ensures
        r == tag_present(tags@, wanted@),
{
    let mut j: usize = 0;
    while j < tags.len()
        invariant
            j <= tags@.len(),
            forall|k: int| 0 <= k < j ==> (#[trigger] tags@[k])@ != wanted@,
        decreases tags@.len() - j,
    {
        if tags[j] == *wanted {
            return true;
        }
        j += 1;
    }
    false
}

fn all_true(flags: &Vec<bool>) -> (r: bool)
    ensures
        r == forall|i: int| 0 <= i < flags@.len() ==> #[trigger] flags@[i],
{
    let mut i: usize = 0;
    while i < flags.len()
        invariant
            i <= flags@.len(),
            forall|k: int| 0 <= k < i ==> #[trigger] flags@[k],
        decreases flags@.len() - i,
    {
        if !flags[i] {
            return false;
        }
        i += 1;
    }
    true
}

/// Whether a quotation answers a query: it has every requested tag, and every regex matches
/// and every string occurs somewhere in its shown lines (chat format) or its text (plain), or
/// in its tags, not necessarily all in the same place. A quotation with nothing to search in
/// answers no query.
pub fn quotation_matches_query_params(params: &QuoteParams, quotation: &Quotation) -> (r: bool)
    ensures
        r == query_matches(*params, *quotation),
{
    let ghost wanted = string_views(params.tags@);
    let mut t: usize = 0;
    while t < params.tags.len()
        invariant
            wanted == string_views(params.tags@),
            t <= params.tags@.len(),
            forall|i: int| 0 <= i < t ==> #[trigger] tag_present(quotation.tags@, wanted[i]),
        decreases params.tags@.len() - t,
    {
        assert(wanted[t as int] == params.tags@[t as int]@);
        if !has_tag(&quotation.tags, &params.tags[t]) {
            return false;
        }
        t += 1;
    }
    let mut hs: Vec<String> = match quotation.format {
        QuotationFormat::Chat => chat_lines_stripped(quotation.text.as_str()),
        QuotationFormat::Plain => {
            let v = vec![quotation.text.clone()];
            assert(string_views(v@) =~= seq![quotation.text@]);
            v
        },
    };
    let ghost first = string_views(hs@);
    let mut k: usize = 0;
    assert(string_views(quotation.tags@).take(0) =~= Seq::<Seq<char>>::empty());
    assert(first =~= first + string_views(quotation.tags@).take(0));
    while k < quotation.tags.len()
        invariant
            k <= quotation.tags@.len(),
            string_views(hs@) == first + string_views(quotation.tags@).take(k as int),
        decreases quotation.tags@.len() - k,
    {
        let ghost old_hs = hs@;
        let tag = quotation.tags[k].clone();
        assert(tag@ == quotation.tags@[k as int]@);
        hs.push(tag);
        assert(string_views(hs@) =~= string_views(old_hs).push(tag@));
        assert(string_views(quotation.tags@).take(k + 1) =~= string_views(quotation.tags@).take(k as int).push(tag@));
        k += 1;
        assert(string_views(hs@) =~= first + string_views(quotation.tags@).take(k as int));
    }
    assert(string_views(quotation.tags@).take(k as int) =~= string_views(quotation.tags@));
    let ghost hv = haystacks(*quotation);
    assert(string_views(hs@) == hv);
    let nr = params.regexes.len();
    let nl = params.literals.len();
    let mut rx_found: Vec<bool> = vec![false; nr];
    let mut lit_found: Vec<bool> = vec![false; nl];
    let mut h: usize = 0;
    while h < hs.len()
        invariant
            string_views(hs@) == hv,
            hv == haystacks(*quotation),
            has_all_tags(*quotation, string_views(params.tags@)),
            nr == params.regexes@.len(),
            nl == params.literals@.len(),
            rx_found@.len() == nr,
            lit_found@.len() == nl,
            h <= hs@.len(),
            forall|i: int| 0 <= i < nr ==> #[trigger] rx_found@[i] == regex_found(params.regexes@[i], hv.take(h as int)),
            forall|i: int| 0 <= i < nl ==> #[trigger] lit_found@[i] == literal_found(params.literals@[i]@, hv.take(h as int)),
            h > 0 ==> !((forall|i: int| 0 <= i < nr ==> #[trigger] rx_found@[i]) && (forall|i: int| 0 <= i < nl ==> #[trigger] lit_found@[i])),
        decreases hs@.len() - h,
    {
        let hay = hs[h].as_str();
        assert(hay@ == hv[h as int]);
        let ghost before = hv.take(h as int);
        let ghost after = hv.take(h + 1);
        assert(after =~= before.push(hv[h as int]));
        let mut i: usize = 0;
        while i < nr
            invariant
                hay@ == hv[h as int],
                after == before.push(hv[h as int]),
                nr == params.regexes@.len(),
                rx_found@.len() == nr,
                i <= nr,
                forall|x: int| 0 <= x < i ==> #[trigger] rx_found@[x] == regex_found(params.regexes@[x], after),
                forall|x: int| i <= x < nr ==> #[trigger] rx_found@[x] == regex_found(params.regexes@[x], before),
            decreases nr - i,
        {
            let ghost rx = params.regexes@[i as int];
            assert(regex_found(rx, after) == (regex_found(rx, before) || rx.matches(hv[h as int]))) by {
                if regex_found(rx, after) {
                    let j = choose|j: int| 0 <= j < after.len() && #[trigger] rx.matches(after[j]);
                    if j < before.len() {
                        assert(before[j] == after[j]);
                    }
                }
                if regex_found(rx, before) {
                    let j = choose|j: int| 0 <= j < before.len() && #[trigger] rx.matches(before[j]);
                    assert(after[j] == before[j]);
                }
                if rx.matches(hv[h as int]) {
                    assert(after[before.len() as int] == hv[h as int]);
                }
            }
            if !rx_found[i] && params.regexes[i].is_match(hay) {
                rx_found.set(i, true);
            }
            i += 1;
        }
        let mut i: usize = 0;
        while i < nl
            invariant
                hay@ == hv[h as int],
                after == before.push(hv[h as int]),
                nl == params.literals@.len(),
                lit_found@.len() == nl,
                i <= nl,
                forall|x: int| 0 <= x < i ==> #[trigger] lit_found@[x] == literal_found(params.literals@[x]@, after),
                forall|x: int| i <= x < nl ==> #[trigger] lit_found@[x] == literal_found(params.literals@[x]@, before),
            decreases nl - i,
        {
            let ghost lit = params.literals@[i as int]@;
            assert(literal_found(lit, after) == (literal_found(lit, before) || crate::util::text::contains_seq(hv[h as int], lit))) by {
                if literal_found(lit, after) {
                    let j = choose|j: int| 0 <= j < after.len() && crate::util::text::contains_seq(#[trigger] after[j], lit);
                    if j < before.len() {
                        assert(before[j] == after[j]);
                    }
                }
                if literal_found(lit, before) {
                    let j = choose|j: int| 0 <= j < before.len() && crate::util::text::contains_seq(#[trigger] before[j], lit);
                    assert(after[j] == before[j]);
                }
                if crate::util::text::contains_seq(hv[h as int], lit) {
                    assert(after[before.len() as int] == hv[h as int]);
                }
            }
            if !lit_found[i] && crate::util::text::str_contains(hay, params.literals[i].as_str()) {
                lit_found.set(i, true);
            }
            i += 1;
        }
        if all_true(&rx_found) && all_true(&lit_found) {
            assert forall|r: int| 0 <= r < params.regexes@.len() implies #[trigger] regex_found(params.regexes@[r], hv) by {
                assert(rx_found@[r]);
                let j = choose|j: int| 0 <= j < after.len() && #[trigger] params.regexes@[r].matches(after[j]);
                assert(after[j] == hv[j]);
            }
            assert forall|l: int| 0 <= l < params.literals@.len() implies #[trigger] literal_found(params.literals@[l]@, hv) by {
                assert(lit_found@[l]);
                let j = choose|j: int| 0 <= j < after.len() && crate::util::text::contains_seq(#[trigger] after[j], params.literals@[l]@);
                assert(after[j] == hv[j]);
            }
            return true;
        }
        h += 1;
    }
    assert(hv.take(h as int) =~= hv);
    false
}

/// Whether the file `fid` may be shown, given the permissions of the files in order.
pub open spec fn permitted(perms: Seq<bool>, fid: usize) -> bool {
    fid < perms.len() && perms[fid as int]
}

/// For each file of the database in order, whether its channel regex matches `target`.
pub open spec fn file_permissions(qdb: QuotationDatabase, target: Seq<char>) -> Seq<bool> {
    Seq::new(qdb.files@.len(), |i: int| qdb.files@[i].channels_regex.matches(target))
}

/// Which files' quotations may be shown in the channel `target`: for each file in order,
/// whether its channel regex matches `target`.
pub fn check_file_permissions(qdb: &QuotationDatabase, target: &str) -> (r: Vec<bool>)
    ensures
        r@.len() == qdb.files@.len(),
        forall|i: int| 0 <= i < r@.len() ==> #[trigger] r@[i] == qdb.files@[i].channels_regex.matches(target@),
{
    let mut r: Vec<bool> = Vec::new();
    let mut i: usize = 0;
    while i < qdb.files.len()
        invariant
            i <= qdb.files@.len(),
            r@.len() == i,
            forall|k: int| 0 <= k < i ==> #[trigger] r@[k] == qdb.files@[k].channels_regex.matches(target@),
        decreases qdb.files@.len() - i,
    {
        r.push(qdb.files[i].channels_regex.is_match(target));
        i += 1;
    }
    r
}

/// What the bot does with a quotation that it finds.
#[derive(Clone, Copy, Debug, PartialEq, Eq, Structural)]
pub enum QuotationChoice {
    /// Post the text of the quotation at this index.
    Text(usize),
    /// Post the URL of the quotation at this index, its text being too long.
    Url(usize),
}

/// How one candidate quotation fares.
#[derive(Clone, Copy, Debug, PartialEq, Eq, Structural)]
pub enum Verdict {
    /// It does not answer the query, may not be shown here, or would ping someone present under
    /// the tactic `Eschew`.
    Skip,
    /// It is too long to post here and has no URL.
    TooLong,
    /// It is too long to post here; its URL is posted instead.
    Url,
    /// Its text is posted.
    Text,
}

/// How a candidate quotation fares: it must answer the query and come from a file that may be
/// shown here; if it is too long for `max_len` bytes, its URL is posted where it has one; and
/// under the tactic `Eschew` it must not name anyone present.
pub open spec fn verdict(
    params: QuoteParams,
    q: Quotation,
    perms: Seq<bool>,
    nicks: Seq<Seq<char>>,
    max_len: nat,
) -> Verdict {
    if !query_matches(params, q) || !permitted(perms, q.file_id.0) {
        Verdict::Skip
    } else if rendered_byte_len_of(q) > max_len {
        if q.url is Some {
            Verdict::Url
        } else {
            Verdict::TooLong
        }
    } else if effective_tactic(params.anti_ping_tactic, q.anti_ping_tactic) == AntiPingTactic::Eschew
        && text_contains_any(q.format, q.text@, nicks) {
        Verdict::Skip
    } else {
        Verdict::Text
    }
}

/// The first candidate, in `order`, whose text or URL is posted; or, where there is none,
/// whether some candidate was too long.
pub open spec fn pick_in_order(
    order: Seq<usize>,
    qs: Seq<Quotation>,
    params: QuoteParams,
    perms: Seq<bool>,
    nicks: Seq<Seq<char>>,
    max_len: nat,
) -> Result<QuotationChoice, bool>
    decreases order.len(),
{
    if order.len() == 0 {
        Err(false)
    } else {
        let i = order[0];
        let rest = pick_in_order(order.drop_first(), qs, params, perms, nicks, max_len);
        match verdict(params, qs[i as int], perms, nicks, max_len) {
            Verdict::Text => Ok(QuotationChoice::Text(i)),
            Verdict::Url => Ok(QuotationChoice::Url(i)),
            Verdict::TooLong => match rest {
                Ok(c) => Ok(c),
                Err(_) => Err(true),
            },
            Verdict::Skip => rest,
        }
    }
}

/// The reply where no quotation can be posted.
pub open spec fn no_quotation_msg(rejected_for_length: bool) -> Seq<char> {
    if rejected_for_length {
        "I have found one or more quotations matching the given query parameters in the files I am allowed to quote in this channel, but all such quotations were too long to quote safely in this channel."@
    } else {
        "I have found no quotation matching the given query parameters in the files I am allowed to quote in this channel."@
    }
}

fn quotation_verdict(
    params: &QuoteParams,
    q: &Quotation,
    perms: &Vec<bool>,
    nicks: &[String],
    max_len: usize,
) -> (r: Verdict)
    ensures
        r == verdict(*params, *q, perms@, string_views(nicks@), max_len as nat),
{
    if !quotation_matches_query_params(params, q) {
        return Verdict::Skip;
    }
    let fid = q.file_id.array_index();
    if fid >= perms.len() || !perms[fid] {
        return Verdict::Skip;
    }
    if rendered_byte_len_exceeds(q, max_len) {
        return match q.url {
            Some(_) => Verdict::Url,
            None => Verdict::TooLong,
        };
    }
    let tactic = match params.anti_ping_tactic {
        Some(t) => t,
        None => q.anti_ping_tactic,
    };
    match tactic {
        AntiPingTactic::Eschew => {
            if quotation_text_contains_any(q, nicks) {
                return Verdict::Skip;
            }
        },
        _ => {},
    }
    Verdict::Text
}

/// Whether a quotation, as posted without munging, is longer than `max_len` bytes.
/// A quotation whose anti-ping tactic in force (the one requested, else its own) is `Eschew`
/// is never posted as text while a present user's nickname occurs in what would be shown of
/// it: one of its shown lines (chat format) or its text (plain).
pub proof fn lemma_eschew_spares_present_users(
    params: QuoteParams,
    q: Quotation,
    perms: Seq<bool>,
    nicks: Seq<Seq<char>>,
    max_len: nat,
    n: int,
)
    requires
        (match params.anti_ping_tactic {
            Some(t) => t,
            None => q.anti_ping_tactic,
        }) == AntiPingTactic::Eschew,
        0 <= n < nicks.len(),
        match q.format {
            QuotationFormat::Chat => exists|j: int| 0 <= j < chat_lines(q.text@).len() && crate::util::text::contains_seq(#[trigger] chat_lines(q.text@)[j], nicks[n]),
            QuotationFormat::Plain => crate::util::text::contains_seq(q.text@, nicks[n]),
        },
    ensures
        verdict(params, q, perms, nicks, max_len) != Verdict::Text,
{
    match q.format {
        QuotationFormat::Chat => {
            let j = choose|j: int| 0 <= j < chat_lines(q.text@).len() && crate::util::text::contains_seq(#[trigger] chat_lines(q.text@)[j], nicks[n]);
            assert(crate::util::text::contains_seq(chat_lines(q.text@)[j], nicks[n]));
            assert(text_contains_any(q.format, q.text@, nicks));
        },
        QuotationFormat::Plain => {
            assert(crate::util::text::contains_seq(q.text@, nicks[n]));
            assert(text_contains_any(q.format, q.text@, nicks));
        },
    }
}

fn rendered_byte_len_exceeds(q: &Quotation, max_len: usize) -> (r: bool)
    ensures
        r == (rendered_byte_len_of(*q) > max_len),
{
    let cs = chars_of(q.text.as_str());
    let b: usize = match q.format {
        QuotationFormat::Chat => {
            let lines = chat_lines_stripped(q.text.as_str());
            let ghost ls = chat_lines(q.text@);
            let mut total: usize = 0;
            let mut k: usize = 0;
            assert(ls.take(0) =~= Seq::<Seq<char>>::empty());
            while k < lines.len()
                invariant
                    string_views(lines@) == ls,
                    k <= lines@.len(),
                    total == crate::util::text::saturated(lines_bytes_plus_one(ls.take(k as int))),
                decreases lines@.len() - k,
            {
                proof {
                    lemma_lines_bytes_take(ls, k as int);
                    assert(ls[k as int] == lines@[k as int]@);
                }
                let lc = chars_of(lines[k].as_str());
                let l = crate::util::text::byte_len_saturating(lc.as_slice());
                total = total.saturating_add(l).saturating_add(1);
                k += 1;
            }
            assert(ls.take(k as int) =~= ls);
            if total == 0 {
                0
            } else {
                total - 1
            }
        },
        QuotationFormat::Plain => crate::util::text::byte_len_saturating(cs.as_slice()),
    };
    let ghost real_b = quotation_byte_len_of(q.format, q.text@);
    assert(b <= real_b && (b < usize::MAX - 2 ==> b == real_b));
    if b >= usize::MAX - 2 {
        return true;
    }
    let id = q.id.to_string();
    let n = chars_of(id.as_str()).len();
    match (b + 3).checked_add(n) {
        Some(total) => total > max_len,
        None => true,
    }
}

/// Whether any of `nicks` occurs in the quotation's shown lines (chat format) or text (plain).
pub fn quotation_text_contains_any(quotation: &Quotation, nicks: &[String]) -> (r: bool)
    ensures
        r == text_contains_any(quotation.format, quotation.text@, string_views(nicks@)),
{
    let ghost nv = string_views(nicks@);
    match quotation.format {
        QuotationFormat::Chat => {
            let lines = chat_lines_stripped(quotation.text.as_str());
            let ghost ls = chat_lines(quotation.text@);
            let mut i: usize = 0;
            while i < nicks.len()
                invariant
                    quotation.format == QuotationFormat::Chat,
                    nv == string_views(nicks@),
                    string_views(lines@) == ls,
                    ls == chat_lines(quotation.text@),
                    i <= nicks@.len(),
                    forall|a: int, b: int| 0 <= a < i && 0 <= b < ls.len() ==> !crate::util::text::contains_seq(#[trigger] ls[b], #[trigger] nv[a]),
                decreases nicks@.len() - i,
            {
                let mut j: usize = 0;
                while j < lines.len()
                    invariant
                        quotation.format == QuotationFormat::Chat,
                        nv == string_views(nicks@),
                        string_views(lines@) == ls,
                        ls == chat_lines(quotation.text@),
                        i < nicks@.len(),
                        j <= lines@.len(),
                        forall|a: int, b: int| 0 <= a < i && 0 <= b < ls.len() ==> !crate::util::text::contains_seq(#[trigger] ls[b], #[trigger] nv[a]),
                        forall|b: int| 0 <= b < j ==> !crate::util::text::contains_seq(#[trigger] ls[b], nv[i as int]),
                    decreases lines@.len() - j,
                {
                    if crate::util::text::str_contains(lines[j].as_str(), nicks[i].as_str()) {
                        assert(lines@[j as int]@ == ls[j as int]);
                        assert(nicks@[i as int]@ == nv[i as int]);
                        assert(crate::util::text::contains_seq(
                            chat_lines(quotation.text@)[j as int],
                            string_views(nicks@)[i as int],
                        ));
                        return true;
                    }
                    assert(lines@[j as int]@ == ls[j as int]);
                    assert(nicks@[i as int]@ == nv[i as int]);
                    j += 1;
                }
                i += 1;
            }
            false
        },
        QuotationFormat::Plain => {
            let mut i: usize = 0;
            while i < nicks.len()
                invariant
                    quotation.format == QuotationFormat::Plain,
                    nv == string_views(nicks@),
                    i <= nicks@.len(),
                    forall|a: int| 0 <= a < i ==> !crate::util::text::contains_seq(quotation.text@, #[trigger] nv[a]),
                decreases nicks@.len() - i,
            {
                assert(nicks@[i as int]@ == nv[i as int]);
                if crate::util::text::str_contains(quotation.text.as_str(), nicks[i].as_str()) {
                    assert(crate::util::text::contains_seq(quotation.text@, string_views(nicks@)[i as int]));
                    return true;
                }
                i += 1;
            }
            false
        },
    }
}

/// Picks the first candidate, in `order`, whose text or URL can be posted in a reply of at most
/// `max_len` bytes to `target`, where users with the nicknames `nicks` are present. Where there
/// is none, the error is the reply saying so.
pub fn pick_quotation_in_order(
    params: &QuoteParams,
    qdb: &QuotationDatabase,
    target: &str,
    nicks: &[String],
    max_len: usize,
    order: &[usize],
) -> (r: Result<QuotationChoice, BotCmdResult>)
    requires
        forall|k: int| 0 <= k < order@.len() ==> #[trigger] order@[k] < qdb.quotations@.len(),
    ensures
        ({
            match pick_in_order(order@, qdb.quotations@, *params, file_permissions(*qdb, target@), string_views(nicks@), max_len as nat) {
                Ok(c) => r == Ok::<QuotationChoice, BotCmdResult>(c),
                Err(rejected) => r matches Err(BotCmdResult::Done(Reaction::Reply(m))) && m@ == no_quotation_msg(rejected),
            }
        }),
{
    let perms = check_file_permissions(qdb, target);
    let ghost pv = file_permissions(*qdb, target@);
    assert(perms@ =~= pv);
    let ghost nv = string_views(nicks@);
    let mut rejected = false;
    let mut k: usize = 0;
    assert(order@.skip(0) =~= order@);
    while k < order.len()
        invariant
            perms@ == pv,
            pv == file_permissions(*qdb, target@),
            nv == string_views(nicks@),
            forall|x: int| 0 <= x < order@.len() ==> #[trigger] order@[x] < qdb.quotations@.len(),
            k <= order@.len(),
            pick_in_order(order@, qdb.quotations@, *params, pv, nv, max_len as nat) == match pick_in_order(
                order@.skip(k as int),
                qdb.quotations@,
                *params,
                pv,
                nv,
                max_len as nat,
            ) {
                Ok(c) => Ok(c),
                Err(rej) => Err(rej || rejected),
            },
        decreases order@.len() - k,
    {
        let i = order[k];
        let ghost rest = order@.skip(k as int);
        assert(rest[0] == i);
        assert(rest.drop_first() =~= order@.skip(k + 1));
        let v = quotation_verdict(params, &qdb.quotations[i], &perms, nicks, max_len);
        assert(pick_in_order(rest, qdb.quotations@, *params, pv, nv, max_len as nat) == match v {
            Verdict::Text => Ok(QuotationChoice::Text(i)),
            Verdict::Url => Ok(QuotationChoice::Url(i)),
            Verdict::TooLong => match pick_in_order(order@.skip(k + 1), qdb.quotations@, *params, pv, nv, max_len as nat) {
                Ok(c) => Ok(c),
                Err(_) => Err(true),
            },
            Verdict::Skip => pick_in_order(order@.skip(k + 1), qdb.quotations@, *params, pv, nv, max_len as nat),
        });
        match v {
            Verdict::Text => {
                return Ok(QuotationChoice::Text(i));
            },
            Verdict::Url => {
                return Ok(QuotationChoice::Url(i));
            },
            Verdict::TooLong => {
                rejected = true;
            },
            Verdict::Skip => {},
        }
        k += 1;
    }
    assert(order@.skip(k as int).len() == 0);
    let msg = if rejected {
        "I have found one or more quotations matching the given query parameters in the files I am allowed to quote in this channel, but all such quotations were too long to quote safely in this channel."
    } else {
        "I have found no quotation matching the given query parameters in the files I am allowed to quote in this channel."
    };
    Err(BotCmdResult::Done(Reaction::Reply(msg.to_owned())))
}

/// The reply to an `id` that names no quotation in the database.
pub open spec fn id_not_found_msg(input: Seq<char>) -> Seq<char> {
    "The given value of the parameter `id`, "@ + crate::util::text::debug_quoted(input)
        + ", was not recognized as the identifier of a quotation in my quotation database."@
}

/// The reply to an `id` that does not parse as a quotation identifier.
pub open spec fn id_unparsable_msg(input: Seq<char>, e: ParseIdError) -> Seq<char> {
    "The given value of the parameter `id`, "@ + crate::util::text::debug_quoted(input)
        + ", failed to parse as a quotation identifier: "@ + parse_error_message(e)
}

/// Finds the quotation whose identifier a user wrote, and gives its index, or else the user
/// error to reply with.
pub fn get_quotation_by_user_specified_id(qdb: &QuotationDatabase, requested_quotation_id_str: &str) -> (r: Result<usize, BotCmdResult>)
    ensures
        match parse_id_outcome(requested_quotation_id_str@) {
            Ok(n) => if n < qdb.quotations@.len() {
                r == Ok::<usize, BotCmdResult>(n as usize)
            } else {
                r matches Err(BotCmdResult::UserErrMsg(m)) && m@ == id_not_found_msg(requested_quotation_id_str@)
            },
            Err(e) => r matches Err(BotCmdResult::UserErrMsg(m)) && m@ == id_unparsable_msg(requested_quotation_id_str@, e),
        },
{
    proof {
        lemma_quotation_id_roundtrip(0, requested_quotation_id_str@);
    }
    match QuotationId::parse_str(requested_quotation_id_str) {
        Ok(id) => {
            match qdb.get_quotation_by_id(id) {
                Some(_) => Ok(id.array_index()),
                None => {
                    let mut acc: Vec<char> = Vec::new();
                    push_str_chars(&mut acc, "The given value of the parameter `id`, ");
                    push_str_chars(&mut acc, crate::util::text::debug_str(requested_quotation_id_str).as_str());
                    push_str_chars(&mut acc, ", was not recognized as the identifier of a quotation in my quotation database.");
                    Err(BotCmdResult::UserErrMsg(string_from_chars(acc.as_slice())))
                },
            }
        },
        Err(e) => {
            let mut acc: Vec<char> = Vec::new();
            push_str_chars(&mut acc, "The given value of the parameter `id`, ");
            push_str_chars(&mut acc, crate::util::text::debug_str(requested_quotation_id_str).as_str());
            push_str_chars(&mut acc, ", failed to parse as a quotation identifier: ");
            push_str_chars(&mut acc, e.message());
            Err(BotCmdResult::UserErrMsg(string_from_chars(acc.as_slice())))
        },
    }
}

/// The indices of the quotations that a request considers: the one it names by `id`, or else
/// all of them; or the user error to reply with.
pub open spec fn candidates_outcome(params: QuoteParams, qdb: QuotationDatabase) -> Result<Seq<usize>, Seq<char>> {
    match params.id {
        Some(s) => match parse_id_outcome(s@) {
            Ok(n) => if n < qdb.quotations@.len() {
                Ok(seq![n as usize])
            } else {
                Err(id_not_found_msg(s@))
            },
            Err(e) => Err(id_unparsable_msg(s@, e)),
        },
        None => Ok(Seq::new(qdb.quotations@.len(), |i: int| i as usize)),
    }
}

/// The indices of the quotations that a request considers: the one it names by `id`, or else
/// all of them; or the user error to reply with.
pub fn candidate_indices(params: &QuoteParams, qdb: &QuotationDatabase) -> (r: Result<Vec<usize>, BotCmdResult>)
    ensures
        match candidates_outcome(*params, *qdb) {
            Ok(cs) => r matches Ok(v) && v@ == cs,
            Err(m) => r matches Err(BotCmdResult::UserErrMsg(x)) && x@ == m,
        },
{
    match &params.id {
        Some(s) => {
            match get_quotation_by_user_specified_id(qdb, s.as_str()) {
                Ok(i) => {
                    let v = vec![i];
                    assert(v@ =~= seq![i]);
                    Ok(v)
                },
                Err(e) => Err(e),
            }
        },
        None => {
            let n = qdb.quotations.len();
            let mut v: Vec<usize> = Vec::new();
            let mut i: usize = 0;
            while i < n
                invariant
                    n == qdb.quotations@.len(),
                    i <= n,
                    v@ =~= Seq::new(i as nat, |k: int| k as usize),
                decreases n - i,
            {
                v.push(i);
                i += 1;
            }
            Ok(v)
        },
    }
}

proof fn lemma_pick_in_order_facts(
    order: Seq<usize>,
    qs: Seq<Quotation>,
    params: QuoteParams,
    perms: Seq<bool>,
    nicks: Seq<Seq<char>>,
    max_len: nat,
)
    ensures
        ({
            let v = |i: usize| verdict(params, qs[i as int], perms, nicks, max_len);
            match pick_in_order(order, qs, params, perms, nicks, max_len) {
                Ok(QuotationChoice::Text(i)) => order.contains(i) && v(i) == Verdict::Text,
                Ok(QuotationChoice::Url(i)) => order.contains(i) && v(i) == Verdict::Url,
                Err(rej) => (forall|k: int| 0 <= k < order.len() ==> v(#[trigger] order[k]) != Verdict::Text && v(order[k]) != Verdict::Url)
                    && (rej <==> exists|k: int| 0 <= k < order.len() && v(#[trigger] order[k]) == Verdict::TooLong),
            }
        }),
    decreases order.len(),
{
    if order.len() > 0 {
        let rest = order.drop_first();
        lemma_pick_in_order_facts(rest, qs, params, perms, nicks, max_len);
        let v = |i: usize| verdict(params, qs[i as int], perms, nicks, max_len);
        assert forall|k: int| 0 <= k < rest.len() implies #[trigger] rest[k] == order[k + 1] by {}
        match pick_in_order(order, qs, params, perms, nicks, max_len) {
            Ok(QuotationChoice::Text(i)) => {
                if v(order[0]) != Verdict::Text {
                    assert(rest.contains(i));
                    let k = choose|k: int| 0 <= k < rest.len() && rest[k] == i;
                    assert(order[k + 1] == i);
                }
                assert(order[0] == order[0]);
            },
            Ok(QuotationChoice::Url(i)) => {
                if v(order[0]) != Verdict::Url {
                    assert(rest.contains(i));
                    let k = choose|k: int| 0 <= k < rest.len() && rest[k] == i;
                    assert(order[k + 1] == i);
                }
            },
            Err(rej) => {
                assert forall|k: int| 0 <= k < order.len() implies v(#[trigger] order[k]) != Verdict::Text && v(order[k]) != Verdict::Url by {
                    if k > 0 {
                        assert(order[k] == rest[k - 1]);
                    }
                }
                if exists|k: int| 0 <= k < order.len() && v(#[trigger] order[k]) == Verdict::TooLong {
                    let k = choose|k: int| 0 <= k < order.len() && v(#[trigger] order[k]) == Verdict::TooLong;
                    if k > 0 {
                        assert(rest[k - 1] == order[k]);
                    }
                }
                if exists|k: int| 0 <= k < rest.len() && v(#[trigger] rest[k]) == Verdict::TooLong {
                    let k = choose|k: int| 0 <= k < rest.len() && v(#[trigger] rest[k]) == Verdict::TooLong;
                    assert(order[k + 1] == rest[k]);
                }
            },
        }
    }
}

proof fn lemma_candidates_bounded(params: QuoteParams, qdb: QuotationDatabase)
    ensures
        candidates_outcome(params, qdb) matches Ok(cs) ==> forall|k: int| 0 <= k < cs.len() ==> #[trigger] cs[k] < qdb.quotations@.len(),
{
    match params.id {
        Some(s) => {
            lemma_quotation_id_roundtrip(0, s@);
        },
        None => {},
    }
}

proof fn lemma_permuted_pick(
    order: Seq<usize>,
    cs: Seq<usize>,
    qs: Seq<Quotation>,
    params: QuoteParams,
    perms: Seq<bool>,
    nicks: Seq<Seq<char>>,
    max_len: nat,
)
    requires
        order.to_multiset() == cs.to_multiset(),
    ensures
        ({
            let v = |i: usize| verdict(params, qs[i as int], perms, nicks, max_len);
            match pick_in_order(order, qs, params, perms, nicks, max_len) {
                Ok(QuotationChoice::Text(i)) => cs.contains(i) && v(i) == Verdict::Text,
                Ok(QuotationChoice::Url(i)) => cs.contains(i) && v(i) == Verdict::Url,
                Err(rej) => (forall|k: int| 0 <= k < cs.len() ==> v(#[trigger] cs[k]) != Verdict::Text && v(cs[k]) != Verdict::Url)
                    && (rej <==> exists|k: int| 0 <= k < cs.len() && v(#[trigger] cs[k]) == Verdict::TooLong),
            }
        }),
{
    let v = |i: usize| verdict(params, qs[i as int], perms, nicks, max_len);
    lemma_pick_in_order_facts(order, qs, params, perms, nicks, max_len);
    match pick_in_order(order, qs, params, perms, nicks, max_len) {
        Ok(QuotationChoice::Text(i)) => {
            lemma_same_multiset_contains(order, cs, i);
        },
        Ok(QuotationChoice::Url(i)) => {
            lemma_same_multiset_contains(order, cs, i);
        },
        Err(rej) => {
            assert forall|k: int| 0 <= k < cs.len() implies v(#[trigger] cs[k]) != Verdict::Text && v(cs[k]) != Verdict::Url by {
                lemma_same_multiset_contains(order, cs, cs[k]);
                assert(cs.contains(cs[k]));
                let j = choose|j: int| 0 <= j < order.len() && order[j] == cs[k];
                assert(v(order[j]) != Verdict::Text);
            }
            if exists|k: int| 0 <= k < cs.len() && v(#[trigger] cs[k]) == Verdict::TooLong {
                let k = choose|k: int| 0 <= k < cs.len() && v(#[trigger] cs[k]) == Verdict::TooLong;
                lemma_same_multiset_contains(order, cs, cs[k]);
                assert(cs.contains(cs[k]));
                let j = choose|j: int| 0 <= j < order.len() && order[j] == cs[k];
                assert(v(order[j]) == Verdict::TooLong);
            }
            if rej {
                let j = choose|j: int| 0 <= j < order.len() && v(#[trigger] order[j]) == Verdict::TooLong;
                lemma_same_multiset_contains(order, cs, order[j]);
                assert(order.contains(order[j]));
                let k = choose|k: int| 0 <= k < cs.len() && cs[k] == order[j];
                assert(v(cs[k]) == Verdict::TooLong);
            }
        },
    }
}

/// Picks a quotation for a request: among the candidates (the quotation named by `id`, or
/// else all), in an order chosen at random, the first whose text, or else URL, can be posted in
/// a reply of at most `max_len` bytes to `target`, where users with the nicknames `nicks` are
/// present. The error is the user error of a bad `id`, or the reply saying that no quotation
/// could be posted.
pub fn pick_quotation(
    params: &QuoteParams,
    qdb: &QuotationDatabase,
    target: &str,
    nicks: &[String],
    max_len: usize,
) -> (r: Result<QuotationChoice, BotCmdResult>)
    ensures
        ({
            let perms = file_permissions(*qdb, target@);
            let v = |i: usize| verdict(*params, qdb.quotations@[i as int], perms, string_views(nicks@), max_len as nat);
            match candidates_outcome(*params, *qdb) {
                Err(m) => r matches Err(BotCmdResult::UserErrMsg(x)) && x@ == m,
                Ok(cs) => {
                    &&& r matches Ok(QuotationChoice::Text(i)) ==> cs.contains(i) && v(i) == Verdict::Text
                    &&& r matches Ok(QuotationChoice::Url(i)) ==> cs.contains(i) && v(i) == Verdict::Url
                    &&& r is Err <==> (forall|k: int| 0 <= k < cs.len() ==> v(#[trigger] cs[k]) != Verdict::Text && v(cs[k]) != Verdict::Url)
                    &&& r is Err ==> (r matches Err(BotCmdResult::Done(Reaction::Reply(m))) && m@ == no_quotation_msg(
                        exists|k: int| 0 <= k < cs.len() && v(#[trigger] cs[k]) == Verdict::TooLong))
                },
            }
        }),
{
    let cands = match candidate_indices(params, qdb) {
        Ok(c) => c,
        Err(e) => {
            return Err(e);
        },
    };
    let ghost cs = cands@;
    let order = random_order(cands.as_slice());
    proof {
        lemma_candidates_bounded(*params, *qdb);
        assert forall|k: int| 0 <= k < order@.len() implies #[trigger] order@[k] < qdb.quotations@.len() by {
            lemma_same_multiset_contains(order@, cs, order@[k]);
            assert(order@.contains(order@[k]));
            let j = choose|j: int| 0 <= j < cs.len() && cs[j] == order@[k];
        }
    }
    let r = pick_quotation_in_order(params, qdb, target, nicks, max_len, order.as_slice());
    proof {
        lemma_permuted_pick(order@, cs, qdb.quotations@, *params, file_permissions(*qdb, target@), string_views(nicks@), max_len as nat);
    }
    r
}

/// The reply that posts a quotation's URL in place of its text.
pub open spec fn url_reply(id: nat, url: Seq<char>) -> Seq<char> {
    seq!['['] + hex_upper(id) + "] <"@ + url + seq!['>']
}

/// Whether `m` is what the bot posts for the quotation at index `i`: its rendering where its
/// text is posted, or its URL where that is posted instead.
pub open spec fn posted_as(
    params: QuoteParams,
    qdb: QuotationDatabase,
    target: Seq<char>,
    nicks: Seq<Seq<char>>,
    max_len: nat,
    i: int,
    m: Seq<char>,
) -> bool {
    let q = qdb.quotations@[i];
    let v = verdict(params, q, file_permissions(qdb, target), nicks, max_len);
    ||| (v == Verdict::Text && m == rendered_view(params.anti_ping_tactic, q, nicks))
    ||| (v == Verdict::Url && (q.url matches Some(u) && m == url_reply(i as nat, u@)))
}

/// The reply to a `quote` request: the quotation picked (see [`pick_quotation`]), rendered with
/// the requested anti-ping tactic; or, for a quotation too long to post, its identifier in
/// square brackets and its URL in angle brackets.
pub fn quote(
    params: &QuoteParams,
    qdb: &QuotationDatabase,
    target: &str,
    nicks: &[String],
    max_len: usize,
) -> (r: Result<Reaction, BotCmdResult>)
    requires
        qdb.wf(),
    ensures
        r is Err <==> pick_outcome_is_err(*params, *qdb, target@, string_views(nicks@), max_len as nat),
        r is Ok ==> r->Ok_0 is Msg,
        r is Ok ==> (candidates_outcome(*params, *qdb) matches Ok(cs) && exists|k: int|
            0 <= k < cs.len() && #[trigger] posted_as(*params, *qdb, target@, string_views(nicks@), max_len as nat, cs[k] as int, r->Ok_0->Msg_0@)),
        r matches Err(e) ==> match candidates_outcome(*params, *qdb) {
            Err(msg) => e matches BotCmdResult::UserErrMsg(x) && x@ == msg,
            Ok(cs) => e matches BotCmdResult::Done(Reaction::Reply(m)) && m@ == no_quotation_msg(
                exists|k: int| 0 <= k < cs.len() && verdict(*params, qdb.quotations@[#[trigger] cs[k] as int], file_permissions(*qdb, target@), string_views(nicks@), max_len as nat) == Verdict::TooLong),
        },
{
    let choice = match pick_quotation(params, qdb, target, nicks, max_len) {
        Ok(c) => c,
        Err(e) => {
            return Err(e);
        },
    };
    let ghost cs = candidates_outcome(*params, *qdb)->Ok_0;
    let ghost i: usize = match choice {
        QuotationChoice::Text(j) => j,
        QuotationChoice::Url(j) => j,
    };
    proof {
        lemma_candidates_bounded(*params, *qdb);
        let k = choose|k: int| 0 <= k < cs.len() && cs[k] == i;
        assert(cs[k] < qdb.quotations@.len());
    }
    let m = quotation_reply(params, qdb, nicks, choice);
    let res: Result<Reaction, BotCmdResult> = Ok(Reaction::Msg(m));
    proof {
        let k = choose|k: int| 0 <= k < cs.len() && cs[k] == i;
        assert(posted_as(*params, *qdb, target@, string_views(nicks@), max_len as nat, cs[k] as int, res->Ok_0->Msg_0@));
    }
    res
}

/// The text that posts a chosen quotation: its rendering with the requested anti-ping tactic
/// where its text is chosen, or its identifier in square brackets and its URL in angle brackets
/// where its URL is.
pub open spec fn choice_reply(params: QuoteParams, qdb: QuotationDatabase, nicks: Seq<Seq<char>>, c: QuotationChoice) -> Seq<char> {
    match c {
        QuotationChoice::Text(i) => rendered_view(params.anti_ping_tactic, qdb.quotations@[i as int], nicks),
        QuotationChoice::Url(i) => url_reply(i as nat, qdb.quotations@[i as int].url->Some_0@),
    }
}

/// Composes the reply that posts the chosen quotation (see [`choice_reply`]).
pub fn quotation_reply(params: &QuoteParams, qdb: &QuotationDatabase, nicks: &[String], choice: QuotationChoice) -> (r: String)
    requires
        qdb.wf(),
        match choice {
            QuotationChoice::Text(i) => i < qdb.quotations@.len(),
            QuotationChoice::Url(i) => i < qdb.quotations@.len() && qdb.quotations@[i as int].url is Some,
        },
    ensures
        r@ == choice_reply(*params, *qdb, string_views(nicks@), choice),
{
    match choice {
        QuotationChoice::Text(i) => render_quotation(params.anti_ping_tactic, &qdb.quotations[i], nicks),
        QuotationChoice::Url(i) => {
            let q = &qdb.quotations[i];
            let mut acc: Vec<char> = Vec::new();
            acc.push('[');
            push_hex(q.id.0, &mut acc);
            push_str_chars(&mut acc, "] <");
            match &q.url {
                Some(u) => push_str_chars(&mut acc, u.as_str()),
                None => {},
            }
            acc.push('>');
            assert(acc@ =~= url_reply(i as nat, q.url->Some_0@));
            string_from_chars(acc.as_slice())
        },
    }
}

/// Whether a `quote` request fails: its `id` is bad, or no candidate's text or URL can be
/// posted.
pub open spec fn pick_outcome_is_err(
    params: QuoteParams,
    qdb: QuotationDatabase,
    target: Seq<char>,
    nicks: Seq<Seq<char>>,
    max_len: nat,
) -> bool {
    match candidates_outcome(params, qdb) {
        Err(_) => true,
        Ok(cs) => forall|k: int| 0 <= k < cs.len() ==> {
            let v = verdict(params, qdb.quotations@[#[trigger] cs[k] as int], file_permissions(qdb, target), nicks, max_len);
            v != Verdict::Text && v != Verdict::Url
        },
    }
}

/// Why the texts of a list of regex arguments yield no regexes: a YAML problem, or a pattern
/// that fails to compile.
pub ghost enum RegexArgProblem {
    Yaml(Problem),
    Compile,
}

/// The patterns of a list of regex arguments, each compiled case-insensitively, or the first
/// problem met, in order.
pub open spec fn regex_args_outcome(items: Seq<YamlView>, label: Seq<char>) -> Result<Seq<Seq<char>>, RegexArgProblem>
    decreases items.len(),
{
    if items.len() == 0 {
        Ok(seq![])
    } else {
        match scalar_text(items[0], label) {
            Err(p) => Err(RegexArgProblem::Yaml(p)),
            Ok(t) => if !crate::util::regex::regex_builds(t, true, Some(REGEX_SIZE_LIMIT)) {
                Err(RegexArgProblem::Compile)
            } else {
                match regex_args_outcome(items.drop_first(), label) {
                    Ok(ts) => Ok(seq![t] + ts),
                    Err(e) => Err(e),
                }
            },
        }
    }
}

/// The texts of a list of scalar arguments, or the first problem met, in order.
pub open spec fn text_args_outcome(items: Seq<YamlView>, label: Seq<char>) -> Result<Seq<Seq<char>>, Problem>
    decreases items.len(),
{
    if items.len() == 0 {
        Ok(seq![])
    } else {
        match scalar_text(items[0], label) {
            Err(p) => Err(p),
            Ok(t) => match text_args_outcome(items.drop_first(), label) {
                Ok(ts) => Ok(seq![t] + ts),
                Err(e) => Err(e),
            },
        }
    }
}

fn regex_args(items: &Vec<YamlNode>, label: &str) -> (r: Result<Vec<CompiledRegex>, BotCmdResult>)
    ensures
        match regex_args_outcome(elements_view(items@), label@) {
            Ok(ts) => r matches Ok(v) && v@.len() == ts.len() && forall|i: int| 0 <= i < ts.len() ==> (#[trigger] v@[i]).settings() == crate::util::regex::case_insensitive_settings(ts[i]),
            Err(RegexArgProblem::Yaml(p)) => r matches Err(BotCmdResult::LibErr(FrameworkError::YamlUtil(e))) && problem_of(e) == p,
            Err(RegexArgProblem::Compile) => r matches Err(BotCmdResult::LibErr(FrameworkError::Regex(_))),
        },
{
    let ghost all = elements_view(items@);
    let mut out: Vec<CompiledRegex> = Vec::new();
    let ghost mut texts: Seq<Seq<char>> = seq![];
    let mut k: usize = 0;
    assert(all.skip(0) =~= all);
    while k < items.len()
        invariant
            all == elements_view(items@),
            k <= items@.len(),
            out@.len() == texts.len(),
            forall|i: int| 0 <= i < texts.len() ==> (#[trigger] out@[i]).settings() == crate::util::regex::case_insensitive_settings(texts[i]),
            regex_args_outcome(all, label@) == match regex_args_outcome(all.skip(k as int), label@) {
                Ok(ts) => Ok(texts + ts),
                Err(e) => Err(e),
            },
        decreases items@.len() - k,
    {
        let ghost rest = all.skip(k as int);
        assert(rest[0] == items@[k as int]@);
        assert(rest.drop_first() =~= all.skip(k + 1));
        let t = match scalar_to_str(&items[k], label) {
            Ok(t) => t,
            Err(e) => {
                return Err(BotCmdResult::LibErr(FrameworkError::YamlUtil(e)));
            },
        };
        let rx = match mk_case_insensitive_regex(t.as_str()) {
            Ok(rx) => rx,
            Err(e) => {
                return Err(BotCmdResult::LibErr(FrameworkError::Regex(e)));
            },
        };
        out.push(rx);
        proof {
            let ghost old_texts = texts;
            texts = texts.push(t@);
            assert forall|ts: Seq<Seq<char>>| #![auto] old_texts + (seq![t@] + ts) == texts + ts by {
                assert(old_texts + (seq![t@] + ts) =~= texts + ts);
            }
        }
        k += 1;
    }
    assert(all.skip(k as int) =~= Seq::<YamlView>::empty());
    assert(texts + Seq::<Seq<char>>::empty() =~= texts);
    Ok(out)
}

fn text_args(items: &Vec<YamlNode>, label: &str) -> (r: Result<Vec<String>, BotCmdResult>)
    ensures
        match text_args_outcome(elements_view(items@), label@) {
            Ok(ts) => r matches Ok(v) && string_views(v@) == ts,
            Err(p) => r matches Err(BotCmdResult::LibErr(FrameworkError::YamlUtil(e))) && problem_of(e) == p,
        },
{
    let ghost all = elements_view(items@);
    let mut out: Vec<String> = Vec::new();
    let mut k: usize = 0;
    assert(all.skip(0) =~= all);
    assert(string_views(out@) =~= Seq::<Seq<char>>::empty());
    while k < items.len()
        invariant
            all == elements_view(items@),
            k <= items@.len(),
            text_args_outcome(all, label@) == match text_args_outcome(all.skip(k as int), label@) {
                Ok(ts) => Ok(string_views(out@) + ts),
                Err(e) => Err(e),
            },
        decreases items@.len() - k,
    {
        let ghost rest = all.skip(k as int);
        assert(rest[0] == items@[k as int]@);
        assert(rest.drop_first() =~= all.skip(k + 1));
        let t = match scalar_to_str(&items[k], label) {
            Ok(t) => t,
            Err(e) => {
                return Err(BotCmdResult::LibErr(FrameworkError::YamlUtil(e)));
            },
        };
        let ghost before = string_views(out@);
        out.push(t);
        proof {
            assert(string_views(out@) =~= before.push(t@));
            assert forall|ts: Seq<Seq<char>>| #![auto] before + (seq![t@] + ts) == string_views(out@) + ts by {
                assert(before + (seq![t@] + ts) =~= string_views(out@) + ts);
            }
        }
        k += 1;
    }
    assert(all.skip(k as int) =~= Seq::<YamlView>::empty());
    assert(string_views(out@) + Seq::<Seq<char>>::empty() =~= string_views(out@));
    Ok(out)
}

/// The view of a YAML string.
pub open spec fn ystr(s: Seq<char>) -> YamlView {
    YamlView::String(s)
}

/// What [`prepare_quote_params`] gives for the entries of a `quote` argument mapping, by
/// whether the requester is an administrator: the regex patterns, literals, tags, identifier
/// and anti-ping tactic text asked for, or the error.
pub open spec fn quote_params_outcome(
    is_admin: bool,
    entries: Seq<(YamlView, YamlView)>,
) -> Result<(Seq<Seq<char>>, Seq<Seq<char>>, Seq<Seq<char>>, Option<Seq<char>>, Option<Seq<char>>), QuoteParamsProblem> {
    if lookup(entries, ystr("anti-ping tactic"@)) is Some && !is_admin {
        Err(QuoteParamsProblem::Unauthorized)
    } else {
        match arg_by_short_or_long(entries, ystr("r"@), ystr("regex"@)) {
            Err(p) => Err(QuoteParamsProblem::Yaml(p)),
            Ok(rx_arg) => match regex_args_outcome(as_seq_view(rx_arg), "a search term given in the argument `regex`"@) {
                Err(RegexArgProblem::Yaml(p)) => Err(QuoteParamsProblem::Yaml(p)),
                Err(RegexArgProblem::Compile) => Err(QuoteParamsProblem::Compile),
                Ok(rxs) => match arg_by_short_or_long(entries, ystr("s"@), ystr("string"@)) {
                    Err(p) => Err(QuoteParamsProblem::Yaml(p)),
                    Ok(lit_arg) => match text_args_outcome(as_seq_view(lit_arg), "a search term given in the argument `string`"@) {
                        Err(p) => Err(QuoteParamsProblem::Yaml(p)),
                        Ok(lits) => match text_args_outcome(as_seq_view(lookup(entries, ystr("tag"@))), "a search term given in the argument `tag`"@) {
                            Err(p) => Err(QuoteParamsProblem::Yaml(p)),
                            Ok(tags) => match optional_text(lookup(entries, ystr("id"@)), "the argument `id`"@) {
                                Err(p) => Err(QuoteParamsProblem::Yaml(p)),
                                Ok(id) => match optional_text(lookup(entries, ystr("anti-ping tactic"@)), "the argument `anti-ping tactic`"@) {
                                    Err(p) => Err(QuoteParamsProblem::Yaml(p)),
                                    Ok(tactic) => Ok((rxs, lits, tags, id, tactic)),
                                },
                            },
                        },
                    },
                },
            },
        }
    }
}

/// The text of an optional scalar argument.
pub open spec fn optional_text(arg: Option<YamlView>, label: Seq<char>) -> Result<Option<Seq<char>>, Problem> {
    match arg {
        None => Ok(None),
        Some(v) => match scalar_text(v, label) {
            Ok(t) => Ok(Some(t)),
            Err(p) => Err(p),
        },
    }
}

/// Why a `quote` argument yields no parameters.
pub ghost enum QuoteParamsProblem {
    Unauthorized,
    Yaml(Problem),
    Compile,
}

fn optional_text_arg(arg: Option<&YamlNode>, label: &str) -> (r: Result<Option<String>, BotCmdResult>)
    ensures
        match optional_text(match arg { Some(n) => Some(n@), None => None }, label@) {
            Ok(None) => r matches Ok(None),
            Ok(Some(t)) => r matches Ok(Some(s)) && s@ == t,
            Err(p) => r matches Err(BotCmdResult::LibErr(FrameworkError::YamlUtil(e))) && problem_of(e) == p,
        },
{
    match arg {
        None => Ok(None),
        Some(n) => match scalar_to_str(n, label) {
            Ok(t) => Ok(Some(t)),
            Err(e) => Err(BotCmdResult::LibErr(FrameworkError::YamlUtil(e))),
        },
    }
}

fn seq_arg(arg: Option<YamlNode>) -> (r: Vec<YamlNode>)
    ensures
        elements_view(r@) == as_seq_view(match arg { Some(n) => Some(n@), None => None }),
{
    match &arg {
        Some(n) => iter_as_seq(Some(n)),
        None => iter_as_seq(None),
    }
}

/// Reads the parameters of a `quote` request from its argument mapping: `regex` (or `r`),
/// `string` (or `s`) and `tag`, each a string or a sequence of strings; `id`; and
/// `anti-ping tactic`, which only administrators may use. Regexes are compiled
/// case-insensitively. The text of the anti-ping tactic, if given, is returned beside the
/// parameters for the caller to parse; the parameters' own tactic is left unset.
pub fn prepare_quote_params(is_admin: bool, arg: &YamlNode) -> (r: Result<(QuoteParams, Option<String>), BotCmdResult>)
    requires
        arg matches YamlNode::Hash(_),
    ensures
        match quote_params_outcome(is_admin, arg@->Hash_0) {
            Ok((rxs, lits, tags, id, tactic)) => r matches Ok((p, t)) && {
                &&& p.regexes@.len() == rxs.len()
                &&& forall|i: int| 0 <= i < rxs.len() ==> (#[trigger] p.regexes@[i]).settings() == crate::util::regex::case_insensitive_settings(rxs[i])
                &&& string_views(p.literals@) == lits
                &&& string_views(p.tags@) == tags
                &&& (match id { Some(x) => p.id matches Some(y) && y@ == x, None => p.id is None })
                &&& p.anti_ping_tactic is None
                &&& (match tactic { Some(x) => t matches Some(y) && y@ == x, None => t is None })
            },
            Err(QuoteParamsProblem::Unauthorized) => r matches Err(BotCmdResult::ParamUnauthorized(k)) && k@ == "anti-ping tactic"@,
            Err(QuoteParamsProblem::Yaml(p)) => r matches Err(BotCmdResult::LibErr(FrameworkError::YamlUtil(e))) && problem_of(e) == p,
            Err(QuoteParamsProblem::Compile) => r matches Err(BotCmdResult::LibErr(FrameworkError::Regex(_))),
        },
{
    let entries = match arg {
        YamlNode::Hash(v) => v,
        _ => {
            proof {
                assert(false);
            }
            return Err(BotCmdResult::SyntaxErr);
        },
    };
    proof {
        crate::util::yaml::lemma_view_unfold(*arg);
    }
    let ghost ev = entries_view(entries@);
    assert(arg@->Hash_0 == ev);
    let key_tactic = mk_str("anti-ping tactic");
    if hash_get(entries, &key_tactic).is_some() && !is_admin {
        return Err(BotCmdResult::ParamUnauthorized("anti-ping tactic".to_owned()));
    }
    let rx_arg = match get_arg_by_short_or_long_key(entries, &mk_str("r"), &mk_str("regex")) {
        Ok(a) => a,
        Err(e) => {
            return Err(BotCmdResult::LibErr(FrameworkError::YamlUtil(e)));
        },
    };
    let regexes = match regex_args(&seq_arg(rx_arg), "a search term given in the argument `regex`") {
        Ok(v) => v,
        Err(e) => {
            return Err(e);
        },
    };
    let lit_arg = match get_arg_by_short_or_long_key(entries, &mk_str("s"), &mk_str("string")) {
        Ok(a) => a,
        Err(e) => {
            return Err(BotCmdResult::LibErr(FrameworkError::YamlUtil(e)));
        },
    };
    let literals = match text_args(&seq_arg(lit_arg), "a search term given in the argument `string`") {
        Ok(v) => v,
        Err(e) => {
            return Err(e);
        },
    };
    let tags = match text_args(&iter_as_seq(hash_get(entries, &mk_str("tag"))), "a search term given in the argument `tag`") {
        Ok(v) => v,
        Err(e) => {
            return Err(e);
        },
    };
    let id = match optional_text_arg(hash_get(entries, &mk_str("id")), "the argument `id`") {
        Ok(v) => v,
        Err(e) => {
            return Err(e);
        },
    };
    let tactic = match optional_text_arg(hash_get(entries, &key_tactic), "the argument `anti-ping tactic`") {
        Ok(v) => v,
        Err(e) => {
            return Err(e);
        },
    };
    Ok((QuoteParams { regexes, literals, tags, id, anti_ping_tactic: None }, tactic))
}

/// The entry of a file in the list of files that may be named: its name and its quotation count
/// in parentheses.
pub open spec fn file_entry(f: QuotationFileMetadata) -> Seq<char> {
    f.name@ + " ("@ + crate::util::text::decimal(f.quotation_count as nat) + ")"@
}

/// The entries of the files that may be named, in order.
pub open spec fn visible_file_entries(files: Seq<QuotationFileMetadata>, perms: Seq<bool>) -> Seq<Seq<char>>
    decreases files.len(),
{
    if files.len() == 0 {
        seq![]
    } else {
        let rest = visible_file_entries(files.drop_last(), perms);
        if permitted(perms, files.last().file_id.0) {
            rest.push(file_entry(files.last()))
        } else {
            rest
        }
    }
}

/// The text of the reply to `quote-database-info` in the channel `target`.
pub open spec fn qdb_info_text(qdb: QuotationDatabase, target: Seq<char>) -> Seq<char> {
    let entries = visible_file_entries(qdb.files@, file_permissions(qdb, target));
    "I have "@ + crate::util::text::decimal(qdb.quotations@.len()) + " total quotation(s) in "@
        + crate::util::text::decimal(qdb.files@.len())
        + " file(s). The files I may name in this channel, along with their quotation counts, are: "@
        + (if entries.len() == 0 {
        "<none>"@
    } else {
        join_with(entries, ", "@)
    }) + "."@
}

/// The reply to `quote-database-info` in the channel `target`: how many quotations and files
/// there are, and the files whose quotations may be shown there, each with its quotation count
/// (or `<none>`).
pub fn show_qdb_info(qdb: &QuotationDatabase, target: &str) -> (r: Reaction)
    ensures
        r matches Reaction::Msgs(v) && v@.len() == 1 && v@[0]@ == qdb_info_text(*qdb, target@),
{
    let perms = check_file_permissions(qdb, target);
    let ghost pv = file_permissions(*qdb, target@);
    assert(perms@ =~= pv);
    let mut entries: Vec<String> = Vec::new();
    let mut i: usize = 0;
    assert(qdb.files@.take(0) =~= Seq::<QuotationFileMetadata>::empty());
    while i < qdb.files.len()
        invariant
            perms@ == pv,
            pv == file_permissions(*qdb, target@),
            i <= qdb.files@.len(),
            string_views(entries@) == visible_file_entries(qdb.files@.take(i as int), pv),
        decreases qdb.files@.len() - i,
    {
        let f = &qdb.files[i];
        let ghost before = string_views(entries@);
        assert(qdb.files@.take(i + 1).drop_last() =~= qdb.files@.take(i as int));
        assert(qdb.files@.take(i + 1).last() == *f);
        let fid = f.array_index();
        if fid < perms.len() && perms[fid] {
            let mut acc: Vec<char> = Vec::new();
            push_str_chars(&mut acc, f.name.as_str());
            push_str_chars(&mut acc, " (");
            crate::util::text::push_decimal(f.quotation_count, &mut acc);
            push_str_chars(&mut acc, ")");
            assert(acc@ =~= file_entry(*f));
            entries.push(string_from_chars(acc.as_slice()));
            assert(string_views(entries@) =~= before.push(file_entry(*f)));
        }
        i += 1;
    }
    assert(qdb.files@.take(i as int) =~= qdb.files@);
    let mut acc: Vec<char> = Vec::new();
    push_str_chars(&mut acc, "I have ");
    crate::util::text::push_decimal(qdb.quotations.len(), &mut acc);
    push_str_chars(&mut acc, " total quotation(s) in ");
    crate::util::text::push_decimal(qdb.files.len(), &mut acc);
    push_str_chars(&mut acc, " file(s). The files I may name in this channel, along with their quotation counts, are: ");
    if entries.len() == 0 {
        push_str_chars(&mut acc, "<none>");
    } else {
        let list = crate::util::text::join_strings_with(&entries, ", ");
        let list_s = string_from_chars(list.as_slice());
        push_str_chars(&mut acc, list_s.as_str());
    }
    push_str_chars(&mut acc, ".");
    assert(acc@ =~= qdb_info_text(*qdb, target@));
    let msg = string_from_chars(acc.as_slice());
    let v = vec![msg];
    Reaction::Msgs(v)
}

/// The `url` crate's error of a text that is not an absolute URL.
#[verifier::external_type_specification]
#[verifier::external_body]
pub struct ExUrlParseError(url::ParseError);

/// A name for the serialization of the URL that `url::Url::parse` makes of a text, where it
/// parses as an absolute URL, and `None` where it does not.
pub uninterp spec fn url_serialization(text: Seq<char>) -> Option<Seq<char>>;

/// Parses a text as an absolute URL by calling `url::Url::parse`, and gives the URL's
/// serialization, as its `Display` writes it. The contract claims only that the outcome is
/// [`url_serialization`] of the text.
#[verifier::external_body]
fn parse_url(text: &str) -> (r: Result<String, url::ParseError>)
    ensures
        match r {
            Ok(s) => url_serialization(text@) == Some(s@),
            Err(_) => url_serialization(text@) is None,
        },
{
    url::Url::parse(text).map(|u| u.to_string())
}

/// Checks the URL that a quotation record may give: none stays none; a text that parses as an
/// absolute URL is kept in the serialized form the URL parser gives it; any other text is the
/// parser's error.
pub fn checked_url(url: Option<String>) -> (r: Result<Option<String>, url::ParseError>)
    ensures
        match url {
            None => r matches Ok(None),
            Some(u) => match url_serialization(u@) {
                Some(t) => r matches Ok(Some(x)) && x@ == t,
                None => r is Err,
            },
        },
{
    match url {
        None => Ok(None),
        Some(u) => match parse_url(u.as_str()) {
            Ok(t) => Ok(Some(t)),
            Err(e) => Err(e),
        },
    }
}

/// A quotation as a quotation file gives it.
#[derive(Debug)]
pub struct QuotationIR {
    /// The quotation's format, overriding the file's.
    pub format: Option<QuotationFormat>,
    /// The quotation's text.
    pub text: String,
    /// The quotation's tags.
    pub tags: Vec<String>,
    /// A URL of a copy of the quotation.
    pub url: Option<String>,
    /// The quotation's anti-ping tactic, overriding the file's.
    pub anti_ping_tactic: Option<AntiPingTactic>,
}

/// A quotation file as it is read.
#[derive(Debug)]
pub struct QuotationFileIR {
    /// The pattern of the channels where the file's quotations may be shown.
    pub channels: String,
    /// The default format of the file's quotations.
    pub format: QuotationFormat,
    /// The default anti-ping tactic of the file's quotations.
    pub anti_ping_tactic: AntiPingTactic,
    /// The file's quotations.
    pub quotations: Vec<QuotationIR>,
}

/// The pattern of a file's channel regex: the file's pattern, anchored at both ends.
pub open spec fn anchored_channels_pattern(channels: Seq<char>) -> Seq<char> {
    "^(?:"@ + channels + ")$"@
}

/// The error reported where a file would make the quotations more than a `usize` can count.
pub open spec fn too_many_quotations_msg() -> Seq<char> {
    "Attempted to load a quotation database containing too many quotations."@
}

/// Whether `q` is the quotation loaded from `ir` of `file` with the identifier `id`, in the file
/// `file_id`: the file's format and anti-ping tactic stand where the quotation gives none, and
/// its tags are sorted.
pub open spec fn loaded_from(q: Quotation, ir: QuotationIR, file: QuotationFileIR, id: nat, file_id: nat) -> bool {
    &&& q.id.0 == id
    &&& q.file_id.0 == file_id
    &&& q.format == match ir.format {
        Some(f) => f,
        None => file.format,
    }
    &&& q.text@ == ir.text@
    &&& sorted_texts(string_views(q.tags@))
    &&& string_views(q.tags@).to_multiset() == string_views(ir.tags@).to_multiset()
    &&& match ir.url {
        Some(u) => q.url matches Some(x) && x@ == u@,
        None => q.url is None,
    }
    &&& q.anti_ping_tactic == match ir.anti_ping_tactic {
        Some(t) => t,
        None => file.anti_ping_tactic,
    }
}

impl QuotationDatabase {
    /// Adds a quotation file, named `name`, to the database: its metadata (with its channel
    /// pattern anchored and compiled case-insensitively), and its quotations, numbered on from
    /// the last. Where the pattern does not compile, or the quotations would be more than a
    /// `usize` can count, the database is left as it was and the error returned.
    pub fn load_file(&mut self, name: String, file: QuotationFileIR) -> (r: Result<(), FrameworkError>)
        requires
            old(self).wf(),
            forall|j: int| 0 <= j < file.quotations@.len() ==> (#[trigger] file.quotations@[j]).text@.len() <= usize::MAX / 2,
        ensures
            final(self).wf(),
            ({
                let pattern = anchored_channels_pattern(file.channels@);
                let start = old(self).quotations@.len();
                let n = file.quotations@.len();
                if !crate::util::regex::regex_builds(pattern, true, Some(REGEX_SIZE_LIMIT)) {
                    r matches Err(FrameworkError::Regex(_)) && *final(self) == *old(self)
                } else if start + n > usize::MAX {
                    r matches Err(FrameworkError::IntegerOverflow(m)) && m@ == too_many_quotations_msg()
                        && *final(self) == *old(self)
                } else {
                    &&& r is Ok
                    &&& final(self).files@.len() == old(self).files@.len() + 1
                    &&& final(self).files@.drop_last() == old(self).files@
                    &&& final(self).files@.last().name@ == name@
                    &&& final(self).files@.last().file_id.0 == old(self).files@.len()
                    &&& final(self).files@.last().channels_regex.settings() == crate::util::regex::case_insensitive_settings(pattern)
                    &&& final(self).files@.last().quotation_count == n
                    &&& final(self).quotations@.len() == start + n
                    &&& final(self).quotations@.take(start as int) == old(self).quotations@
                    &&& forall|j: int| 0 <= j < n ==> #[trigger] loaded_from(final(self).quotations@[start + j], file.quotations@[j], file, (start + j) as nat, old(self).files@.len())
                }
            }),
    {
        let mut pat: Vec<char> = Vec::new();
        push_str_chars(&mut pat, "^(?:");
        push_str_chars(&mut pat, file.channels.as_str());
        push_str_chars(&mut pat, ")$");
        assert(pat@ =~= anchored_channels_pattern(file.channels@));
        let pattern = string_from_chars(pat.as_slice());
        let rx = match mk_case_insensitive_regex(pattern.as_str()) {
            Ok(rx) => rx,
            Err(e) => {
                return Err(FrameworkError::Regex(e));
            },
        };
        let n = file.quotations.len();
        let start = self.quotations.len();
        if start.checked_add(n).is_none() {
            return Err(FrameworkError::IntegerOverflow(
                "Attempted to load a quotation database containing too many quotations.".to_owned(),
            ));
        }
        let file_id = QuotationFileId(self.files.len());
        let ghost old_files = self.files@;
        let ghost old_qs = self.quotations@;
        let ghost name_v = name@;
        let ghost rx_settings = rx.settings();
        self.files.push(QuotationFileMetadata { name, file_id, channels_regex: rx, quotation_count: n });
        assert(self.files@.drop_last() =~= old_files);
        let mut j: usize = 0;
        while j < n
            invariant
                n == file.quotations@.len(),
                start == old_qs.len(),
                start + n <= usize::MAX,
                file_id.0 == old_files.len(),
                self.files@.len() == old_files.len() + 1,
                self.files@.drop_last() == old_files,
                self.files@.last().file_id == file_id,
                self.files@.last().name@ == name_v,
                self.files@.last().channels_regex.settings() == rx_settings,
                self.files@.last().quotation_count == n,
                forall|i: int| 0 <= i < old_files.len() ==> (#[trigger] old_files[i]).file_id.0 == i,
                forall|i: int| 0 <= i < old_qs.len() ==> {
                    &&& (#[trigger] old_qs[i]).id.0 == i
                    &&& old_qs[i].file_id.0 < old_files.len()
                    &&& old_qs[i].text@.len() <= usize::MAX / 2
                },
                forall|x: int| 0 <= x < file.quotations@.len() ==> (#[trigger] file.quotations@[x]).text@.len() <= usize::MAX / 2,
                j <= n,
                self.quotations@.len() == start + j,
                self.quotations@.take(start as int) == old_qs,
                forall|x: int| 0 <= x < j ==> #[trigger] loaded_from(self.quotations@[start + x], file.quotations@[x], file, (start + x) as nat, old_files.len() as nat),
            decreases n - j,
        {
            let ir = &file.quotations[j];
            let format = match ir.format {
                Some(f) => f,
                None => file.format,
            };
            let anti_ping_tactic = match ir.anti_ping_tactic {
                Some(t) => t,
                None => file.anti_ping_tactic,
            };
            let url = match &ir.url {
                Some(u) => Some(u.clone()),
                None => None,
            };
            let tags = sort_strings(&ir.tags);
            let q = Quotation {
                id: QuotationId(start + j),
                file_id,
                format,
                text: ir.text.clone(),
                tags,
                url,
                anti_ping_tactic,
            };
            let ghost before = self.quotations@;
            self.quotations.push(q);
            assert(self.quotations@.take(start as int) =~= before.take(start as int));
            assert forall|x: int| 0 <= x < j + 1 implies #[trigger] loaded_from(self.quotations@[start + x], file.quotations@[x], file, (start + x) as nat, old_files.len() as nat) by {
                if x < j {
                    assert(self.quotations@[start + x] == before[start + x]);
                }
            }
            j += 1;
        }
        proof {
            assert forall|i: int| 0 <= i < self.files@.len() implies (#[trigger] self.files@[i]).file_id.0 == i by {
                if i < old_files.len() {
                    assert(self.files@[i] == old_files[i]);
                }
            }
            assert forall|i: int| 0 <= i < self.quotations@.len() implies {
                &&& (#[trigger] self.quotations@[i]).id.0 == i
                &&& self.quotations@[i].file_id.0 < self.files@.len()
                &&& self.quotations@[i].text@.len() <= usize::MAX / 2
            } by {
                if i < start {
                    assert(self.quotations@[i] == self.quotations@.take(start as int)[i]);
                } else {
                    assert(loaded_from(self.quotations@[start + (i - start)], file.quotations@[i - start], file, (start + (i - start)) as nat, old_files.len() as nat));
                }
            }
        }
        Ok(())
    }
}

/// The quotation module: the commands `quote`, `quote-database-info` and
/// `quote-database-reload`. (Its database is loaded from the quotation files when the module is
/// loaded; see [`QuotationDatabase::load_file`].)
pub fn mk() -> (r: Module)
    ensures
        r.name_view() == "quote"@,
        r.features_view().len() == 3,
        crate::modules::default::declares_command(r.features_view()[0], "quote"@,
            "{regex: '[...]', string: '[...]', tag: '[...]', id: '[ID]'}"@,
            "Request a quotation from the bot's database of quotations. For usage instructions, see the full documentation: <https://docs.rs/irc-bot/*/irc_bot/modules/fn.quote.html>."@,
            BotCmdAuthLvl::Public),
        crate::modules::default::declares_command(r.features_view()[1], "quote-database-info"@, ""@,
            "Request information about the bot's database of quotations, such as the number of quotations in the database."@,
            BotCmdAuthLvl::Public),
        crate::modules::default::declares_command(r.features_view()[2], "quote-database-reload"@, ""@,
            "Tell the bot to reload its quotation database."@, BotCmdAuthLvl::Admin),
{
    proof {
        reveal_strlit("quote");
        reveal_strlit("quote-database-info");
        reveal_strlit("quote-database-reload");
    }
    let b = mk_module("quote");
    let b = b.command("quote", "{regex: '[...]', string: '[...]', tag: '[...]', id: '[ID]'}",
        "Request a quotation from the bot's database of quotations. For usage instructions, see the full documentation: <https://docs.rs/irc-bot/*/irc_bot/modules/fn.quote.html>.",
        BotCmdAuthLvl::Public);
    let b = b.command("quote-database-info", "",
        "Request information about the bot's database of quotations, such as the number of quotations in the database.",
        BotCmdAuthLvl::Public);
    let b = b.command("quote-database-reload", "", "Tell the bot to reload its quotation database.", BotCmdAuthLvl::Admin);
    let m = b.end();
    proof {
        let fs = m.features_view();
        assert(fs[0] == fs.drop_last().drop_last().last());
        assert(fs[1] == fs.drop_last().last());
    }
    m
}

} // verus!
