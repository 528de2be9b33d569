//! Conversions between string slices and sequences of Unicode scalar values.

use vstd::prelude::*;

verus! {

/// Collects the Unicode scalar values of `s`, in order.
pub fn chars_of(s: &str) -> (r: Vec<char>)
    ensures
        r@ == s@,
{
    let mut r: Vec<char> = Vec::new();
    for c in it: s.chars()
        invariant
            r@ == it.seq().take(it.index() as int),
            it.seq() == s@,
    {
        r.push(c);
    }
    r
}

/// Builds a `String` from a sequence of Unicode scalar values.
///
/// Calls `FromIterator<char>::from_iter` for `String`, which, as std documents, appends
/// each character in turn; the contract states that the result holds exactly `cs`.
#[verifier::external_body]
pub(crate) fn string_from_chars(cs: &[char]) -> (r: String)
    ensures
        r@ == cs@,
{
    cs.iter().collect()
}

/// Whether two strings hold the same characters.
pub fn str_eq(a: &str, b: &str) -> (r: bool)
    ensures
        r == (a@ == b@),
{
    let x = chars_of(a);
    let y = chars_of(b);
    if x.len() != y.len() {
        return false;
    }
    let mut i: usize = 0;
    while i < x.len()
        invariant
            x@.len() == y@.len(),
            x@ == a@,
            y@ == b@,
            i <= x@.len(),
            forall|j: int| 0 <= j < i ==> x@[j] == y@[j],
        decreases x@.len() - i,
    {
        if x[i] != y[i] {
            assert(a@[i as int] != b@[i as int]);
            return false;
        }
        i += 1;
    }
    assert(x@ =~= y@);
    true
}

/// Appends the characters of `s` to `acc`.
pub fn push_str_chars(acc: &mut Vec<char>, s: &str)
    ensures
        final(acc)@ == old(acc)@ + s@,
{
    let cs = chars_of(s);
    let mut i: usize = 0;
    while i < cs.len()
        invariant
            i <= cs@.len(),
            acc@ == old(acc)@ + cs@.subrange(0, i as int),
        decreases cs@.len() - i,
    {
        acc.push(cs[i]);
        i += 1;
        assert(acc@ =~= old(acc)@ + cs@.subrange(0, i as int));
    }
    assert(cs@.subrange(0, cs@.len() as int) =~= cs@);
}


/// Whether `c` has the Unicode property White_Space, which is what `char::is_whitespace`
/// tests.
pub open spec fn is_whitespace(c: char) -> bool {
    let u = c as u32;
    ||| 0x09 <= u <= 0x0d
    ||| u == 0x20
    ||| u == 0x85
    ||| u == 0xa0
    ||| u == 0x1680
    ||| 0x2000 <= u <= 0x200a
    ||| u == 0x2028
    ||| u == 0x2029
    ||| u == 0x202f
    ||| u == 0x205f
    ||| u == 0x3000
}

/// Whether `c` has the Unicode property White_Space.
pub fn is_whitespace_exec(c: char) -> (r: bool)
    ensures
        r == is_whitespace(c),
{
    let u = c as u32;
    (0x09 <= u && u <= 0x0d) || u == 0x20 || u == 0x85 || u == 0xa0 || u == 0x1680 || (0x2000
        <= u && u <= 0x200a) || u == 0x2028 || u == 0x2029 || u == 0x202f || u == 0x205f || u
        == 0x3000
}

/// `s` without its leading whitespace.
pub open spec fn trim_start(s: Seq<char>) -> Seq<char>
    decreases s.len(),
{
    if s.len() > 0 && is_whitespace(s[0]) {
        trim_start(s.drop_first())
    } else {
        s
    }
}

/// `s` without its trailing whitespace.
pub open spec fn trim_end(s: Seq<char>) -> Seq<char>
    decreases s.len(),
{
    if s.len() > 0 && is_whitespace(s.last()) {
        trim_end(s.drop_last())
    } else {
        s
    }
}

/// `s` without leading or trailing whitespace, as `str::trim` gives it.
pub open spec fn trim(s: Seq<char>) -> Seq<char> {
    trim_end(trim_start(s))
}

proof fn lemma_trim_start_skip(s: Seq<char>, i: int)
    requires
        0 <= i <= s.len(),
        forall|k: int| 0 <= k < i ==> is_whitespace(#[trigger] s[k]),
        i == s.len() || !is_whitespace(s[i]),
    ensures
        trim_start(s) == s.skip(i),
    decreases i,
{
    if i == 0 {
        assert(s.skip(0) =~= s);
    } else {
        let t = s.drop_first();
        assert forall|k: int| 0 <= k < i - 1 implies is_whitespace(#[trigger] t[k]) by {
            assert(t[k] == s[k + 1]);
        }
        lemma_trim_start_skip(t, i - 1);
        assert(t.skip(i - 1) =~= s.skip(i));
    }
}

proof fn lemma_trim_end_take(s: Seq<char>, j: int)
    requires
        0 <= j <= s.len(),
        forall|k: int| j <= k < s.len() ==> is_whitespace(#[trigger] s[k]),
        j == 0 || !is_whitespace(s[j - 1]),
    ensures
        trim_end(s) == s.take(j),
    decreases s.len() - j,
{
    if j == s.len() {
        assert(s.take(j) =~= s);
    } else {
        let t = s.drop_last();
        assert forall|k: int| j <= k < t.len() implies is_whitespace(#[trigger] t[k]) by {
            assert(t[k] == s[k]);
        }
        lemma_trim_end_take(t, j);
        assert(t.take(j) =~= s.take(j));
    }
}

/// The bounds `(start, end)` of `s[from..to]` with leading and trailing whitespace left out.
pub fn trim_bounds(s: &[char], from: usize, to: usize) -> (r: (usize, usize))
    requires
        from <= to <= s@.len(),
    ensures
        from <= r.0 <= r.1 <= to,
        s@.subrange(r.0 as int, r.1 as int) == trim(s@.subrange(from as int, to as int)),
{
    let ghost sub = s@.subrange(from as int, to as int);
    let mut i = from;
    while i < to && is_whitespace_exec(s[i])
        invariant
            from <= i <= to <= s@.len(),
            forall|k: int| from <= k < i ==> is_whitespace(#[trigger] s@[k]),
        decreases to - i,
    {
        i += 1;
    }
    proof {
        assert forall|k: int| 0 <= k < i - from implies is_whitespace(#[trigger] sub[k]) by {
            assert(sub[k] == s@[k + from]);
        }
        lemma_trim_start_skip(sub, i - from);
        assert(sub.skip(i - from) =~= s@.subrange(i as int, to as int));
    }
    let ghost mid = s@.subrange(i as int, to as int);
    let mut j = to;
    while j > i && is_whitespace_exec(s[j - 1])
        invariant
            from <= i <= j <= to <= s@.len(),
            forall|k: int| j <= k < to ==> is_whitespace(#[trigger] s@[k]),
        decreases j - i,
    {
        j -= 1;
    }
    proof {
        assert forall|k: int| j - i <= k < mid.len() implies is_whitespace(#[trigger] mid[k]) by {
            assert(mid[k] == s@[k + i]);
        }
        lemma_trim_end_take(mid, j - i);
        assert(mid.take(j - i) =~= s@.subrange(i as int, j as int));
    }
    (i, j)
}

/// The characters of `s[from..to]`, as a `String`.
pub fn string_of_range(s: &[char], from: usize, to: usize) -> (r: String)
    requires
        from <= to <= s@.len(),
    ensures
        r@ == s@.subrange(from as int, to as int),
{
    let mut acc: Vec<char> = Vec::new();
    let mut k = from;
    while k < to
        invariant
            from <= k <= to <= s@.len(),
            acc@ == s@.subrange(from as int, k as int),
        decreases to - k,
    {
        acc.push(s[k]);
        k += 1;
        assert(acc@ =~= s@.subrange(from as int, k as int));
    }
    string_from_chars(acc.as_slice())
}

/// `s` with leading and trailing whitespace left out, as `str::trim` gives it.
pub fn trim_string(s: &str) -> (r: String)
    ensures
        r@ == trim(s@),
{
    let cs = chars_of(s);
    let (a, b) = trim_bounds(cs.as_slice(), 0, cs.len());
    assert(cs@.subrange(0, cs@.len() as int) =~= cs@);
    string_of_range(cs.as_slice(), a, b)
}

/// Whether `needle` occurs in `s` starting at index `i`.
pub open spec fn found_at(s: Seq<char>, needle: Seq<char>, i: int) -> bool {
    0 <= i && i + needle.len() <= s.len() && s.subrange(i, i + needle.len()) == needle
}

/// Whether `needle` occurs in `s`, as `str::contains` tests (an empty needle occurs in every
/// string).
pub open spec fn contains_seq(s: Seq<char>, needle: Seq<char>) -> bool {
    exists|i: int| found_at(s, needle, i)
}

/// Whether `needle` occurs in `s` starting at index `i`.
pub fn matches_at(s: &[char], needle: &[char], i: usize) -> (r: bool)
    requires
        i + needle@.len() <= s@.len(),
    ensures
        r == found_at(s@, needle@, i as int),
{
    let n = s.len();
    let mut j: usize = 0;
    while j < needle.len()
        invariant
            n == s@.len(),
            i + needle@.len() <= s@.len(),
            j <= needle@.len(),
            forall|k: int| 0 <= k < j ==> s@[i + k] == needle@[k],
        decreases needle@.len() - j,
    {
        if s[i + j] != needle[j] {
            assert(s@.subrange(i as int, i + needle@.len())[j as int] != needle@[j as int]);
            return false;
        }
        j += 1;
    }
    assert(s@.subrange(i as int, i + needle@.len()) =~= needle@);
    true
}

/// Whether `needle` occurs in `s`.
pub fn contains_chars(s: &[char], needle: &[char]) -> (r: bool)
    ensures
        r == contains_seq(s@, needle@),
{
    if needle.len() > s.len() {
        assert forall|i: int| !found_at(s@, needle@, i) by {}
        return false;
    }
    if needle.len() == 0 {
        assert(s@.subrange(0, 0) =~= needle@);
        assert(found_at(s@, needle@, 0));
        return true;
    }
    let n = s.len();
    let last = n - needle.len();
    let mut i: usize = 0;
    while i <= last
        invariant
            n == s@.len(),
            last == s@.len() - needle@.len(),
            0 < needle@.len() <= s@.len(),
            i <= last + 1,
            forall|k: int| 0 <= k < i ==> !found_at(s@, needle@, k),
        decreases last + 1 - i,
    {
        if matches_at(s, needle, i) {
            return true;
        }
        i += 1;
    }
    assert forall|k: int| !found_at(s@, needle@, k) by {
        if 0 <= k && k + needle@.len() <= s@.len() {
            assert(k < i);
        }
    }
    false
}

/// Whether `needle` occurs in `s`, as `str::contains` tests.
pub fn str_contains(s: &str, needle: &str) -> (r: bool)
    ensures
        r == contains_seq(s@, needle@),
{
    let a = chars_of(s);
    let b = chars_of(needle);
    contains_chars(a.as_slice(), b.as_slice())
}

/// The index of the first line feed in `s` at or after `from`, or the length of `s`.
pub open spec fn line_end(s: Seq<char>, from: int) -> int
    decreases s.len() - from,
{
    if from < 0 || from >= s.len() {
        s.len() as int
    } else if s[from] == '\n' {
        from
    } else {
        line_end(s, from + 1)
    }
}

/// Bounds of `line_end`.
pub proof fn lemma_line_end_bounds(s: Seq<char>, from: int)
    requires
        0 <= from <= s.len(),
    ensures
        from <= line_end(s, from) <= s.len(),
        line_end(s, from) < s.len() ==> s[line_end(s, from)] == '\n',
        forall|k: int| from <= k < line_end(s, from) ==> s[k] != '\n',
    decreases s.len() - from,
{
    if from < s.len() && s[from] != '\n' {
        lemma_line_end_bounds(s, from + 1);
    }
}

/// The text of the line of `s` from `from` to `end`: a line ended by a line feed loses one
/// carriage return before it, as `str::lines` does.
pub open spec fn line_text(s: Seq<char>, from: int, end: int) -> Seq<char> {
    let l = s.subrange(from, end);
    if end < s.len() && l.len() > 0 && l.last() == '\r' {
        l.drop_last()
    } else {
        l
    }
}

/// The lines of `s` from index `from` on, as `str::lines` yields them: split at each line
/// feed, with no empty line after a final line feed.
pub open spec fn lines_from(s: Seq<char>, from: int) -> Seq<Seq<char>>
    decreases s.len() + 1 - from,
{
    if from < 0 || from >= s.len() {
        seq![]
    } else {
        proof {
            lemma_line_end_bounds(s, from);
        }
        let e = line_end(s, from);
        seq![line_text(s, from, e)] + lines_from(s, e + 1)
    }
}

/// The lines of `s`, as `str::lines` yields them.
pub open spec fn lines_of(s: Seq<char>) -> Seq<Seq<char>> {
    lines_from(s, 0)
}

/// The text that each of a list of ranges of `s` covers.
pub open spec fn range_texts(s: Seq<char>, ranges: Seq<(usize, usize)>) -> Seq<Seq<char>> {
    Seq::new(ranges.len(), |k: int| s.subrange(ranges[k].0 as int, ranges[k].1 as int))
}

/// The ranges of the lines of `s`, as `str::lines` yields them.
pub fn line_ranges(s: &[char]) -> (r: Vec<(usize, usize)>)
    ensures
        forall|k: int| 0 <= k < r@.len() ==> (#[trigger] r@[k]).0 <= r@[k].1 <= s@.len(),
        range_texts(s@, r@) == lines_of(s@),
{
    let n = s.len();
    let mut r: Vec<(usize, usize)> = Vec::new();
    let mut pos: usize = 0;
    while pos < n
        invariant
            n == s@.len(),
            pos <= n,
            forall|k: int| 0 <= k < r@.len() ==> (#[trigger] r@[k]).0 <= r@[k].1 <= s@.len(),
            range_texts(s@, r@) + lines_from(s@, pos as int) == lines_of(s@),
        decreases n - pos,
    {
        let mut e = pos;
        while e < n && s[e] != '\n'
            invariant
                n == s@.len(),
                pos <= e <= n,
                forall|k: int| pos <= k < e ==> s@[k] != '\n',
            decreases n - e,
        {
            e += 1;
        }
        proof {
            lemma_line_end_bounds(s@, pos as int);
            if line_end(s@, pos as int) < e {
                assert(s@[line_end(s@, pos as int)] == '\n');
            }
            if e < line_end(s@, pos as int) {
                assert(s@[e as int] == '\n');
            }
        }
        assert(e == line_end(s@, pos as int));
        let mut t = e;
        if e < n && e > pos && s[e - 1] == '\r' {
            t = e - 1;
        }
        let ghost before = r@;
        assert(s@.subrange(pos as int, t as int) =~= line_text(s@, pos as int, e as int));
        r.push((pos, t));
        assert(range_texts(s@, r@) =~= range_texts(s@, before).push(line_text(s@, pos as int, e as int)));
        let ghost rest = lines_from(s@, e + 1);
        assert(lines_from(s@, pos as int) == seq![line_text(s@, pos as int, e as int)] + rest);
        assert(range_texts(s@, r@) + rest =~= range_texts(s@, before) + lines_from(s@, pos as int));
        if e < n {
            pos = e + 1;
        } else {
            pos = n;
            assert(rest =~= Seq::<Seq<char>>::empty());
        }
    }
    assert(lines_from(s@, pos as int) =~= Seq::<Seq<char>>::empty());
    assert(range_texts(s@, r@) =~= range_texts(s@, r@) + lines_from(s@, pos as int));
    r
}

/// How many times `c` occurs in `s`.
pub open spec fn count_char(s: Seq<char>, c: char) -> nat
    decreases s.len(),
{
    if s.len() == 0 {
        0
    } else {
        count_char(s.drop_last(), c) + if s.last() == c {
            1nat
        } else {
            0nat
        }
    }
}

/// Counting distributes over concatenation.
pub proof fn lemma_count_char_concat(a: Seq<char>, b: Seq<char>, c: char)
    ensures
        count_char(a + b, c) == count_char(a, c) + count_char(b, c),
    decreases b.len(),
{
    if b.len() == 0 {
        assert(a + b =~= a);
    } else {
        lemma_count_char_concat(a, b.drop_last(), c);
        assert((a + b).drop_last() =~= a + b.drop_last());
    }
}

/// The length of the UTF-8 encoding of `s`, which is what `str::len` reports.
pub open spec fn byte_len(s: Seq<char>) -> nat {
    vstd::utf8::encode_utf8(s).len()
}

/// Encoding distributes over concatenation.
pub proof fn lemma_encode_concat(a: Seq<char>, b: Seq<char>)
    ensures
        vstd::utf8::encode_utf8(a + b) == vstd::utf8::encode_utf8(a) + vstd::utf8::encode_utf8(b),
    decreases a.len(),
{
    if a.len() == 0 {
        assert(a + b =~= b);
        assert(vstd::utf8::encode_utf8(a) =~= Seq::<u8>::empty());
        assert(vstd::utf8::encode_utf8(a) + vstd::utf8::encode_utf8(b) =~= vstd::utf8::encode_utf8(b));
    } else {
        lemma_encode_concat(a.drop_first(), b);
        assert((a + b).drop_first() =~= a.drop_first() + b);
        assert((a + b)[0] == a[0]);
        assert(vstd::utf8::encode_utf8(a + b) =~= vstd::utf8::encode_scalar(a[0] as u32) + (
        vstd::utf8::encode_utf8(a.drop_first()) + vstd::utf8::encode_utf8(b)));
    }
}

/// Byte lengths add up over concatenation.
pub proof fn lemma_byte_len_concat(a: Seq<char>, b: Seq<char>)
    ensures
        byte_len(a + b) == byte_len(a) + byte_len(b),
{
    lemma_encode_concat(a, b);
}

/// A part of a text is no longer than the text, in bytes.
pub proof fn lemma_subrange_bytes(s: Seq<char>, a: int, b: int)
    requires
        0 <= a <= b <= s.len(),
    ensures
        byte_len(s.subrange(a, b)) <= byte_len(s),
{
    assert(s =~= s.take(a) + s.subrange(a, b) + s.skip(b));
    lemma_byte_len_concat(s.take(a) + s.subrange(a, b), s.skip(b));
    lemma_byte_len_concat(s.take(a), s.subrange(a, b));
}

/// Whether `line` is `s` with nothing but whitespace dropped, and only from its two ends.
pub open spec fn stripped_from(line: Seq<char>, s: Seq<char>) -> bool {
    exists|a: int, b: int|
        0 <= a <= b <= s.len() && #[trigger] s.subrange(a, b) == line && (forall|k: int|
            0 <= k < a ==> is_whitespace(#[trigger] s[k])) && (forall|k: int|
            b <= k < s.len() ==> is_whitespace(#[trigger] s[k]))
}

/// Where the leading whitespace of `s` ends.
proof fn trim_start_index(s: Seq<char>) -> (i: int)
    ensures
        0 <= i <= s.len(),
        trim_start(s) == s.skip(i),
        forall|k: int| 0 <= k < i ==> is_whitespace(#[trigger] s[k]),
    decreases s.len(),
{
    if s.len() > 0 && is_whitespace(s[0]) {
        let t = s.drop_first();
        let j = trim_start_index(t);
        assert(t.skip(j) =~= s.skip(j + 1));
        assert forall|k: int| 0 <= k < j + 1 implies is_whitespace(#[trigger] s[k]) by {
            if k > 0 {
                assert(s[k] == t[k - 1]);
            }
        }
        j + 1
    } else {
        assert(s.skip(0) =~= s);
        0
    }
}

/// Where the trailing whitespace of `s` begins.
proof fn trim_end_index(s: Seq<char>) -> (j: int)
    ensures
        0 <= j <= s.len(),
        trim_end(s) == s.take(j),
        forall|k: int| j <= k < s.len() ==> is_whitespace(#[trigger] s[k]),
    decreases s.len(),
{
    if s.len() > 0 && is_whitespace(s.last()) {
        let t = s.drop_last();
        let j = trim_end_index(t);
        assert(t.take(j) =~= s.take(j));
        assert forall|k: int| j <= k < s.len() implies is_whitespace(#[trigger] s[k]) by {
            if k < s.len() - 1 {
                assert(s[k] == t[k]);
            }
        }
        j
    } else {
        assert(s.take(s.len() as int) =~= s);
        s.len() as int
    }
}

/// Trimming drops nothing but whitespace, and only from the two ends, so it never lengthens.
pub proof fn lemma_trim_strips(s: Seq<char>)
    ensures
        stripped_from(trim(s), s),
        byte_len(trim(s)) <= byte_len(s),
{
    let i = trim_start_index(s);
    let t = s.skip(i);
    let j = trim_end_index(t);
    assert(trim(s) =~= s.subrange(i, i + j));
    assert forall|k: int| i + j <= k < s.len() implies is_whitespace(#[trigger] s[k]) by {
        assert(s[k] == t[k - i]);
    }
    lemma_subrange_bytes(s, i, i + j);
}

/// A text is itself with nothing stripped.
pub proof fn lemma_stripped_from_self(s: Seq<char>)
    ensures
        stripped_from(s, s),
{
    assert(s.subrange(0, s.len() as int) =~= s);
}

/// The decimal numeral for `n`, without leading zeros, as `{}` writes an unsigned integer.
pub open spec fn decimal(n: nat) -> Seq<char>
    decreases n,
{
    if n < 10 {
        seq![(48 + n) as char]
    } else {
        decimal(n / 10).push((48 + n % 10) as char)
    }
}

/// Appends the decimal numeral for `n` to `acc`.
pub fn push_decimal(n: usize, acc: &mut Vec<char>)
    ensures
        final(acc)@ == old(acc)@ + decimal(n as nat),
    decreases n,
{
    if n >= 10 {
        push_decimal(n / 10, acc);
    }
    let d: u8 = 48 + (n % 10) as u8;
    acc.push(d as char);
    assert(final(acc)@ =~= old(acc)@ + decimal(n as nat));
}

/// The number of bytes of the UTF-8 encoding of `c`.
pub fn utf8_width(c: char) -> (r: usize)
    ensures
        r == vstd::utf8::encode_scalar(c as u32).len(),
        1 <= r <= 4,
{
    proof {
        vstd::utf8::char_is_scalar(c);
    }
    let u = c as u32;
    if u < 0x80 {
        1
    } else if u < 0x800 {
        2
    } else if u < 0x10000 {
        3
    } else {
        4
    }
}

pub proof fn lemma_byte_len_push(s: Seq<char>, c: char)
    ensures
        byte_len(s.push(c)) == byte_len(s) + vstd::utf8::encode_scalar(c as u32).len(),
{
    lemma_byte_len_concat(s, seq![c]);
    assert(s.push(c) =~= s + seq![c]);
    assert(seq![c].drop_first() =~= Seq::<char>::empty());
    assert(vstd::utf8::encode_utf8(Seq::<char>::empty()) =~= Seq::<u8>::empty());
    assert(vstd::utf8::encode_utf8(seq![c]) =~= vstd::utf8::encode_scalar(c as u32));
}

/// The smaller of `n` and `usize::MAX`.
pub open spec fn saturated(n: nat) -> nat {
    if n <= usize::MAX {
        n
    } else {
        usize::MAX as nat
    }
}

/// The length in bytes of the UTF-8 encoding of `s`, or `usize::MAX` where it is longer.
pub fn byte_len_saturating(s: &[char]) -> (r: usize)
    ensures
        r == saturated(byte_len(s@)),
{
    let mut total: usize = 0;
    let mut k: usize = 0;
    assert(s@.take(0) =~= Seq::<char>::empty());
    assert(vstd::utf8::encode_utf8(Seq::<char>::empty()) =~= Seq::<u8>::empty());
    while k < s.len()
        invariant
            k <= s@.len(),
            total == saturated(byte_len(s@.take(k as int))),
        decreases s@.len() - k,
    {
        proof {
            lemma_byte_len_push(s@.take(k as int), s@[k as int]);
            assert(s@.take(k + 1) =~= s@.take(k as int).push(s@[k as int]));
        }
        total = total.saturating_add(utf8_width(s[k]));
        k += 1;
    }
    assert(s@.take(k as int) =~= s@);
    total
}

/// A name for the text that `{:?}` (`Debug`) writes for a string slice: the text in double
/// quotes, with some characters escaped.
pub uninterp spec fn debug_quoted(s: Seq<char>) -> Seq<char>;

/// The `Debug` rendering of a string slice, as `format!("{:?}", s)` writes it; the contract
/// names the result [`debug_quoted`] of the text.
#[verifier::external_body]
pub fn debug_str(s: &str) -> (r: String)
    ensures
        r@ == debug_quoted(s@),
{
    format!("{:?}", s)
}

/// Whether `a` sorts before `b` or equals it in the order of `str`'s `Ord`: lexicographic by
/// Unicode scalar value (which is the order of the UTF-8 bytes).
pub open spec fn text_le(a: Seq<char>, b: Seq<char>) -> bool
    decreases a.len(),
{
    if a.len() == 0 {
        true
    } else if b.len() == 0 {
        false
    } else if a[0] != b[0] {
        (a[0] as u32) < (b[0] as u32)
    } else {
        text_le(a.drop_first(), b.drop_first())
    }
}

/// Of two texts, one sorts before the other or equals it.
pub proof fn lemma_text_le_total(a: Seq<char>, b: Seq<char>)
    ensures
        text_le(a, b) || text_le(b, a),
    decreases a.len(),
{
    if a.len() > 0 && b.len() > 0 {
        if a[0] == b[0] {
            lemma_text_le_total(a.drop_first(), b.drop_first());
        } else {
            vstd::utf8::char_u32_cast(a[0], a[0] as u32);
            vstd::utf8::char_u32_cast(b[0], b[0] as u32);
        }
    }
}

/// Whether `a` sorts before `b` or equals it, as `str`'s `Ord` orders them.
pub fn text_le_exec(a: &[char], b: &[char]) -> (r: bool)
    ensures
        r == text_le(a@, b@),
{
    let mut i: usize = 0;
    assert(a@.skip(0) =~= a@);
    assert(b@.skip(0) =~= b@);
    while i < a.len() && i < b.len() && a[i] == b[i]
        invariant
            i <= a@.len(),
            i <= b@.len(),
            text_le(a@, b@) == text_le(a@.skip(i as int), b@.skip(i as int)),
        decreases a@.len() - i,
    {
        assert(a@.skip(i as int).drop_first() =~= a@.skip(i + 1));
        assert(b@.skip(i as int).drop_first() =~= b@.skip(i + 1));
        i += 1;
    }
    if i == a.len() {
        true
    } else if i == b.len() {
        false
    } else {
        (a[i] as u32) < (b[i] as u32)
    }
}

/// Whether each text of `v` sorts before the next or equals it.
pub open spec fn sorted_texts(v: Seq<Seq<char>>) -> bool {
    forall|i: int| 0 <= i < v.len() - 1 ==> text_le(#[trigger] v[i], v[i + 1])
}

/// The views of a list of strings.
pub open spec fn string_views(v: Seq<String>) -> Seq<Seq<char>> {
    Seq::new(v.len(), |i: int| v[i]@)
}

/// The strings of `v` in ascending order, as `sort_unstable` on `str`s sorts them.
pub fn sort_strings(v: &Vec<String>) -> (r: Vec<String>)
    ensures
        sorted_texts(string_views(r@)),
        string_views(r@).to_multiset() == string_views(v@).to_multiset(),
{
    let mut out: Vec<String> = Vec::new();
    let mut k: usize = 0;
    assert(string_views(v@).take(0) =~= Seq::<Seq<char>>::empty());
    assert(string_views(out@) =~= Seq::<Seq<char>>::empty());
    while k < v.len()
        invariant
            k <= v@.len(),
            sorted_texts(string_views(out@)),
            string_views(out@).to_multiset() == string_views(v@).take(k as int).to_multiset(),
        decreases v@.len() - k,
    {
        let x = v[k].clone();
        let xc = chars_of(x.as_str());
        let mut p: usize = 0;
        while p < out.len() && text_le_exec(chars_of(out[p].as_str()).as_slice(), xc.as_slice())
            invariant
                xc@ == x@,
                p <= out@.len(),
                forall|j: int| 0 <= j < p ==> text_le(#[trigger] out@[j]@, x@),
            decreases out@.len() - p,
        {
            p += 1;
        }
        let ghost before = string_views(out@);
        proof {
            if p < out@.len() {
                lemma_text_le_total(out@[p as int]@, x@);
            }
        }
        out.insert(p, x);
        proof {
            assert(string_views(out@) =~= before.insert(p as int, v@[k as int]@));
            vstd::seq_lib::to_multiset_insert(before, p as int, v@[k as int]@);
            assert(string_views(v@).take(k + 1) =~= string_views(v@).take(k as int).push(v@[k as int]@));
            string_views(v@).take(k as int).to_multiset_ensures();
            let after = string_views(out@);
            assert forall|i: int| 0 <= i < after.len() - 1 implies text_le(#[trigger] after[i], after[i + 1]) by {
                if i < p - 1 {
                    assert(after[i] == before[i] && after[i + 1] == before[i + 1]);
                } else if i == p - 1 {
                    assert(after[i] == before[i]);
                } else if i == p {
                } else {
                    assert(after[i] == before[i - 1] && after[i + 1] == before[i]);
                }
            }
        }
        k += 1;
    }
    assert(string_views(v@).take(k as int) =~= string_views(v@));
    out
}

/// `ls` joined with `sep` between each two of them.
pub open spec fn join_with(ls: Seq<Seq<char>>, sep: Seq<char>) -> Seq<char>
    decreases ls.len(),
{
    if ls.len() == 0 {
        seq![]
    } else if ls.len() == 1 {
        ls[0]
    } else {
        join_with(ls.drop_last(), sep) + sep + ls.last()
    }
}

/// The characters of `ls` joined with `sep` between each two of them.
pub fn join_strings_with(ls: &Vec<String>, sep: &str) -> (r: Vec<char>)
    ensures
        r@ == join_with(string_views(ls@), sep@),
{
    let ghost v = string_views(ls@);
    let mut acc: Vec<char> = Vec::new();
    let mut k: usize = 0;
    while k < ls.len()
        invariant
            v == string_views(ls@),
            k <= ls@.len(),
            acc@ == join_with(v.take(k as int), sep@),
        decreases ls@.len() - k,
    {
        if k > 0 {
            push_str_chars(&mut acc, sep);
        }
        push_str_chars(&mut acc, ls[k].as_str());
        assert(v.take(k + 1).drop_last() =~= v.take(k as int));
        assert(v.take(k + 1).last() == ls@[k as int]@);
        assert(acc@ =~= join_with(v.take(k + 1), sep@));
        k += 1;
    }
    assert(v.take(k as int) =~= v);
    acc
}

} // verus!
