//! Reading IRC messages: message prefixes, and whether a message is addressed to the bot.

use vstd::prelude::*;
use crate::util::text::{chars_of, string_of_range, trim, trim_bounds};

verus! {

/// The prefix of an IRC message, which identifies its sender: `nick!user@host`.
#[derive(Clone, Debug, PartialEq, Eq)]
pub struct MsgPrefix {
    /// The sender's nickname.
    pub nick: Option<String>,
    /// The sender's username.
    pub user: Option<String>,
    /// The sender's host.
    pub host: Option<String>,
}

/// The index of the last `c` in `s`, if any.
pub open spec fn last_index_of(s: Seq<char>, c: char) -> Option<int>
    decreases s.len(),
{
    if s.len() == 0 {
        None
    } else if s.last() == c {
        Some(s.len() - 1)
    } else {
        last_index_of(s.drop_last(), c)
    }
}

/// The index of the first `c` in `s` at or after `from`, if any.
pub open spec fn first_index_from(s: Seq<char>, c: char, from: int) -> Option<int>
    decreases s.len() - from,
{
    if from < 0 || from >= s.len() {
        None
    } else if s[from] == c {
        Some(from)
    } else {
        first_index_from(s, c, from + 1)
    }
}

/// The index of the first `c` in `s`, if any.
pub open spec fn first_index_of(s: Seq<char>, c: char) -> Option<int> {
    first_index_from(s, c, 0)
}

/// The parts of a prefix: the host is what follows the last `@` (or the whole prefix, if it
/// has none); before that, the nickname is what precedes the first `!` (or all of it), and the
/// username what follows that `!`, if there is one.
pub open spec fn prefix_parts(s: Seq<char>) -> (Seq<char>, Option<Seq<char>>, Seq<char>) {
    let (rest, host) = match last_index_of(s, '@') {
        Some(i) => (s.take(i), s.skip(i + 1)),
        None => (seq![], s),
    };
    match first_index_of(rest, '!') {
        Some(j) => (rest.take(j), Some(rest.skip(j + 1)), host),
        None => (rest, None, host),
    }
}

fn last_index_exec(s: &[char], c: char) -> (r: Option<usize>)
    ensures
        match last_index_of(s@, c) {
            Some(i) => r == Some(i as usize) && 0 <= i < s@.len(),
            None => r is None,
        },
{
    let mut i = s.len();
    assert(s@.take(i as int) =~= s@);
    while i > 0
        invariant
            i <= s@.len(),
            last_index_of(s@, c) == last_index_of(s@.take(i as int), c),
        decreases i,
    {
        let ghost t = s@.take(i as int);
        assert(t.last() == s@[i - 1]);
        if s[i - 1] == c {
            return Some(i - 1);
        }
        assert(t.drop_last() =~= s@.take(i - 1));
        i -= 1;
    }
    None
}

fn first_index_exec(s: &[char], c: char) -> (r: Option<usize>)
    ensures
        match first_index_of(s@, c) {
            Some(i) => r == Some(i as usize) && 0 <= i < s@.len(),
            None => r is None,
        },
{
    let mut i: usize = 0;
    while i < s.len()
        invariant
            i <= s@.len(),
            first_index_of(s@, c) == first_index_from(s@, c, i as int),
        decreases s@.len() - i,
    {
        if s[i] == c {
            return Some(i);
        }
        i += 1;
    }
    None
}

fn chars_to_string(s: &[char]) -> (r: String)
    ensures
        r@ == s@,
{
    let r = string_of_range(s, 0, s.len());
    assert(s@.subrange(0, s@.len() as int) =~= s@);
    r
}

/// Splits a message's prefix, if it has one, into nickname, username and host (see
/// [`prefix_parts`]); a message without a prefix has none of them.
pub fn parse_prefix(prefix: &Option<String>) -> (r: MsgPrefix)
    ensures
        match prefix {
            None => r.nick is None && r.user is None && r.host is None,
            Some(s) => {
                let (n, u, h) = prefix_parts(s@);
                &&& r.nick matches Some(x) && x@ == n
                &&& match u {
                    Some(y) => r.user matches Some(x) && x@ == y,
                    None => r.user is None,
                }
                &&& r.host matches Some(x) && x@ == h
            },
        },
{
    let s = match prefix {
        Some(s) => s,
        None => {
            return MsgPrefix { nick: None, user: None, host: None };
        },
    };
    let cs = chars_of(s.as_str());
    let (rest, host) = split_at_last(cs.as_slice(), '@');
    let rl = rest.len();
    let (nick, user) = match first_index_exec(rest.as_slice(), '!') {
        Some(j) => {
            assert(j < rl);
            let n = string_of_range(rest.as_slice(), 0, j);
            let u = string_of_range(rest.as_slice(), j + 1, rest.len());
            assert(rest@.subrange(0, j as int) =~= rest@.take(j as int));
            assert(rest@.subrange(j + 1, rest@.len() as int) =~= rest@.skip(j + 1));
            (n, Some(u))
        },
        None => (chars_to_string(rest.as_slice()), None),
    };
    let hs = chars_to_string(host.as_slice());
    MsgPrefix { nick: Some(nick), user, host: Some(hs) }
}

fn split_at_last(cs: &[char], c: char) -> (r: (Vec<char>, Vec<char>))
    ensures
        match last_index_of(cs@, c) {
            Some(i) => r.0@ == cs@.take(i) && r.1@ == cs@.skip(i + 1),
            None => r.0@ == Seq::<char>::empty() && r.1@ == cs@,
        },
{
    let n = cs.len();
    match last_index_exec(cs, c) {
        Some(i) => {
            assert(i < n);
            let mut a: Vec<char> = Vec::new();
            let mut b: Vec<char> = Vec::new();
            let mut k: usize = 0;
            while k < i
                invariant
                    i < cs@.len(),
                    k <= i,
                    a@ == cs@.take(k as int),
                decreases i - k,
            {
                a.push(cs[k]);
                k += 1;
                assert(a@ =~= cs@.take(k as int));
            }
            let mut k: usize = i + 1;
            while k < cs.len()
                invariant
                    i < cs@.len(),
                    i + 1 <= k <= cs@.len(),
                    b@ == cs@.subrange(i + 1, k as int),
                decreases cs@.len() - k,
            {
                b.push(cs[k]);
                k += 1;
                assert(b@ =~= cs@.subrange(i + 1, k as int));
            }
            assert(b@ =~= cs@.skip(i + 1));
            (a, b)
        },
        None => {
            let a: Vec<char> = Vec::new();
            let mut b: Vec<char> = Vec::new();
            let mut k: usize = 0;
            while k < cs.len()
                invariant
                    k <= cs@.len(),
                    b@ == cs@.take(k as int),
                decreases cs@.len() - k,
            {
                b.push(cs[k]);
                k += 1;
                assert(b@ =~= cs@.take(k as int));
            }
            assert(b@ =~= cs@);
            assert(a@ =~= Seq::<char>::empty());
            (a, b)
        },
    }
}

/// Whether `s` starts with `p`.
pub open spec fn starts_with(s: Seq<char>, p: Seq<char>) -> bool {
    p.len() <= s.len() && s.take(p.len() as int) == p
}

/// The index of the first character of `s` at or after `from` that is in `set`, if any.
pub open spec fn first_index_in_from(s: Seq<char>, set: Seq<char>, from: int) -> Option<int>
    decreases s.len() - from,
{
    if from < 0 || from >= s.len() {
        None
    } else if set.contains(s[from]) {
        Some(from)
    } else {
        first_index_in_from(s, set, from + 1)
    }
}

/// The index of the first character of `s` that is in `set`, if any.
pub open spec fn first_index_in(s: Seq<char>, set: Seq<char>) -> Option<int> {
    first_index_in_from(s, set, 0)
}

/// The characters that, directly after the bot's nickname, mark a message as addressed to the
/// bot: `:` and `,`.
pub fn addressing_chars() -> (r: Vec<char>)
    ensures
        r@ == seq![':', ','],
{
    let mut v: Vec<char> = Vec::new();
    v.push(':');
    v.push(',');
    v
}

/// Whether a message to `target` is addressed to the bot, whose nickname is `nick`: it was sent
/// to the bot itself, or it is the nickname alone, or it starts with the nickname directly
/// followed by one of the characters `addressing_chars` (such as `:` or `,`), which are not
/// met before it.
pub open spec fn msg_is_to_nick(addressing_chars: Seq<char>, target: Seq<char>, msg: Seq<char>, nick: Seq<char>) -> bool {
    ||| target == nick
    ||| msg == nick
    ||| (starts_with(msg, nick) && first_index_in(msg, addressing_chars) == Some(nick.len() as int))
}

fn seq_eq(a: &[char], b: &[char]) -> (r: bool)
    ensures
        r == (a@ == b@),
{
    if a.len() != b.len() {
        return false;
    }
    let mut i: usize = 0;
    while i < a.len()
        invariant
            a@.len() == b@.len(),
            i <= a@.len(),
            forall|k: int| 0 <= k < i ==> a@[k] == b@[k],
        decreases a@.len() - i,
    {
        if a[i] != b[i] {
            return false;
        }
        i += 1;
    }
    assert(a@ =~= b@);
    true
}

fn in_set(set: &[char], c: char) -> (r: bool)
    ensures
        r == set@.contains(c),
{
    let mut i: usize = 0;
    while i < set.len()
        invariant
            i <= set@.len(),
            forall|k: int| 0 <= k < i ==> set@[k] != c,
        decreases set@.len() - i,
    {
        if set[i] == c {
            assert(set@[i as int] == c);
            return true;
        }
        i += 1;
    }
    false
}

fn first_index_in_exec(s: &[char], set: &[char]) -> (r: Option<usize>)
    ensures
        match first_index_in(s@, set@) {
            Some(i) => r == Some(i as usize) && 0 <= i < s@.len(),
            None => r is None,
        },
{
    let mut i: usize = 0;
    while i < s.len()
        invariant
            i <= s@.len(),
            first_index_in(s@, set@) == first_index_in_from(s@, set@, i as int),
        decreases s@.len() - i,
    {
        if in_set(set, s[i]) {
            return Some(i);
        }
        i += 1;
    }
    None
}

/// Whether a message to `target` is addressed to the bot, whose nickname is `nick` (see
/// [`msg_is_to_nick`]).
pub fn is_msg_to_nick(addressing_chars: &[char], target: &str, msg: &str, nick: &str) -> (r: bool)
    ensures
        r == msg_is_to_nick(addressing_chars@, target@, msg@, nick@),
{
    let t = chars_of(target);
    let m = chars_of(msg);
    let n = chars_of(nick);
    if seq_eq(t.as_slice(), n.as_slice()) {
        return true;
    }
    if seq_eq(m.as_slice(), n.as_slice()) {
        return true;
    }
    assert(target@ != nick@);
    assert(msg@ != nick@);
    if n.len() > m.len() {
        assert(!starts_with(msg@, nick@));
        return false;
    }
    let mut i: usize = 0;
    while i < n.len()
        invariant
            n@.len() <= m@.len(),
            m@ == msg@,
            n@ == nick@,
            target@ != nick@,
            msg@ != nick@,
            i <= n@.len(),
            forall|k: int| 0 <= k < i ==> m@[k] == n@[k],
        decreases n@.len() - i,
    {
        if m[i] != n[i] {
            assert(m@.take(n@.len() as int)[i as int] != n@[i as int]);
            return false;
        }
        i += 1;
    }
    assert(m@.take(n@.len() as int) =~= n@);
    assert(starts_with(msg@, nick@));
    match first_index_in_exec(m.as_slice(), addressing_chars) {
        Some(j) => j == n.len(),
        None => false,
    }
}

/// `s` with as many leading copies of `p` as there are removed (none, for an empty `p`), as
/// `str::trim_start_matches` removes them.
pub open spec fn strip_repeated(s: Seq<char>, p: Seq<char>) -> Seq<char>
    decreases s.len(),
{
    if p.len() > 0 && starts_with(s, p) {
        strip_repeated(s.skip(p.len() as int), p)
    } else {
        s
    }
}

/// `s` without the leading characters that are in `set`.
pub open spec fn strip_leading_in(s: Seq<char>, set: Seq<char>) -> Seq<char>
    decreases s.len(),
{
    if s.len() > 0 && set.contains(s[0]) {
        strip_leading_in(s.drop_first(), set)
    } else {
        s
    }
}

/// The text of a message addressed to the bot, with the addressing taken off: leading copies
/// of the nickname, then leading addressing characters, then surrounding whitespace.
pub open spec fn msg_text_to_nick(addressing_chars: Seq<char>, msg: Seq<char>, nick: Seq<char>) -> Seq<char> {
    trim(strip_leading_in(strip_repeated(msg, nick), addressing_chars))
}

fn strip_repeated_end(m: &[char], n: &[char]) -> (r: usize)
    ensures
        r <= m@.len(),
        strip_repeated(m@, n@) == m@.skip(r as int),
{
    let mut pos: usize = 0;
    assert(m@.skip(0) =~= m@);
    if n.len() == 0 {
        return 0;
    }
    loop
        invariant
            n@.len() > 0,
            pos <= m@.len(),
            strip_repeated(m@, n@) == strip_repeated(m@.skip(pos as int), n@),
        decreases m@.len() - pos,
    {
        if n.len() > m.len() - pos {
            assert(!starts_with(m@.skip(pos as int), n@));
            return pos;
        }
        if !starts_at(m, n, pos) {
            return pos;
        }
        assert(m@.skip(pos as int).skip(n@.len() as int) =~= m@.skip(pos + n@.len()));
        pos = pos + n.len();
    }
}

fn starts_at(m: &[char], n: &[char], pos: usize) -> (r: bool)
    requires
        pos + n@.len() <= m@.len(),
    ensures
        r == starts_with(m@.skip(pos as int), n@),
{
    let ml = m.len();
    let mut k: usize = 0;
    while k < n.len()
        invariant
            ml == m@.len(),
            pos + n@.len() <= m@.len(),
            k <= n@.len(),
            forall|x: int| 0 <= x < k ==> m@[pos + x] == n@[x],
        decreases n@.len() - k,
    {
        if m[pos + k] != n[k] {
            assert(m@.skip(pos as int).take(n@.len() as int)[k as int] == m@[pos + k]);
            return false;
        }
        k += 1;
    }
    assert(m@.skip(pos as int).take(n@.len() as int) =~= n@);
    true
}

fn strip_leading_end(m: &[char], pos: usize, set: &[char]) -> (r: usize)
    requires
        pos <= m@.len(),
    ensures
        pos <= r <= m@.len(),
        strip_leading_in(m@.skip(pos as int), set@) == m@.skip(r as int),
{
    let mut q = pos;
    while q < m.len() && in_set(set, m[q])
        invariant
            pos <= q <= m@.len(),
            strip_leading_in(m@.skip(pos as int), set@) == strip_leading_in(m@.skip(q as int), set@),
        decreases m@.len() - q,
    {
        assert(m@.skip(q as int).drop_first() =~= m@.skip(q + 1));
        q += 1;
    }
    q
}

/// Where a message to `target` is addressed to the bot (see [`msg_is_to_nick`]), its text
/// with the addressing taken off (see [`msg_text_to_nick`]).
pub fn parse_msg_to_nick(addressing_chars: &[char], target: &str, msg: &str, nick: &str) -> (r: Option<String>)
    ensures
        msg_is_to_nick(addressing_chars@, target@, msg@, nick@) ==> (r matches Some(x) && x@ == msg_text_to_nick(addressing_chars@, msg@, nick@)),
        !msg_is_to_nick(addressing_chars@, target@, msg@, nick@) ==> r is None,
{
    if !is_msg_to_nick(addressing_chars, target, msg, nick) {
        return None;
    }
    let m = chars_of(msg);
    let n = chars_of(nick);
    let pos = strip_repeated_end(m.as_slice(), n.as_slice());
    let q = strip_leading_end(m.as_slice(), pos, addressing_chars);
    let (a, b) = trim_bounds(m.as_slice(), q, m.len());
    assert(m@.subrange(q as int, m@.len() as int) =~= m@.skip(q as int));
    Some(string_of_range(m.as_slice(), a, b))
}

} // verus!
