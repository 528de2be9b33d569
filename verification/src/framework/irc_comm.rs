//! Composing the bot's outgoing IRC messages: wrapping long lines, replies, and the reactions
//! to bot commands.

use vstd::prelude::*;
use super::bot_cmd::BotCmdResult;
use super::err::{error_message, FrameworkError};
use super::reaction::{ErrorReaction, LibReaction, Reaction};
use crate::util::text::{
    debug_quoted, debug_str, lines_of, line_ranges, range_texts, push_str_chars, string_from_chars, string_views,
    byte_len, chars_of, is_whitespace, is_whitespace_exec, str_eq, string_of_range, trim, trim_bounds, trim_string,
    utf8_width, stripped_from, lemma_trim_strips, lemma_stripped_from_self,
};
use super::irc_msgs::{is_msg_to_nick, msg_is_to_nick, MsgPrefix};
use super::state::opt_view;

verus! {

/// The length in bytes of the first `k` characters of `cs`.
pub open spec fn prefix_bytes(cs: Seq<char>, k: int) -> nat {
    byte_len(cs.take(k))
}

/// The index of the first whitespace character of `cs` at or after `ptr`, or the length of
/// `cs`.
pub open spec fn next_ws(cs: Seq<char>, ptr: int) -> int
    decreases cs.len() - ptr,
{
    if ptr < 0 || ptr >= cs.len() {
        cs.len() as int
    } else if is_whitespace(cs[ptr]) {
        ptr
    } else {
        next_ws(cs, ptr + 1)
    }
}

proof fn lemma_next_ws_bounds(cs: Seq<char>, ptr: int)
    requires
        0 <= ptr,
    ensures
        next_ws(cs, ptr) >= ptr || next_ws(cs, ptr) == cs.len(),
        next_ws(cs, ptr) <= cs.len(),
        ptr <= cs.len() ==> ptr <= next_ws(cs, ptr),
        next_ws(cs, ptr) < cs.len() ==> is_whitespace(cs[next_ws(cs, ptr)]),
        forall|k: int| ptr <= k < next_ws(cs, ptr) ==> !is_whitespace(#[trigger] cs[k]),
    decreases cs.len() - ptr,
{
    if ptr < cs.len() && !is_whitespace(cs[ptr]) {
        lemma_next_ws_bounds(cs, ptr + 1);
    }
}

/// Takes the words of a chunk that starts at `s`: while the next whitespace (from `ptr` on)
/// ends the chunk at fewer than `limit` bytes, the chunk's end moves to it. Gives the end and
/// where the search for whitespace goes on.
pub open spec fn scan_words(cs: Seq<char>, s: int, e: int, ptr: int, limit: nat) -> (int, int)
    decreases cs.len() - ptr,
{
    let w = next_ws(cs, ptr);
    if 0 <= ptr && ptr <= w < cs.len() && prefix_bytes(cs, w) < prefix_bytes(cs, s) + limit {
        scan_words(cs, s, w, w + 1, limit)
    } else {
        (e, ptr)
    }
}

/// The index of the character boundary at byte `b` of `cs`, or `-1` where `b` falls inside a
/// character.
pub open spec fn boundary_at(cs: Seq<char>, b: nat) -> int {
    if exists|k: int| 0 <= k <= cs.len() && prefix_bytes(cs, k) == b {
        choose|k: int| 0 <= k <= cs.len() && prefix_bytes(cs, k) == b
    } else {
        -1
    }
}

/// Where the chunk that starts at `s` ends, and where the search for whitespace goes on: after
/// its words (see [`scan_words`]); at the end of the text where no whitespace follows; and, where
/// not even one word fits, after `limit` bytes (or at the end of the text).
pub open spec fn chunk_end(cs: Seq<char>, s: int, ptr: int, limit: nat) -> (int, int) {
    let (e1, p1) = scan_words(cs, s, s, ptr, limit);
    if next_ws(cs, p1) >= cs.len() {
        (cs.len() as int, p1)
    } else if e1 <= s {
        let b = if prefix_bytes(cs, s) + limit < byte_len(cs) {
            prefix_bytes(cs, s) + limit
        } else {
            byte_len(cs)
        };
        (boundary_at(cs, b), p1)
    } else {
        (e1, p1)
    }
}

/// Whether wrapping from `s` on cuts only at character boundaries, each chunk ending past
/// where it starts.
pub open spec fn wrap_cuts_ok(cs: Seq<char>, s: int, ptr: int, limit: nat) -> bool
    decreases cs.len() - s,
{
    if s < 0 || s >= cs.len() {
        true
    } else {
        let (e, p) = chunk_end(cs, s, ptr, limit);
        s < e <= cs.len() && wrap_cuts_ok(cs, e, p, limit)
    }
}

/// The ends of the chunks that wrapping from `s` on makes.
pub open spec fn wrap_ends(cs: Seq<char>, s: int, ptr: int, limit: nat) -> Seq<int>
    decreases cs.len() - s,
{
    if s < 0 || s >= cs.len() {
        seq![]
    } else {
        let (e, p) = chunk_end(cs, s, ptr, limit);
        if s < e <= cs.len() {
            seq![e] + wrap_ends(cs, e, p, limit)
        } else {
            seq![]
        }
    }
}

/// The lines that wrapping the chunks from `s` on gives: each chunk, trimmed.
pub open spec fn wrap_lines(cs: Seq<char>, s: int, ptr: int, limit: nat) -> Seq<Seq<char>>
    decreases cs.len() - s,
{
    if s < 0 || s >= cs.len() {
        seq![]
    } else {
        let (e, p) = chunk_end(cs, s, ptr, limit);
        if s < e <= cs.len() {
            seq![trim(cs.subrange(s, e))] + wrap_lines(cs, e, p, limit)
        } else {
            seq![]
        }
    }
}

proof fn lemma_prefix_bytes_step(cs: Seq<char>, k: int)
    requires
        0 <= k < cs.len(),
    ensures
        prefix_bytes(cs, k + 1) == prefix_bytes(cs, k) + vstd::utf8::encode_scalar(cs[k] as u32).len(),
        prefix_bytes(cs, k + 1) > prefix_bytes(cs, k),
{
    assert(cs.take(k + 1) =~= cs.take(k).push(cs[k]));
    crate::util::text::lemma_byte_len_push(cs.take(k), cs[k]);
    vstd::utf8::char_is_scalar(cs[k]);
}

/// Prefix byte lengths grow strictly with the number of characters.
proof fn lemma_prefix_bytes_strict(cs: Seq<char>, i: int, j: int)
    requires
        0 <= i < j <= cs.len(),
    ensures
        prefix_bytes(cs, i) < prefix_bytes(cs, j),
    decreases j - i,
{
    lemma_prefix_bytes_step(cs, j - 1);
    if i < j - 1 {
        lemma_prefix_bytes_strict(cs, i, j - 1);
    }
}

proof fn lemma_prefix_bytes_all(cs: Seq<char>)
    ensures
        prefix_bytes(cs, 0) == 0,
        prefix_bytes(cs, cs.len() as int) == byte_len(cs),
{
    assert(cs.take(0) =~= Seq::<char>::empty());
    assert(vstd::utf8::encode_utf8(Seq::<char>::empty()) =~= Seq::<u8>::empty());
    assert(cs.take(cs.len() as int) =~= cs);
}

fn prefix_offsets(cs: &[char]) -> (r: Vec<usize>)
    requires
        byte_len(cs@) <= usize::MAX,
    ensures
        r@.len() == cs@.len() + 1,
        forall|k: int| 0 <= k <= cs@.len() ==> #[trigger] r@[k] == prefix_bytes(cs@, k),
{
    proof {
        lemma_prefix_bytes_all(cs@);
    }
    let mut r: Vec<usize> = Vec::new();
    r.push(0);
    let mut total: usize = 0;
    let mut k: usize = 0;
    while k < cs.len()
        invariant
            byte_len(cs@) <= usize::MAX,
            prefix_bytes(cs@, cs@.len() as int) == byte_len(cs@),
            k <= cs@.len(),
            r@.len() == k + 1,
            total == prefix_bytes(cs@, k as int),
            forall|j: int| 0 <= j <= k ==> #[trigger] r@[j] == prefix_bytes(cs@, j),
        decreases cs@.len() - k,
    {
        proof {
            lemma_prefix_bytes_step(cs@, k as int);
            if k + 1 < cs@.len() {
                lemma_prefix_bytes_strict(cs@, k + 1, cs@.len() as int);
            }
        }
        total = total + utf8_width(cs[k]);
        r.push(total);
        k += 1;
    }
    r
}

fn next_ws_exec(cs: &[char], ptr: usize) -> (r: usize)
    requires
        ptr <= cs@.len(),
    ensures
        r == next_ws(cs@, ptr as int),
        ptr <= r <= cs@.len(),
{
    let mut i = ptr;
    while i < cs.len() && !is_whitespace_exec(cs[i])
        invariant
            ptr <= i <= cs@.len(),
            next_ws(cs@, ptr as int) == next_ws(cs@, i as int),
        decreases cs@.len() - i,
    {
        i += 1;
    }
    i
}

fn find_boundary(cs: &[char], offs: &Vec<usize>, b: usize) -> (r: usize)
    requires
        offs@.len() == cs@.len() + 1,
        forall|k: int| 0 <= k <= cs@.len() ==> #[trigger] offs@[k] == prefix_bytes(cs@, k),
        boundary_at(cs@, b as nat) >= 0,
    ensures
        r == boundary_at(cs@, b as nat),
{
    let ghost k0 = boundary_at(cs@, b as nat);
    let mut k: usize = 0;
    while k < cs.len() && offs[k] != b
        invariant
            offs@.len() == cs@.len() + 1,
            forall|j: int| 0 <= j <= cs@.len() ==> #[trigger] offs@[j] == prefix_bytes(cs@, j),
            k0 == boundary_at(cs@, b as nat),
            0 <= k0 <= cs@.len(),
            prefix_bytes(cs@, k0) == b,
            k <= k0,
        decreases cs@.len() - k,
    {
        proof {
            if k == k0 {
                assert(offs@[k as int] == b);
            }
        }
        k += 1;
    }
    proof {
        if k < k0 {
            lemma_prefix_bytes_strict(cs@, k as int, k0);
        }
        if k == cs@.len() && k < k0 {
            assert(false);
        }
    }
    k
}

/// Splits `cs` into chunks as [`wrap_lines`] does, and trims each.
fn wrap_chunks(cs: &[char], offs: &Vec<usize>, limit: usize) -> (r: Vec<String>)
    requires
        offs@.len() == cs@.len() + 1,
        forall|k: int| 0 <= k <= cs@.len() ==> #[trigger] offs@[k] == prefix_bytes(cs@, k),
        wrap_cuts_ok(cs@, 0, 0, limit as nat),
    ensures
        crate::util::text::string_views(r@) == wrap_lines(cs@, 0, 0, limit as nat),
{
    let n = cs.len();
    let mut out: Vec<String> = Vec::new();
    let mut s: usize = 0;
    let mut ptr: usize = 0;
    assert(crate::util::text::string_views(out@) =~= Seq::<Seq<char>>::empty());
    while s < n
        invariant
            n == cs@.len(),
            offs@.len() == cs@.len() + 1,
            forall|k: int| 0 <= k <= cs@.len() ==> #[trigger] offs@[k] == prefix_bytes(cs@, k),
            s <= n,
            ptr <= n,
            forall|k: int| ptr <= k < s ==> !is_whitespace(#[trigger] cs@[k]),
            wrap_cuts_ok(cs@, s as int, ptr as int, limit as nat),
            wrap_lines(cs@, 0, 0, limit as nat) == crate::util::text::string_views(out@) + wrap_lines(cs@, s as int, ptr as int, limit as nat),
        decreases n - s,
    {
        let mut e = s;
        let mut p = ptr;
        let mut w = next_ws_exec(cs, p);
        proof {
            lemma_next_ws_bounds(cs@, p as int);
            if w < s {
                assert(!is_whitespace(cs@[w as int]));
            }
            if w < n && s < w {
                lemma_prefix_bytes_strict(cs@, s as int, w as int);
            }
        }
        while w < n && offs[w] - offs[s] < limit
            invariant
                n == cs@.len(),
                offs@.len() == cs@.len() + 1,
                forall|k: int| 0 <= k <= cs@.len() ==> #[trigger] offs@[k] == prefix_bytes(cs@, k),
                s < n,
                s <= e,
                p <= n,
                w == next_ws(cs@, p as int),
                s <= w <= n,
                w < n ==> offs@[s as int] <= offs@[w as int],
                e == s || p == e + 1,
                scan_words(cs@, s as int, s as int, ptr as int, limit as nat) == scan_words(cs@, s as int, e as int, p as int, limit as nat),
            decreases n - p,
        {
            proof {
                if s < w {
                    lemma_prefix_bytes_strict(cs@, s as int, w as int);
                }
                lemma_next_ws_bounds(cs@, p as int);
            }
            e = w;
            p = w + 1;
            w = next_ws_exec(cs, p);
            proof {
                lemma_next_ws_bounds(cs@, p as int);
                if w < n && s < w {
                    lemma_prefix_bytes_strict(cs@, s as int, w as int);
                }
            }
        }
        proof {
            lemma_next_ws_bounds(cs@, p as int);
        }
        proof {
            if w < n && s < w {
                lemma_prefix_bytes_strict(cs@, s as int, w as int);
            }
        }
        assert(scan_words(cs@, s as int, s as int, ptr as int, limit as nat) == (e as int, p as int));
        let end: usize = if w >= n {
            n
        } else if e <= s {
            let b = if offs[s] < offs[n] && offs[n] - offs[s] > limit {
                offs[s] + limit
            } else {
                offs[n]
            };
            proof {
                lemma_prefix_bytes_all(cs@);
            }
            find_boundary(cs, offs, b)
        } else {
            e
        };
        let ghost step = chunk_end(cs@, s as int, ptr as int, limit as nat);
        assert(step == (end as int, p as int));
        proof {
            if w < n && e <= s {
                assert(prefix_bytes(cs@, end as int) <= prefix_bytes(cs@, w as int)) by {
                    lemma_prefix_bytes_all(cs@);
                    if w > s {
                        lemma_prefix_bytes_strict(cs@, s as int, w as int);
                    }
                }
                if end > w {
                    lemma_prefix_bytes_strict(cs@, w as int, end as int);
                }
            }
        }
        let (a, b2) = trim_bounds(cs, s, end);
        let line = string_of_range(cs, a, b2);
        let ghost before = crate::util::text::string_views(out@);
        out.push(line);
        assert(crate::util::text::string_views(out@) =~= before.push(trim(cs@.subrange(s as int, end as int))));
        assert(wrap_lines(cs@, s as int, ptr as int, limit as nat) == seq![trim(cs@.subrange(s as int, end as int))] + wrap_lines(cs@, end as int, p as int, limit as nat));
        assert(crate::util::text::string_views(out@) + wrap_lines(cs@, end as int, p as int, limit as nat) =~= before + wrap_lines(cs@, s as int, ptr as int, limit as nat));
        s = end;
        ptr = p;
    }
    assert(wrap_lines(cs@, s as int, ptr as int, limit as nat) =~= Seq::<Seq<char>>::empty());
    assert(crate::util::text::string_views(out@) + Seq::<Seq<char>>::empty() =~= crate::util::text::string_views(out@));
    out
}

/// The byte offsets of the characters of `cs`, as [`prefix_offsets`] gives them, or `None`
/// where the text is longer than `usize::MAX` bytes.
fn prefix_offsets_checked(cs: &[char]) -> (r: Option<Vec<usize>>)
    ensures
        match r {
            Some(v) => byte_len(cs@) <= usize::MAX && v@.len() == cs@.len() + 1
                && forall|k: int| 0 <= k <= cs@.len() ==> #[trigger] v@[k] == prefix_bytes(cs@, k),
            None => byte_len(cs@) > usize::MAX,
        },
{
    proof {
        lemma_prefix_bytes_all(cs@);
    }
    let mut r: Vec<usize> = Vec::new();
    r.push(0);
    let mut total: usize = 0;
    let mut k: usize = 0;
    while k < cs.len()
        invariant
            prefix_bytes(cs@, cs@.len() as int) == byte_len(cs@),
            k <= cs@.len(),
            r@.len() == k + 1,
            total == prefix_bytes(cs@, k as int),
            forall|j: int| 0 <= j <= k ==> #[trigger] r@[j] == prefix_bytes(cs@, j),
        decreases cs@.len() - k,
    {
        proof {
            lemma_prefix_bytes_step(cs@, k as int);
            if k + 1 < cs@.len() {
                lemma_prefix_bytes_strict(cs@, k + 1, cs@.len() as int);
            }
        }
        match total.checked_add(utf8_width(cs[k])) {
            Some(t) => {
                total = t;
            },
            None => {
                return None;
            },
        }
        r.push(total);
        k += 1;
    }
    Some(r)
}

/// The character boundary at byte `b` of `cs`, if there is one (see [`boundary_at`]).
fn find_boundary_opt(cs: &[char], offs: &Vec<usize>, b: usize) -> (r: Option<usize>)
    requires
        offs@.len() == cs@.len() + 1,
        forall|k: int| 0 <= k <= cs@.len() ==> #[trigger] offs@[k] == prefix_bytes(cs@, k),
    ensures
        match r {
            Some(k) => k == boundary_at(cs@, b as nat) && k <= cs@.len(),
            None => boundary_at(cs@, b as nat) == -1,
        },
{
    let mut k: usize = 0;
    while k < offs.len()
        invariant
            offs@.len() == cs@.len() + 1,
            forall|j: int| 0 <= j <= cs@.len() ==> #[trigger] offs@[j] == prefix_bytes(cs@, j),
            k <= offs@.len(),
            forall|j: int| 0 <= j < k ==> prefix_bytes(cs@, j) != b,
        decreases offs@.len() - k,
    {
        if offs[k] == b {
            proof {
                assert(prefix_bytes(cs@, k as int) == b);
                let k1 = boundary_at(cs@, b as nat);
                assert(0 <= k1 <= cs@.len() && prefix_bytes(cs@, k1) == b);
                if k1 < k {
                    assert(prefix_bytes(cs@, k1) != b);
                } else if k1 > k {
                    lemma_prefix_bytes_strict(cs@, k as int, k1);
                }
            }
            return Some(k);
        }
        k += 1;
    }
    proof {
        assert forall|j: int| 0 <= j <= cs@.len() implies prefix_bytes(cs@, j) != b by {
            assert(offs@[j] == prefix_bytes(cs@, j));
        }
    }
    None
}

/// Whether wrapping `cs` for the limit cuts only at character boundaries (see
/// [`wrap_cuts_ok`]).
fn cuts_ok(cs: &[char], offs: &Vec<usize>, limit: usize) -> (r: bool)
    requires
        offs@.len() == cs@.len() + 1,
        forall|k: int| 0 <= k <= cs@.len() ==> #[trigger] offs@[k] == prefix_bytes(cs@, k),
    ensures
        r == wrap_cuts_ok(cs@, 0, 0, limit as nat),
{
    let n = cs.len();
    let mut s: usize = 0;
    let mut ptr: usize = 0;
    while s < n
        invariant
            n == cs@.len(),
            offs@.len() == cs@.len() + 1,
            forall|k: int| 0 <= k <= cs@.len() ==> #[trigger] offs@[k] == prefix_bytes(cs@, k),
            s <= n,
            ptr <= n,
            forall|k: int| ptr <= k < s ==> !is_whitespace(#[trigger] cs@[k]),
            wrap_cuts_ok(cs@, 0, 0, limit as nat) == wrap_cuts_ok(cs@, s as int, ptr as int, limit as nat),
        decreases n - s,
    {
        let mut e = s;
        let mut p = ptr;
        let mut w = next_ws_exec(cs, p);
        proof {
            lemma_next_ws_bounds(cs@, p as int);
            if w < s {
                assert(!is_whitespace(cs@[w as int]));
            }
            if w < n && s < w {
                lemma_prefix_bytes_strict(cs@, s as int, w as int);
            }
        }
        while w < n && offs[w] - offs[s] < limit
            invariant
                n == cs@.len(),
                offs@.len() == cs@.len() + 1,
                forall|k: int| 0 <= k <= cs@.len() ==> #[trigger] offs@[k] == prefix_bytes(cs@, k),
                s < n,
                s <= e,
                p <= n,
                w == next_ws(cs@, p as int),
                s <= w <= n,
                w < n ==> offs@[s as int] <= offs@[w as int],
                e == s || p == e + 1,
                scan_words(cs@, s as int, s as int, ptr as int, limit as nat) == scan_words(cs@, s as int, e as int, p as int, limit as nat),
            decreases n - p,
        {
            proof {
                if s < w {
                    lemma_prefix_bytes_strict(cs@, s as int, w as int);
                }
                lemma_next_ws_bounds(cs@, p as int);
            }
            e = w;
            p = w + 1;
            w = next_ws_exec(cs, p);
            proof {
                lemma_next_ws_bounds(cs@, p as int);
                if w < n && s < w {
                    lemma_prefix_bytes_strict(cs@, s as int, w as int);
                }
            }
        }
        proof {
            lemma_next_ws_bounds(cs@, p as int);
            if w < n && s < w {
                lemma_prefix_bytes_strict(cs@, s as int, w as int);
            }
        }
        assert(scan_words(cs@, s as int, s as int, ptr as int, limit as nat) == (e as int, p as int));
        let end: usize = if w >= n {
            n
        } else if e <= s {
            let b = if offs[s] < offs[n] && offs[n] - offs[s] > limit {
                offs[s] + limit
            } else {
                offs[n]
            };
            proof {
                lemma_prefix_bytes_all(cs@);
            }
            match find_boundary_opt(cs, offs, b) {
                Some(k) => k,
                None => {
                    return false;
                },
            }
        } else {
            e
        };
        let ghost step = chunk_end(cs@, s as int, ptr as int, limit as nat);
        assert(step == (end as int, p as int));
        if end <= s {
            return false;
        }
        proof {
            if w < n && e <= s {
                assert(prefix_bytes(cs@, end as int) <= prefix_bytes(cs@, w as int)) by {
                    lemma_prefix_bytes_all(cs@);
                    if w > s {
                        lemma_prefix_bytes_strict(cs@, s as int, w as int);
                    }
                }
                if end > w {
                    lemma_prefix_bytes_strict(cs@, w as int, end as int);
                }
            }
        }
        s = end;
        ptr = p;
    }
    true
}

/// Whether a line can be wrapped for the limit (see [`wrappable`]) and is at most `usize::MAX`
/// bytes long.
fn line_wrappable(cs: &[char], limit: usize) -> (r: bool)
    ensures
        r == (wrappable(cs@, limit as nat) && byte_len(cs@) <= usize::MAX),
{
    let offs = match prefix_offsets_checked(cs) {
        Some(v) => v,
        None => {
            return false;
        },
    };
    proof {
        lemma_prefix_bytes_all(cs@);
    }
    if offs[cs.len()] < limit {
        return true;
    }
    cuts_ok(cs, &offs, limit)
}

/// The number of bytes left for the text of a `PRIVMSG` to a target of `target_len` bytes, from
/// a bot whose message prefix is `prefix_len` bytes long: a raw IRC message holds 512 bytes,
/// of which the prefix, the command `PRIVMSG`, the target, two colons, three spaces and the
/// closing CR-LF take their share.
pub open spec fn msg_len_limit(prefix_len: nat, target_len: nat) -> int {
    512 - (prefix_len + 7 + target_len + 7)
}

/// Whether a message of `byte_len(msg)` bytes can be wrapped for a limit without a cut inside a
/// character (see [`wrap_cuts_ok`]); a message under the limit is never cut.
pub open spec fn wrappable(msg: Seq<char>, limit: nat) -> bool {
    byte_len(msg) >= limit ==> wrap_cuts_ok(msg, 0, 0, limit)
}

/// The lines that a message is sent as: itself where it is under the limit, else its chunks
/// trimmed (see [`wrap_lines`]).
pub open spec fn wrapped(msg: Seq<char>, limit: nat) -> Seq<Seq<char>> {
    if byte_len(msg) < limit {
        seq![msg]
    } else {
        wrap_lines(msg, 0, 0, limit)
    }
}

/// The number of bytes left for the text of a `PRIVMSG` to `target` from a bot whose message
/// prefix is `prefix_len` bytes long (see [`msg_len_limit`]).
pub fn privmsg_content_max_len(prefix_len: usize, target: &str) -> (r: usize)
    requires
        prefix_len + 14 + byte_len(target@) < 512,
    ensures
        r == msg_len_limit(prefix_len as nat, byte_len(target@)),
{
    let t = target.len();
    512 - (prefix_len + 7 + t + 7)
}

/// Wraps a message to `target` for sending in `PRIVMSG`s from a bot whose message prefix is
/// `prefix_len` bytes long: a message under the limit (see [`privmsg_content_max_len`]) is sent
/// as it is; a longer one is cut into chunks of whole words under the limit where it can be,
/// each trimmed (see [`wrap_lines`]).
pub fn wrap_msg(prefix_len: usize, target: &str, msg: &str) -> (r: Vec<String>)
    requires
        prefix_len + 14 + byte_len(target@) < 512,
        byte_len(msg@) <= usize::MAX,
        wrappable(msg@, msg_len_limit(prefix_len as nat, byte_len(target@)) as nat),
    ensures
        crate::util::text::string_views(r@) == wrapped(msg@, msg_len_limit(prefix_len as nat, byte_len(target@)) as nat),
        lines_partition(crate::util::text::string_views(r@), msg@),
        greedy_partition(crate::util::text::string_views(r@), msg@, msg_len_limit(prefix_len as nat, byte_len(target@)) as nat),
        forall|i: int| 0 <= i < r@.len() - 1 ==> byte_len(#[trigger] r@[i]@) <= msg_len_limit(prefix_len as nat, byte_len(target@)),
{
    let limit = privmsg_content_max_len(prefix_len, target);
    proof {
        lemma_wrapped_keeps_text(msg@, limit as nat);
        lemma_wrapped_greedily(msg@, limit as nat);
    }
    let cs = chars_of(msg);
    let offs = prefix_offsets(cs.as_slice());
    proof {
        lemma_prefix_bytes_all(cs@);
    }
    if offs[cs.len()] < limit {
        let v = vec![msg.to_owned()];
        assert(crate::util::text::string_views(v@) =~= seq![msg@]);
        return v;
    }
    let r = wrap_chunks(cs.as_slice(), &offs, limit);
    assert forall|i: int| 0 <= i < r@.len() - 1 implies byte_len(#[trigger] r@[i]@) <= limit by {
        assert(string_views(r@)[i] == r@[i]@);
    }
    r
}

/// The chunks, untrimmed, that wrapping from `s` on cuts.
pub open spec fn wrap_pieces(cs: Seq<char>, s: int, ptr: int, limit: nat) -> Seq<Seq<char>>
    decreases cs.len() - s,
{
    if s < 0 || s >= cs.len() {
        seq![]
    } else {
        let (e, p) = chunk_end(cs, s, ptr, limit);
        if s < e <= cs.len() {
            seq![cs.subrange(s, e)] + wrap_pieces(cs, e, p, limit)
        } else {
            seq![]
        }
    }
}

proof fn lemma_scan_words_end(cs: Seq<char>, s: int, e: int, ptr: int, limit: nat)
    requires
        e == s || prefix_bytes(cs, e) < prefix_bytes(cs, s) + limit,
    ensures
        scan_words(cs, s, e, ptr, limit).0 == s || prefix_bytes(cs, scan_words(cs, s, e, ptr, limit).0) < prefix_bytes(cs, s) + limit,
    decreases cs.len() - ptr,
{
    let w = next_ws(cs, ptr);
    if 0 <= ptr && ptr <= w < cs.len() && prefix_bytes(cs, w) < prefix_bytes(cs, s) + limit {
        lemma_scan_words_end(cs, s, w, w + 1, limit);
    }
}

proof fn lemma_piece_bytes(cs: Seq<char>, s: int, e: int)
    requires
        0 <= s <= e <= cs.len(),
    ensures
        byte_len(cs.subrange(s, e)) + prefix_bytes(cs, s) == prefix_bytes(cs, e),
{
    assert(cs.take(e) =~= cs.take(s) + cs.subrange(s, e));
    crate::util::text::lemma_byte_len_concat(cs.take(s), cs.subrange(s, e));
}

proof fn lemma_wrap_pieces(cs: Seq<char>, s: int, ptr: int, limit: nat)
    requires
        0 <= s <= cs.len(),
        wrap_cuts_ok(cs, s, ptr, limit),
    ensures
        wrap_pieces(cs, s, ptr, limit).flatten() == cs.subrange(s, cs.len() as int),
        wrap_lines(cs, s, ptr, limit) == Seq::new(wrap_pieces(cs, s, ptr, limit).len(), |i: int| trim(wrap_pieces(cs, s, ptr, limit)[i])),
        forall|i: int| 0 <= i < wrap_pieces(cs, s, ptr, limit).len() - 1 ==> byte_len(#[trigger] wrap_pieces(cs, s, ptr, limit)[i]) <= limit,
    decreases cs.len() - s,
{
    let pieces = wrap_pieces(cs, s, ptr, limit);
    if s >= cs.len() {
        assert(cs.subrange(s, cs.len() as int) =~= Seq::<char>::empty());
        assert(wrap_lines(cs, s, ptr, limit) =~= Seq::new(pieces.len(), |i: int| trim(pieces[i])));
    } else {
        let (e, p) = chunk_end(cs, s, ptr, limit);
        lemma_wrap_pieces(cs, e, p, limit);
        let rest = wrap_pieces(cs, e, p, limit);
        assert(pieces == seq![cs.subrange(s, e)] + rest);
        assert(pieces.drop_first() =~= rest);
        assert(cs.subrange(s, cs.len() as int) =~= cs.subrange(s, e) + cs.subrange(e, cs.len() as int));
        assert(wrap_lines(cs, s, ptr, limit) =~= Seq::new(pieces.len(), |i: int| trim(pieces[i]))) by {
            assert(wrap_lines(cs, s, ptr, limit) == seq![trim(cs.subrange(s, e))] + wrap_lines(cs, e, p, limit));
        }
        assert forall|i: int| 0 <= i < pieces.len() - 1 implies byte_len(#[trigger] pieces[i]) <= limit by {
            if i == 0 {
                assert(rest.len() > 0);
                assert(e < cs.len());
                let (e1, p1) = scan_words(cs, s, s, ptr, limit);
                lemma_scan_words_end(cs, s, s, ptr, limit);
                lemma_piece_bytes(cs, s, e);
                if next_ws(cs, p1) < cs.len() && e1 <= s {
                    lemma_prefix_bytes_all(cs);
                    let b = if prefix_bytes(cs, s) + limit < byte_len(cs) {
                        prefix_bytes(cs, s) + limit
                    } else {
                        byte_len(cs)
                    };
                    assert(prefix_bytes(cs, e) == b);
                    if b == byte_len(cs) {
                        lemma_prefix_bytes_strict(cs, e, cs.len() as int);
                    }
                }
            } else {
                assert(pieces[i] == rest[i - 1]);
            }
        }
    }
}

/// Wrapping loses nothing: the chunks it cuts, joined, are the message; each line sent is a
/// chunk trimmed; and every chunk but the last is at most `limit` bytes long.
pub proof fn lemma_wrap_partition(msg: Seq<char>, limit: nat)
    requires
        wrap_cuts_ok(msg, 0, 0, limit),
    ensures
        wrap_pieces(msg, 0, 0, limit).flatten() == msg,
        wrap_lines(msg, 0, 0, limit) == Seq::new(wrap_pieces(msg, 0, 0, limit).len(), |i: int| trim(wrap_pieces(msg, 0, 0, limit)[i])),
        forall|i: int| 0 <= i < wrap_pieces(msg, 0, 0, limit).len() - 1 ==> byte_len(#[trigger] wrap_pieces(msg, 0, 0, limit)[i]) <= limit,
{
    lemma_wrap_pieces(msg, 0, 0, limit);
    assert(msg.subrange(0, msg.len() as int) =~= msg);
}

/// Whether `lines` are what is left of the pieces of a partition of `msg`, one line for each
/// piece, in order, with nothing but whitespace dropped from the ends of each piece: no text
/// is lost, doubled or moved.
pub open spec fn lines_partition(lines: Seq<Seq<char>>, msg: Seq<char>) -> bool {
    exists|pieces: Seq<Seq<char>>|
        #[trigger] pieces.flatten() == msg && pieces.len() == lines.len() && forall|i: int|
            0 <= i < lines.len() ==> stripped_from(#[trigger] lines[i], pieces[i])
}

/// What wrapping keeps: the lines a message is sent as are the pieces of a partition of it,
/// each with nothing but whitespace dropped from its ends (see [`lines_partition`]); and every
/// line but the last is at most `limit` bytes long. (The last line is longer only where the
/// message ends in a run without whitespace that does not fit.)
pub proof fn lemma_wrapped_keeps_text(msg: Seq<char>, limit: nat)
    requires
        wrappable(msg, limit),
    ensures
        lines_partition(wrapped(msg, limit), msg),
        forall|i: int| 0 <= i < wrapped(msg, limit).len() - 1 ==> byte_len(#[trigger] wrapped(msg, limit)[i]) <= limit,
{
    let lines = wrapped(msg, limit);
    if byte_len(msg) < limit {
        let pieces = seq![msg];
        assert(pieces.drop_first() =~= Seq::<Seq<char>>::empty());
        assert(pieces.drop_first().flatten() == Seq::<char>::empty());
        assert(pieces.flatten() =~= msg);
        lemma_stripped_from_self(msg);
        assert(stripped_from(lines[0], pieces[0]));
    } else {
        lemma_wrap_partition(msg, limit);
        let pieces = wrap_pieces(msg, 0, 0, limit);
        assert forall|i: int| 0 <= i < lines.len() implies stripped_from(#[trigger] lines[i], pieces[i]) by {
            lemma_trim_strips(pieces[i]);
        }
        assert(pieces.flatten() == msg);
        assert forall|i: int| 0 <= i < lines.len() - 1 implies byte_len(#[trigger] lines[i]) <= limit by {
            lemma_trim_strips(pieces[i]);
        }
    }
}

/// Whether the piece of `cs` from `s` to `e` is cut as greedily as the limit allows: either it
/// is under `limit` bytes and ends just before whitespace, and running on through the next word
/// would make it `limit` bytes or more; or not even its first word fits, and it is cut at
/// exactly `limit` bytes.
pub open spec fn cut_greedily(cs: Seq<char>, s: int, e: int, limit: nat) -> bool {
    ||| (e < cs.len() && is_whitespace(cs[e]) && byte_len(cs.subrange(s, e)) < limit
        && byte_len(cs.subrange(s, next_ws(cs, e + 1))) >= limit)
    ||| (byte_len(cs.subrange(s, e)) == limit && byte_len(cs.subrange(s, next_ws(cs, s + 1))) >= limit)
}

/// Where the piece at index `i` of `pieces` starts in the text they make up.
pub open spec fn piece_start(pieces: Seq<Seq<char>>, i: int) -> int {
    pieces.take(i).flatten().len() as int
}

/// Whether `lines` are what is left of the pieces of a partition of `msg` (see
/// [`lines_partition`]) where each piece but the last is cut as greedily as `limit` allows (see
/// [`cut_greedily`]): no line is cut shorter than it has to be.
pub open spec fn greedy_partition(lines: Seq<Seq<char>>, msg: Seq<char>, limit: nat) -> bool {
    exists|pieces: Seq<Seq<char>>|
        #[trigger] pieces.flatten() == msg && pieces.len() == lines.len() && (forall|i: int|
            0 <= i < lines.len() ==> stripped_from(#[trigger] lines[i], pieces[i])) && (forall|i: int|
            0 <= i < lines.len() - 1 ==> cut_greedily(msg, piece_start(pieces, i), piece_start(pieces, i) + (#[trigger] pieces[i]).len(), limit))
}

proof fn lemma_next_ws_skip(cs: Seq<char>, a: int, b: int)
    requires
        0 <= a <= b <= cs.len(),
        forall|k: int| a <= k < b ==> !is_whitespace(#[trigger] cs[k]),
    ensures
        next_ws(cs, a) == next_ws(cs, b),
    decreases b - a,
{
    if a < b {
        lemma_next_ws_skip(cs, a + 1, b);
    }
}

/// What the scan of a chunk's words ends with: where it stopped, the next whitespace would take
/// the chunk to the limit or there is none; and the end it gives is either the one it started
/// with, the search unmoved, or whitespace just before where the search goes on.
proof fn lemma_scan_words_shape(cs: Seq<char>, s: int, e: int, ptr: int, limit: nat)
    requires
        0 <= ptr <= cs.len(),
    ensures
        ({
            let (e2, p2) = scan_words(cs, s, e, ptr, limit);
            &&& 0 <= p2 <= cs.len()
            &&& !(next_ws(cs, p2) < cs.len() && prefix_bytes(cs, next_ws(cs, p2)) < prefix_bytes(cs, s) + limit)
            &&& (e2 == e && p2 == ptr) || (p2 == e2 + 1 && ptr <= e2 < cs.len() && is_whitespace(cs[e2]))
        }),
    decreases cs.len() - ptr,
{
    lemma_next_ws_bounds(cs, ptr);
    let w = next_ws(cs, ptr);
    if 0 <= ptr && ptr <= w < cs.len() && prefix_bytes(cs, w) < prefix_bytes(cs, s) + limit {
        lemma_scan_words_shape(cs, s, w, w + 1, limit);
    }
}

/// Where wrapping may start a chunk at `s` with the search for whitespace at `ptr`: either the
/// search lags behind with no whitespace in between, or it is just past whitespace at `s`.
spec fn search_in_step(cs: Seq<char>, s: int, ptr: int) -> bool {
    ||| (0 <= ptr <= s && forall|k: int| ptr <= k < s ==> !is_whitespace(#[trigger] cs[k]))
    ||| (ptr == s + 1 && (s < cs.len() ==> is_whitespace(cs[s])))
}

proof fn lemma_seq_cons_flatten(a: Seq<char>, r: Seq<Seq<char>>)
    ensures
        (seq![a] + r).flatten() == a + r.flatten(),
{
    assert((seq![a] + r).drop_first() =~= r);
}

proof fn lemma_chunk_greedy(cs: Seq<char>, s: int, ptr: int, limit: nat)
    requires
        0 <= s < cs.len(),
        search_in_step(cs, s, ptr),
        ({
            let (e, p) = chunk_end(cs, s, ptr, limit);
            s < e < cs.len()
        }),
    ensures
        ({
            let (e, p) = chunk_end(cs, s, ptr, limit);
            cut_greedily(cs, s, e, limit) && search_in_step(cs, e, p)
        }),
{
    let (e, p) = chunk_end(cs, s, ptr, limit);
    let (e1, p1) = scan_words(cs, s, s, ptr, limit);
    lemma_scan_words_shape(cs, s, s, ptr, limit);
    lemma_next_ws_bounds(cs, p1);
    lemma_next_ws_bounds(cs, s + 1);
    let w = next_ws(cs, p1);
    assert(w < cs.len());
    if e1 <= s {
        // Not even the first word fits: the piece is cut at the limit.
        lemma_prefix_bytes_all(cs);
        let b = if prefix_bytes(cs, s) + limit < byte_len(cs) {
            prefix_bytes(cs, s) + limit
        } else {
            byte_len(cs)
        };
        assert(prefix_bytes(cs, e) == b);
        if b == byte_len(cs) {
            lemma_prefix_bytes_strict(cs, e, cs.len() as int);
        }
        lemma_piece_bytes(cs, s, e);
        assert(byte_len(cs.subrange(s, e)) == limit);
        // The search stopped at the whitespace after the first word.
        assert(w == next_ws(cs, s + 1) || limit == 0) by {
            if p1 == s + 1 {
            } else if ptr == s + 1 {
            } else {
                lemma_next_ws_skip(cs, ptr, s);
                if !is_whitespace(cs[s]) {
                    lemma_next_ws_skip(cs, s, s + 1);
                }
            }
        }
        let w1 = next_ws(cs, s + 1);
        lemma_piece_bytes(cs, s, w1);
        if limit > 0 {
            lemma_piece_bytes(cs, s, w);
        }
        // The next search starts no later than the cut, with no whitespace in between.
        if e > w1 {
            lemma_prefix_bytes_strict(cs, w1, e);
        }
        assert(e <= w1);
        assert(p1 == ptr || p1 == s + 1);
        assert forall|k: int| p1 <= k < e implies !is_whitespace(#[trigger] cs[k]) by {
            if k >= s + 1 {
            } else if k == s {
                if is_whitespace(cs[s]) && ptr <= s {
                    lemma_next_ws_skip(cs, ptr, s);
                    assert(next_ws(cs, ptr) == s);
                    assert(p1 == ptr);
                    lemma_prefix_bytes_strict(cs, s, e);
                }
            }
        }
    } else {
        lemma_piece_bytes(cs, s, w);
        lemma_scan_words_end(cs, s, s, ptr, limit);
        lemma_piece_bytes(cs, s, e);
    }
}

proof fn lemma_wrap_greedy(cs: Seq<char>, s: int, ptr: int, limit: nat)
    requires
        0 <= s <= cs.len(),
        search_in_step(cs, s, ptr),
        wrap_cuts_ok(cs, s, ptr, limit),
    ensures
        forall|i: int| 0 <= i < wrap_pieces(cs, s, ptr, limit).len() - 1 ==> cut_greedily(
            cs,
            s + piece_start(wrap_pieces(cs, s, ptr, limit), i),
            s + piece_start(wrap_pieces(cs, s, ptr, limit), i) + (#[trigger] wrap_pieces(cs, s, ptr, limit)[i]).len(),
            limit,
        ),
    decreases cs.len() - s,
{
    let pieces = wrap_pieces(cs, s, ptr, limit);
    if s < cs.len() {
        let (e, p) = chunk_end(cs, s, ptr, limit);
        let rest = wrap_pieces(cs, e, p, limit);
        let first = cs.subrange(s, e);
        assert(pieces == seq![first] + rest);
        if e < cs.len() {
            lemma_chunk_greedy(cs, s, ptr, limit);
            lemma_wrap_greedy(cs, e, p, limit);
        }
        assert forall|i: int| 0 <= i < pieces.len() - 1 implies cut_greedily(
            cs,
            s + piece_start(pieces, i),
            s + piece_start(pieces, i) + (#[trigger] pieces[i]).len(),
            limit,
        ) by {
            if e == cs.len() {
                assert(rest.len() == 0);
            }
            if i == 0 {
                assert(pieces.take(0) =~= Seq::<Seq<char>>::empty());
                assert(piece_start(pieces, 0) == 0);
            } else {
                assert(pieces.take(i) =~= seq![first] + rest.take(i - 1));
                lemma_seq_cons_flatten(first, rest.take(i - 1));
                assert(piece_start(pieces, i) == (e - s) + piece_start(rest, i - 1));
                assert(pieces[i] == rest[i - 1]);
            }
        }
    }
}

/// Wrapping is greedy: the lines a message is sent as are what is left of the pieces of a
/// partition of it, each with nothing but whitespace dropped from its ends, where every piece
/// but the last runs on word by word as far as the limit allows (see [`greedy_partition`]).
pub proof fn lemma_wrapped_greedily(msg: Seq<char>, limit: nat)
    requires
        wrappable(msg, limit),
    ensures
        greedy_partition(wrapped(msg, limit), msg, limit),
{
    let lines = wrapped(msg, limit);
    if byte_len(msg) < limit {
        let pieces = seq![msg];
        assert(pieces.drop_first() =~= Seq::<Seq<char>>::empty());
        assert(pieces.drop_first().flatten() == Seq::<char>::empty());
        assert(pieces.flatten() =~= msg);
        lemma_stripped_from_self(msg);
        assert(stripped_from(lines[0], pieces[0]));
    } else {
        lemma_wrap_partition(msg, limit);
        lemma_wrap_greedy(msg, 0, 0, limit);
        let pieces = wrap_pieces(msg, 0, 0, limit);
        assert forall|i: int| 0 <= i < lines.len() implies stripped_from(#[trigger] lines[i], pieces[i]) by {
            lemma_trim_strips(pieces[i]);
        }
        assert(pieces.flatten() == msg);
        assert forall|i: int| 0 <= i < lines.len() - 1 implies cut_greedily(msg, piece_start(pieces, i), piece_start(pieces, i) + (#[trigger] pieces[i]).len(), limit) by {
            assert(0 + piece_start(pieces, i) == piece_start(pieces, i));
        }
    }
}

/// An outgoing IRC message.
#[derive(Debug)]
pub enum OutMsg {
    /// A `PRIVMSG` of the text to the target.
    Privmsg {
        /// The channel or user addressed.
        target: String,
        /// The text.
        text: String,
    },
    /// A `QUIT`, with its message.
    Quit(Option<String>),
    /// A raw IRC protocol line, sent as it is.
    Raw(String),
}

/// Whether `x` sends the single `PRIVMSG` of `text` to `target`.
pub open spec fn is_privmsg(x: LibReaction<OutMsg>, target: Seq<char>, text: Seq<char>) -> bool {
    x matches LibReaction::RawMsg(OutMsg::Privmsg { target: t, text: m }) && t@ == target && m@ == text
}

/// Whether `r` sends `lines` to `target` as `PRIVMSG`s: nothing for no lines, a single message
/// for one, and several messages in order for more.
pub open spec fn sends_lines(r: Option<LibReaction<OutMsg>>, target: Seq<char>, lines: Seq<Seq<char>>) -> bool {
    if lines.len() == 0 {
        r is None
    } else if lines.len() == 1 {
        r matches Some(x) && is_privmsg(x, target, lines[0])
    } else {
        r matches Some(LibReaction::Multi(v)) && v@.len() == lines.len() && forall|i: int| 0 <= i < lines.len() ==> #[trigger] is_privmsg(v@[i], target, lines[i])
    }
}

/// The text of a message to `addressee` (if any): the addressee's name and the suffix that
/// addresses them, then the message.
pub open spec fn addressed_text(addressee: Seq<char>, suffix: Seq<char>, msg: Seq<char>) -> Seq<char> {
    addressee + (if addressee.len() == 0 {
        Seq::<char>::empty()
    } else {
        suffix
    }) + msg
}

/// The lines that each of `ls` is sent as, in order (see [`wrapped`]).
pub open spec fn wrapped_all(ls: Seq<Seq<char>>, limit: nat) -> Seq<Seq<char>>
    decreases ls.len(),
{
    if ls.len() == 0 {
        seq![]
    } else {
        wrapped(ls[0], limit) + wrapped_all(ls.drop_first(), limit)
    }
}

/// Whether each line of a text can be wrapped for the limit (see [`wrappable`]).
pub open spec fn all_wrappable(ls: Seq<Seq<char>>, limit: nat) -> bool {
    forall|i: int| 0 <= i < ls.len() ==> wrappable(#[trigger] ls[i], limit) && byte_len(ls[i]) <= usize::MAX
}

/// The lines that a message to `target`, addressed to `addressee`, is sent as: the addressed
/// text split into its lines, each wrapped.
pub open spec fn composed_lines(
    prefix_len: nat,
    suffix: Seq<char>,
    target: Seq<char>,
    addressee: Seq<char>,
    msg: Seq<char>,
) -> Seq<Seq<char>> {
    wrapped_all(lines_of(addressed_text(addressee, suffix, msg)), msg_len_limit(prefix_len, byte_len(target)) as nat)
}

/// Whether a message to `target`, addressed to `addressee`, can be composed without cutting
/// inside a character.
pub open spec fn composable(prefix_len: nat, suffix: Seq<char>, target: Seq<char>, addressee: Seq<char>, msg: Seq<char>) -> bool {
    all_wrappable(lines_of(addressed_text(addressee, suffix, msg)), msg_len_limit(prefix_len, byte_len(target)) as nat)
}

/// Composes a message to `target`, addressed to `addressee` (if any; `suffix`, such as `: `,
/// follows the addressee's name): each line of the text, wrapped (see [`wrap_msg`]), becomes a
/// `PRIVMSG`.
pub fn compose_msg(prefix_len: usize, suffix: &str, target: &str, addressee: &str, msg: &str) -> (r: Option<LibReaction<OutMsg>>)
    requires
        prefix_len + 14 + byte_len(target@) < 512,
        composable(prefix_len as nat, suffix@, target@, addressee@, msg@),
    ensures
        sends_lines(r, target@, composed_lines(prefix_len as nat, suffix@, target@, addressee@, msg@)),
{
    let mut acc: Vec<char> = Vec::new();
    push_str_chars(&mut acc, addressee);
    if !addressee.is_empty() {
        push_str_chars(&mut acc, suffix);
    }
    push_str_chars(&mut acc, msg);
    let ghost text = addressed_text(addressee@, suffix@, msg@);
    assert(acc@ =~= text);
    let ghost limit = msg_len_limit(prefix_len as nat, byte_len(target@)) as nat;
    let ranges = line_ranges(acc.as_slice());
    let ghost ls = lines_of(acc@);
    let mut out: Vec<LibReaction<OutMsg>> = Vec::new();
    let ghost mut sent: Seq<Seq<char>> = seq![];
    let mut k: usize = 0;
    assert(ls.skip(0) =~= ls);
    while k < ranges.len()
        invariant
            prefix_len + 14 + byte_len(target@) < 512,
            ls == lines_of(acc@),
            range_texts(acc@, ranges@) == ls,
            forall|j: int| 0 <= j < ranges@.len() ==> (#[trigger] ranges@[j]).0 <= ranges@[j].1 <= acc@.len(),
            all_wrappable(ls, limit),
            limit == msg_len_limit(prefix_len as nat, byte_len(target@)) as nat,
            k <= ranges@.len(),
            out@.len() == sent.len(),
            forall|i: int| 0 <= i < sent.len() ==> #[trigger] is_privmsg(out@[i], target@, sent[i]),
            sent + wrapped_all(ls.skip(k as int), limit) == wrapped_all(ls, limit),
        decreases ranges@.len() - k,
    {
        let (a, b) = ranges[k];
        let line = string_of_range(acc.as_slice(), a, b);
        assert(line@ == ls[k as int]);
        let ghost rest = ls.skip(k as int);
        assert(rest[0] == ls[k as int]);
        assert(rest.drop_first() =~= ls.skip(k + 1));
        let pieces = wrap_msg(prefix_len, target, line.as_str());
        let mut j: usize = 0;
        let ghost sent0 = sent;
        while j < pieces.len()
            invariant
                string_views(pieces@) == wrapped(ls[k as int], limit),
                j <= pieces@.len(),
                out@.len() == sent.len(),
                sent == sent0 + string_views(pieces@).take(j as int),
                forall|i: int| 0 <= i < sent.len() ==> #[trigger] is_privmsg(out@[i], target@, sent[i]),
            decreases pieces@.len() - j,
        {
            let m = OutMsg::Privmsg { target: target.to_owned(), text: pieces[j].clone() };
            out.push(LibReaction::RawMsg(m));
            proof {
                sent = sent.push(pieces@[j as int]@);
                assert(string_views(pieces@).take(j + 1) =~= string_views(pieces@).take(j as int).push(pieces@[j as int]@));
            }
            j += 1;
        }
        assert(string_views(pieces@).take(j as int) =~= string_views(pieces@));
        assert(sent + wrapped_all(ls.skip(k + 1), limit) =~= sent0 + wrapped_all(ls.skip(k as int), limit));
        k += 1;
    }
    assert(ls.skip(k as int) =~= Seq::<Seq<char>>::empty());
    assert(sent =~= sent + wrapped_all(ls.skip(k as int), limit));
    if out.len() == 0 {
        None
    } else if out.len() == 1 {
        let x = out.pop().unwrap();
        Some(x)
    } else {
        Some(LibReaction::Multi(out))
    }
}

/// Whether a message to `target`, addressed to `addressee`, can be composed (see
/// [`composable`]); [`compose_msg`] asks for it.
pub fn is_composable(prefix_len: usize, suffix: &str, target: &str, addressee: &str, msg: &str) -> (r: bool)
    requires
        prefix_len + 14 + byte_len(target@) < 512,
    ensures
        r == composable(prefix_len as nat, suffix@, target@, addressee@, msg@),
{
    let mut acc: Vec<char> = Vec::new();
    push_str_chars(&mut acc, addressee);
    if !addressee.is_empty() {
        push_str_chars(&mut acc, suffix);
    }
    push_str_chars(&mut acc, msg);
    let ghost text = addressed_text(addressee@, suffix@, msg@);
    assert(acc@ =~= text);
    let limit = privmsg_content_max_len(prefix_len, target);
    let ranges = line_ranges(acc.as_slice());
    let ghost ls = lines_of(acc@);
    let mut k: usize = 0;
    while k < ranges.len()
        invariant
            acc@ == addressed_text(addressee@, suffix@, msg@),
            limit == msg_len_limit(prefix_len as nat, byte_len(target@)),
            ls == lines_of(acc@),
            range_texts(acc@, ranges@) == ls,
            forall|j: int| 0 <= j < ranges@.len() ==> (#[trigger] ranges@[j]).0 <= ranges@[j].1 <= acc@.len(),
            k <= ranges@.len(),
            forall|i: int| 0 <= i < k ==> wrappable(#[trigger] ls[i], limit as nat) && byte_len(ls[i]) <= usize::MAX,
        decreases ranges@.len() - k,
    {
        let (a, b) = ranges[k];
        let line = string_of_range(acc.as_slice(), a, b);
        assert(line@ == ls[k as int]);
        let cs = chars_of(line.as_str());
        if !line_wrappable(cs.as_slice(), limit) {
            assert(!(wrappable(ls[k as int], limit as nat) && byte_len(ls[k as int]) <= usize::MAX));
            return false;
        }
        k += 1;
    }
    true
}

/// Of groups of lines, those that are not empty, in order.
pub open spec fn nonempty_groups(gs: Seq<Seq<Seq<char>>>) -> Seq<Seq<Seq<char>>>
    decreases gs.len(),
{
    if gs.len() == 0 {
        seq![]
    } else if gs.last().len() == 0 {
        nonempty_groups(gs.drop_last())
    } else {
        nonempty_groups(gs.drop_last()).push(gs.last())
    }
}

/// The lines that each message is sent as (see [`composed_lines`]).
pub open spec fn composed_groups(prefix_len: nat, suffix: Seq<char>, target: Seq<char>, addressee: Seq<char>, msgs: Seq<Seq<char>>) -> Seq<Seq<Seq<char>>> {
    Seq::new(msgs.len(), |i: int| composed_lines(prefix_len, suffix, target, addressee, msgs[i]))
}

/// Whether `r` sends the groups of lines to `target`: nothing for none, one group as
/// [`compose_msg`] sends it, and several as several reactions in order.
pub open spec fn sends_groups(r: Option<LibReaction<OutMsg>>, target: Seq<char>, gs: Seq<Seq<Seq<char>>>) -> bool {
    if gs.len() == 0 {
        r is None
    } else if gs.len() == 1 {
        sends_lines(r, target, gs[0])
    } else {
        r matches Some(LibReaction::Multi(v)) && v@.len() == gs.len() && forall|i: int| 0 <= i < gs.len() ==> #[trigger] sends_lines(Some(v@[i]), target, gs[i])
    }
}

/// Composes several messages to `target`, each as [`compose_msg`] does, leaving out those that
/// send nothing.
pub fn compose_msgs(prefix_len: usize, suffix: &str, target: &str, addressee: &str, msgs: &Vec<String>) -> (r: Option<LibReaction<OutMsg>>)
    requires
        prefix_len + 14 + byte_len(target@) < 512,
        forall|i: int| 0 <= i < msgs@.len() ==> composable(prefix_len as nat, suffix@, target@, addressee@, #[trigger] msgs@[i]@),
    ensures
        sends_groups(r, target@, nonempty_groups(composed_groups(prefix_len as nat, suffix@, target@, addressee@, string_views(msgs@)))),
{
    let ghost gs = composed_groups(prefix_len as nat, suffix@, target@, addressee@, string_views(msgs@));
    let mut out: Vec<LibReaction<OutMsg>> = Vec::new();
    let mut k: usize = 0;
    assert(gs.take(0) =~= Seq::<Seq<Seq<char>>>::empty());
    while k < msgs.len()
        invariant
            gs == composed_groups(prefix_len as nat, suffix@, target@, addressee@, string_views(msgs@)),
            prefix_len + 14 + byte_len(target@) < 512,
            forall|i: int| 0 <= i < msgs@.len() ==> composable(prefix_len as nat, suffix@, target@, addressee@, #[trigger] msgs@[i]@),
            k <= msgs@.len(),
            out@.len() == nonempty_groups(gs.take(k as int)).len(),
            forall|i: int| 0 <= i < out@.len() ==> #[trigger] sends_lines(Some(out@[i]), target@, nonempty_groups(gs.take(k as int))[i]),
        decreases msgs@.len() - k,
    {
        assert(gs.take(k + 1).drop_last() =~= gs.take(k as int));
        assert(gs.take(k + 1).last() == gs[k as int]);
        let c = compose_msg(prefix_len, suffix, target, addressee, msgs[k].as_str());
        match c {
            Some(x) => {
                assert(gs[k as int].len() > 0);
                out.push(x);
            },
            None => {
                assert(gs[k as int].len() == 0);
            },
        }
        k += 1;
    }
    assert(gs.take(k as int) =~= gs);
    if out.len() == 0 {
        None
    } else if out.len() == 1 {
        let x = out.pop().unwrap();
        Some(x)
    } else {
        Some(LibReaction::Multi(out))
    }
}

/// The quit message where none is given: `Built with <URL> vVERSION`.
pub open spec fn default_quit_msg() -> Seq<char> {
    "Built with <"@ + crate::framework::pkg_info::CRATE_HOMEPAGE@ + "> v"@ + crate::framework::pkg_info::CRATE_VERSION@
}

/// The reaction that quits with the given message, or else the default one (see
/// [`default_quit_msg`]).
pub fn mk_quit(msg: Option<String>) -> (r: LibReaction<OutMsg>)
    ensures
        r matches LibReaction::RawMsg(OutMsg::Quit(Some(m))) && m@ == match msg {
            Some(x) => x@,
            None => default_quit_msg(),
        },
{
    match msg {
        Some(m) => LibReaction::RawMsg(OutMsg::Quit(Some(m))),
        None => {
            let mut acc: Vec<char> = Vec::new();
            push_str_chars(&mut acc, "Built with <");
            push_str_chars(&mut acc, crate::framework::pkg_info::CRATE_HOMEPAGE);
            push_str_chars(&mut acc, "> v");
            push_str_chars(&mut acc, crate::framework::pkg_info::CRATE_VERSION);
            assert(acc@ =~= default_quit_msg());
            LibReaction::RawMsg(OutMsg::Quit(Some(string_from_chars(acc.as_slice()))))
        },
    }
}

/// What the framework sends after an error, as the error handler decided: nothing where it
/// carries on, and a QUIT (see [`mk_quit`]) where it quits.
pub fn error_reaction_msg(reaction: ErrorReaction) -> (r: Option<LibReaction<OutMsg>>)
    ensures
        match reaction {
            ErrorReaction::Proceed => r is None,
            ErrorReaction::Quit(msg) => r matches Some(LibReaction::RawMsg(OutMsg::Quit(Some(m)))) && m@ == match msg {
                Some(x) => x@,
                None => default_quit_msg(),
            },
        },
{
    match reaction {
        ErrorReaction::Proceed => None,
        ErrorReaction::Quit(msg) => Some(mk_quit(msg)),
    }
}

/// What follows the addressee's nickname at the start of a reply: `: `.
pub const ADDRESSEE_SUFFIX: &'static str = ": ";

/// The text of the message that the bot sends itself to learn its own message prefix.
pub const UPDATE_MSG_PREFIX_STR: &'static str = "!!! UPDATE MESSAGE PREFIX !!!";

/// The message that the bot sends itself, under its nickname `nick`, to learn its own message
/// prefix from the echo.
pub fn send_msg_prefix_update_request(nick: &str) -> (r: LibReaction<OutMsg>)
    ensures
        is_privmsg(r, nick@, UPDATE_MSG_PREFIX_STR@),
{
    LibReaction::RawMsg(OutMsg::Privmsg { target: nick.to_owned(), text: UPDATE_MSG_PREFIX_STR.to_owned() })
}

/// What to do with a PRIVMSG.
#[derive(Debug, PartialEq, Eq, Structural)]
pub enum PrivmsgAction {
    /// It is not addressed to the bot: ignore it.
    Ignore,
    /// It is the echo of the bot's own prefix-update request: learn the bot's prefix from it.
    UpdatePrefix,
    /// Handle it as a bot command or a message for the triggers.
    Handle,
}

/// Decides what to do with a PRIVMSG `msg` sent by `prefix` to `target`, where the bot's
/// nickname is `nick` and `addressing_chars` are the characters that may follow it when a
/// message is addressed to the bot: a message not addressed to the bot is ignored; one that the
/// bot sent itself (its sender's nickname is the target) whose trimmed text is the
/// prefix-update request is taken as that request's echo; anything else is handled.
pub fn privmsg_action(
    addressing_chars: &[char],
    prefix: &MsgPrefix,
    target: &str,
    msg: &str,
    nick: &str,
) -> (r: PrivmsgAction)
    ensures
        !msg_is_to_nick(addressing_chars@, target@, msg@, nick@) ==> r == PrivmsgAction::Ignore,
        msg_is_to_nick(addressing_chars@, target@, msg@, nick@) ==> (r == PrivmsgAction::UpdatePrefix <==> (
            opt_view(prefix.nick) == Some(target@) && trim(msg@) == UPDATE_MSG_PREFIX_STR@)),
        msg_is_to_nick(addressing_chars@, target@, msg@, nick@) ==> r != PrivmsgAction::Ignore,
{
    if !is_msg_to_nick(addressing_chars, target, msg, nick) {
        return PrivmsgAction::Ignore;
    }
    let from_self = match &prefix.nick {
        Some(n) => str_eq(n.as_str(), target),
        None => false,
    };
    if from_self {
        let t = trim_string(msg);
        if str_eq(t.as_str(), UPDATE_MSG_PREFIX_STR) {
            return PrivmsgAction::UpdatePrefix;
        }
    }
    PrivmsgAction::Handle
}

/// The reply to a bot command's result: the reaction it gives where it succeeded, and otherwise
/// a message saying what went wrong.
pub open spec fn cmd_result_reply(cmd_name: Seq<char>, result: BotCmdResult) -> Option<Seq<char>> {
    match result {
        BotCmdResult::Done(_) => None,
        BotCmdResult::Unauthorized => Some("My apologies, but you do not appear to have sufficient authority to use my "@
            + debug_quoted(cmd_name) + " command."@),
        BotCmdResult::ParamUnauthorized(p) => Some("My apologies, but you do not appear to have sufficient authority to use the parameter "@
            + debug_quoted(p@) + " of my "@ + debug_quoted(cmd_name) + " command."@),
        BotCmdResult::SyntaxErr => Some("Syntax error. Try my `help` command."@),
        BotCmdResult::ArgMissing(a) => Some("Syntax error: For command "@ + debug_quoted(cmd_name) + ", the argument "@
            + debug_quoted(a@) + " is required, but it was not given."@),
        BotCmdResult::ArgMissing1To1(a) => Some("Syntax error: When command "@ + debug_quoted(cmd_name)
            + " is used outside of a channel, the argument "@ + debug_quoted(a@) + " is required, but it was not given."@),
        BotCmdResult::LibErr(e) => match error_message(e) {
            Some(m) => Some("Error: "@ + m),
            None => None,
        },
        BotCmdResult::UserErrMsg(s) => Some("User error: "@ + s@),
        BotCmdResult::BotErrMsg(s) => Some("Internal error: "@ + s@),
    }
}

/// The reaction to a bot command's result (see [`cmd_result_reply`]).
pub fn bot_command_reaction(cmd_name: &str, result: BotCmdResult) -> (r: Reaction)
    ensures
        result matches BotCmdResult::Done(x) ==> r == x,
        result matches BotCmdResult::LibErr(_) ==> (r matches Reaction::Msg(m) && "Error: "@.len() <= m@.len() && m@.take(7) == "Error: "@),
        cmd_result_reply(cmd_name@, result) matches Some(t) ==> r matches Reaction::Msg(m) && m@ == t,
{
    let mut acc: Vec<char> = Vec::new();
    match result {
        BotCmdResult::Done(x) => {
            return x;
        },
        BotCmdResult::Unauthorized => {
            push_str_chars(&mut acc, "My apologies, but you do not appear to have sufficient authority to use my ");
            push_str_chars(&mut acc, debug_str(cmd_name).as_str());
            push_str_chars(&mut acc, " command.");
        },
        BotCmdResult::ParamUnauthorized(p) => {
            push_str_chars(&mut acc, "My apologies, but you do not appear to have sufficient authority to use the parameter ");
            push_str_chars(&mut acc, debug_str(p.as_str()).as_str());
            push_str_chars(&mut acc, " of my ");
            push_str_chars(&mut acc, debug_str(cmd_name).as_str());
            push_str_chars(&mut acc, " command.");
        },
        BotCmdResult::SyntaxErr => {
            push_str_chars(&mut acc, "Syntax error. Try my `help` command.");
        },
        BotCmdResult::ArgMissing(a) => {
            push_str_chars(&mut acc, "Syntax error: For command ");
            push_str_chars(&mut acc, debug_str(cmd_name).as_str());
            push_str_chars(&mut acc, ", the argument ");
            push_str_chars(&mut acc, debug_str(a.as_str()).as_str());
            push_str_chars(&mut acc, " is required, but it was not given.");
        },
        BotCmdResult::ArgMissing1To1(a) => {
            push_str_chars(&mut acc, "Syntax error: When command ");
            push_str_chars(&mut acc, debug_str(cmd_name).as_str());
            push_str_chars(&mut acc, " is used outside of a channel, the argument ");
            push_str_chars(&mut acc, debug_str(a.as_str()).as_str());
            push_str_chars(&mut acc, " is required, but it was not given.");
        },
        BotCmdResult::LibErr(e) => {
            push_str_chars(&mut acc, "Error: ");
            let m = e.message();
            push_str_chars(&mut acc, m.as_str());
            proof {
                reveal_strlit("Error: ");
            }
            assert(acc@.take(7) =~= "Error: "@);
        },
        BotCmdResult::UserErrMsg(s) => {
            push_str_chars(&mut acc, "User error: ");
            push_str_chars(&mut acc, s.as_str());
        },
        BotCmdResult::BotErrMsg(s) => {
            push_str_chars(&mut acc, "Internal error: ");
            push_str_chars(&mut acc, s.as_str());
        },
    }
    assert(cmd_result_reply(cmd_name@, result) matches Some(t) ==> acc@ =~= t);
    Reaction::Msg(string_from_chars(acc.as_slice()))
}

/// Whether `r` is how the bot answers a reaction in the channel (or from the user) `target`:
/// messages go back whence the request came (to the sender, where it came to the bot itself),
/// replies are addressed to the sender, raw messages and quits go out as they are, and a bot
/// command line sends nothing.
pub open spec fn reaction_sent(
    prefix_len: nat,
    suffix: Seq<char>,
    nick: Seq<char>,
    sender: Option<Seq<char>>,
    target: Seq<char>,
    reaction: Reaction,
    r: Option<LibReaction<OutMsg>>,
) -> bool {
    let reply_target = if target == nick {
        sender->Some_0
    } else {
        target
    };
    let addressee = if target == nick {
        Seq::<char>::empty()
    } else {
        match sender {
            Some(s) => s,
            None => Seq::<char>::empty(),
        }
    };
    match reaction {
        Reaction::Nothing => r is None,
        Reaction::Msg(m) => sends_lines(r, reply_target, composed_lines(prefix_len, suffix, reply_target, Seq::<char>::empty(), m@)),
        Reaction::Msgs(v) => sends_groups(r, reply_target, nonempty_groups(composed_groups(prefix_len, suffix, reply_target, Seq::<char>::empty(), string_views(v@)))),
        Reaction::Reply(m) => sends_lines(r, reply_target, composed_lines(prefix_len, suffix, reply_target, addressee, m@)),
        Reaction::Replies(v) => sends_groups(r, reply_target, nonempty_groups(composed_groups(prefix_len, suffix, reply_target, addressee, string_views(v@)))),
        Reaction::RawMsg(m) => r matches Some(LibReaction::RawMsg(OutMsg::Raw(x))) && x@ == m@,
        Reaction::BotCmd(_) => r is None,
        Reaction::Quit(q) => r matches Some(LibReaction::RawMsg(OutMsg::Quit(Some(x)))) && x@ == match q {
            Some(y) => y@,
            None => default_quit_msg(),
        },
    }
}

/// Whether the messages of a reaction can be composed for its reply target.
pub open spec fn reaction_composable(
    prefix_len: nat,
    suffix: Seq<char>,
    reply_target: Seq<char>,
    addressee: Seq<char>,
    reaction: Reaction,
) -> bool {
    &&& prefix_len + 14 + byte_len(reply_target) < 512
    &&& match reaction {
        Reaction::Msg(m) => composable(prefix_len, suffix, reply_target, Seq::<char>::empty(), m@),
        Reaction::Msgs(v) => forall|i: int| 0 <= i < v@.len() ==> composable(prefix_len, suffix, reply_target, Seq::<char>::empty(), #[trigger] v@[i]@),
        Reaction::Reply(m) => composable(prefix_len, suffix, reply_target, addressee, m@),
        Reaction::Replies(v) => forall|i: int| 0 <= i < v@.len() ==> composable(prefix_len, suffix, reply_target, addressee, #[trigger] v@[i]@),
        _ => true,
    }
}

/// Whether the messages of a reaction can be composed for `reply_target` (see
/// [`reaction_composable`]).
fn reaction_composable_exec(prefix_len: usize, suffix: &str, reply_target: &str, addressee: &str, reaction: &Reaction) -> (r: bool)
    ensures
        r == reaction_composable(prefix_len as nat, suffix@, reply_target@, addressee@, *reaction),
{
    let tcs = chars_of(reply_target);
    let tlen = crate::util::text::byte_len_saturating(tcs.as_slice());
    if prefix_len >= 512 || tlen >= 512 || prefix_len + 14 + tlen >= 512 {
        return false;
    }
    proof {
        reveal_strlit("");
        assert(""@ =~= Seq::<char>::empty());
    }
    match reaction {
        Reaction::Msg(m) => is_composable(prefix_len, suffix, reply_target, "", m.as_str()),
        Reaction::Reply(m) => is_composable(prefix_len, suffix, reply_target, addressee, m.as_str()),
        Reaction::Msgs(v) => all_composable(prefix_len, suffix, reply_target, "", v),
        Reaction::Replies(v) => all_composable(prefix_len, suffix, reply_target, addressee, v),
        _ => true,
    }
}

fn all_composable(prefix_len: usize, suffix: &str, reply_target: &str, addressee: &str, v: &Vec<String>) -> (r: bool)
    requires
        prefix_len + 14 + byte_len(reply_target@) < 512,
    ensures
        r == forall|i: int| 0 <= i < v@.len() ==> composable(prefix_len as nat, suffix@, reply_target@, addressee@, #[trigger] v@[i]@),
{
    let mut i: usize = 0;
    while i < v.len()
        invariant
            prefix_len + 14 + byte_len(reply_target@) < 512,
            i <= v@.len(),
            forall|j: int| 0 <= j < i ==> composable(prefix_len as nat, suffix@, reply_target@, addressee@, #[trigger] v@[j]@),
        decreases v@.len() - i,
    {
        if !is_composable(prefix_len, suffix, reply_target, addressee, v[i].as_str()) {
            return false;
        }
        i += 1;
    }
    true
}

/// Whether [`handle_reaction`] can take a reaction to a message in `target` from `sender`,
/// where the bot's nickname is `nick`: a message to the bot itself must have a sender, to whom
/// the reply goes, and the reaction's messages must be composable for the reply's target.
pub fn can_handle_reaction(
    prefix_len: usize,
    suffix: &str,
    nick: &str,
    sender: Option<&str>,
    target: &str,
    reaction: &Reaction,
) -> (r: bool)
    ensures
        r == ((target@ == nick@ ==> sender is Some) && reaction_composable(
            prefix_len as nat,
            suffix@,
            if target@ == nick@ { sender->Some_0@ } else { target@ },
            if target@ == nick@ { Seq::<char>::empty() } else { match sender { Some(s) => s@, None => Seq::<char>::empty() } },
            *reaction,
        )),
{
    proof {
        reveal_strlit("");
        assert(""@ =~= Seq::<char>::empty());
    }
    if crate::util::text::str_eq(target, nick) {
        match sender {
            Some(s) => reaction_composable_exec(prefix_len, suffix, s, "", reaction),
            None => false,
        }
    } else {
        let addressee = match sender {
            Some(s) => s,
            None => "",
        };
        reaction_composable_exec(prefix_len, suffix, target, addressee, reaction)
    }
}

/// Turns a reaction to a message in `target` from `sender` into what the bot sends, where the
/// bot's nickname is `nick` (see [`reaction_sent`]).
pub fn handle_reaction(
    prefix_len: usize,
    suffix: &str,
    nick: &str,
    sender: Option<&str>,
    target: &str,
    reaction: Reaction,
) -> (r: Option<LibReaction<OutMsg>>)
    requires
        target@ == nick@ ==> sender is Some,
        reaction_composable(
            prefix_len as nat,
            suffix@,
            if target@ == nick@ { sender->Some_0@ } else { target@ },
            if target@ == nick@ { Seq::<char>::empty() } else { match sender { Some(s) => s@, None => Seq::<char>::empty() } },
            reaction,
        ),
    ensures
        reaction_sent(prefix_len as nat, suffix@, nick@, match sender { Some(s) => Some(s@), None => None }, target@, reaction, r),
{
    let to_self = crate::util::text::str_eq(target, nick);
    let (reply_target, addressee): (&str, &str) = if to_self {
        match sender {
            Some(s) => (s, ""),
            None => {
                proof {
                    assert(false);
                }
                (target, "")
            },
        }
    } else {
        (target, match sender {
            Some(s) => s,
            None => "",
        })
    };
    proof {
        reveal_strlit("");
        assert(""@ =~= Seq::<char>::empty());
    }
    match reaction {
        Reaction::Nothing => None,
        Reaction::Msg(m) => compose_msg(prefix_len, suffix, reply_target, "", m.as_str()),
        Reaction::Msgs(v) => compose_msgs(prefix_len, suffix, reply_target, "", &v),
        Reaction::Reply(m) => compose_msg(prefix_len, suffix, reply_target, addressee, m.as_str()),
        Reaction::Replies(v) => compose_msgs(prefix_len, suffix, reply_target, addressee, &v),
        Reaction::RawMsg(m) => Some(LibReaction::RawMsg(OutMsg::Raw(m))),
        Reaction::BotCmd(_) => None,
        Reaction::Quit(q) => Some(mk_quit(q)),
    }
}

/// A command line split at its first whitespace: the command's name and its arguments, the
/// latter trimmed.
pub open spec fn split_command_line(line: Seq<char>) -> (Seq<char>, Seq<char>) {
    let w = next_ws(line, 0);
    if w < line.len() {
        (line.take(w), trim(line.skip(w + 1)))
    } else {
        (line, Seq::<char>::empty())
    }
}

/// Splits a command line at its first whitespace into the command's name and its arguments,
/// trimmed (see [`split_command_line`]).
pub fn split_cmd_line(line: &str) -> (r: (String, String))
    ensures
        r.0@ == split_command_line(line@).0,
        r.1@ == split_command_line(line@).1,
{
    let cs = chars_of(line);
    let w = next_ws_exec(cs.as_slice(), 0);
    let name = string_of_range(cs.as_slice(), 0, w);
    assert(cs@.subrange(0, w as int) =~= cs@.take(w as int));
    if w < cs.len() {
        let (a, b) = trim_bounds(cs.as_slice(), w + 1, cs.len());
        assert(cs@.subrange(w + 1, cs@.len() as int) =~= cs@.skip(w + 1));
        (name, string_of_range(cs.as_slice(), a, b))
    } else {
        assert(cs@.take(w as int) =~= cs@);
        (name, String::new())
    }
}

} // verus!
