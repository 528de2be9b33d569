//! Utilities: text munging against pings, IRC string rules, YAML handling and regexes.

pub mod irc;
pub mod lock;
pub mod regex;
pub mod text;
pub mod yaml;

use vstd::prelude::*;
use rando::Rando;
use self::text::chars_of;
use self::text::string_from_chars;

verus! {

/// The separator inserted by munging: U+200B ZERO WIDTH SPACE.
pub open spec fn zwsp() -> char {
    '\u{200B}'
}

/// Whether `needle` occurs in `s` starting at index `i`.
pub open spec fn occurs_at(s: Seq<char>, needle: Seq<char>, i: int) -> bool {
    &&& 0 <= i
    &&& i + needle.len() <= s.len()
    &&& s.subrange(i, i + needle.len()) == needle
}

/// The first index at or after `from` at which the non-empty `needle` occurs in `s`.
pub open spec fn first_occurrence(s: Seq<char>, needle: Seq<char>, from: int) -> Option<int>
    decreases s.len() - from,
{
    if needle.len() == 0 || from < 0 || from + needle.len() > s.len() {
        None
    } else if occurs_at(s, needle, from) {
        Some(from)
    } else {
        first_occurrence(s, needle, from + 1)
    }
}

/// Whether `i` is the start of one of the non-overlapping occurrences of `needle` in `s` that
/// a left-to-right search beginning at `from` reports (as `str::match_indices` does).
pub open spec fn is_match_index(s: Seq<char>, needle: Seq<char>, from: int, i: int) -> bool
    decreases s.len() - from,
{
    match first_occurrence(s, needle, from) {
        None => false,
        Some(j) => {
            proof {
                lemma_first_occurrence_bounds(s, needle, from);
            }
            j == i || is_match_index(s, needle, j + needle.len(), i)
        },
    }
}

/// Where a first occurrence is reported, the needle really occurs there, at or after `from`.
pub proof fn lemma_first_occurrence_bounds(s: Seq<char>, needle: Seq<char>, from: int)
    ensures
        first_occurrence(s, needle, from) matches Some(j) ==> {
            &&& from <= j
            &&& occurs_at(s, needle, j)
            &&& needle.len() >= 1
        },
    decreases s.len() - from,
{
    if !(needle.len() == 0 || from < 0 || from + needle.len() > s.len()) && !occurs_at(s, needle, from) {
        lemma_first_occurrence_bounds(s, needle, from + 1);
    }
}

/// Every reported match index is a real occurrence at or after `from`.
pub proof fn lemma_match_index_occurs(s: Seq<char>, needle: Seq<char>, from: int, i: int)
    requires
        is_match_index(s, needle, from, i),
    ensures
        occurs_at(s, needle, i),
        from <= i,
    decreases s.len() - from,
{
    lemma_first_occurrence_bounds(s, needle, from);
    let j = first_occurrence(s, needle, from)->0;
    if j != i {
        lemma_match_index_occurs(s, needle, j + needle.len(), i);
    }
}

/// Whether the zero-width space is to be inserted before index `p` of `s`: `p` lies just after
/// the first character of an occurrence of a needle of two or more characters.
pub open spec fn is_munge_point(s: Seq<char>, needles: Seq<Seq<char>>, p: int) -> bool {
    munge_point_among(s, needles, needles.len() as int, p)
}

/// Whether `p` is a munge point owing to one of the first `count` needles.
pub open spec fn munge_point_among(s: Seq<char>, needles: Seq<Seq<char>>, count: int, p: int) -> bool {
    exists|k: int|
        0 <= k < count && k < needles.len() && needles[k].len() >= 2 && #[trigger] is_match_index(
            s,
            needles[k],
            0,
            p - 1,
        )
}

/// For each index of `s`, whether it is a munge point.
pub open spec fn munge_mask(s: Seq<char>, needles: Seq<Seq<char>>) -> Seq<bool> {
    Seq::new(s.len(), |p: int| is_munge_point(s, needles, p))
}

/// The indices at or after `from` at which `mask` holds, in ascending order.
pub open spec fn mask_points(mask: Seq<bool>, from: int) -> Seq<int>
    decreases mask.len() - from,
{
    if from < 0 || from >= mask.len() {
        seq![]
    } else if mask[from] {
        seq![from] + mask_points(mask, from + 1)
    } else {
        mask_points(mask, from + 1)
    }
}

/// The pieces of `s` from `start` on, split at the points `pts`, with a zero-width space as a
/// piece of its own between every two neighbouring pieces of text.
pub open spec fn pieces_after(s: Seq<char>, pts: Seq<int>, start: int) -> Seq<Seq<char>>
    decreases pts.len(),
{
    if pts.len() == 0 {
        seq![s.subrange(start, s.len() as int)]
    } else {
        seq![s.subrange(start, pts[0]), seq![zwsp()]] + pieces_after(s, pts.drop_first(), pts[0])
    }
}

/// The pieces that munging `s` against `needles` yields, in order.
pub open spec fn munge_pieces(s: Seq<char>, needles: Seq<Seq<char>>) -> Seq<Seq<char>> {
    if s.len() == 0 {
        seq![]
    } else {
        pieces_after(s, mask_points(munge_mask(s, needles), 0), 0)
    }
}

/// `s` from index `from` on, with a zero-width space inserted before each index at which `mask`
/// holds.
pub open spec fn zwsp_inserted(s: Seq<char>, mask: Seq<bool>, from: int) -> Seq<char>
    decreases s.len() - from,
{
    if from < 0 || from >= s.len() {
        seq![]
    } else {
        (if mask[from] {
            seq![zwsp()]
        } else {
            seq![]
        }) + seq![s[from]] + zwsp_inserted(s, mask, from + 1)
    }
}

proof fn lemma_pieces_flatten(s: Seq<char>, mask: Seq<bool>, start: int, from: int)
    requires
        0 <= start <= from <= s.len(),
        mask.len() == s.len(),
    ensures
        pieces_after(s, mask_points(mask, from), start).flatten() == s.subrange(start, from)
            + zwsp_inserted(s, mask, from),
    decreases s.len() - from,
{
    if from == s.len() {
        assert(pieces_after(s, mask_points(mask, from), start) == seq![
            s.subrange(start, s.len() as int),
        ]);
        lemma_flatten_singleton_seq(s.subrange(start, s.len() as int));
        assert(s.subrange(start, from) + zwsp_inserted(s, mask, from) =~= s.subrange(
            start,
            s.len() as int,
        ));
    } else if mask[from] {
        let pts = mask_points(mask, from);
        assert(pts == seq![from] + mask_points(mask, from + 1));
        assert(pts.drop_first() =~= mask_points(mask, from + 1));
        let head: Seq<Seq<char>> = seq![s.subrange(start, from), seq![zwsp()]];
        let tail = pieces_after(s, mask_points(mask, from + 1), from);
        assert(pieces_after(s, pts, start) == head + tail);
        vstd::seq_lib::lemma_flatten_concat(head, tail);
        lemma_flatten_two(s.subrange(start, from), seq![zwsp()]);
        lemma_pieces_flatten(s, mask, from, from + 1);
        assert(s.subrange(from, from + 1) =~= seq![s[from]]);
        assert(s.subrange(start, from) + seq![zwsp()] + (s.subrange(from, from + 1)
            + zwsp_inserted(s, mask, from + 1)) =~= s.subrange(start, from) + zwsp_inserted(
            s,
            mask,
            from,
        ));
    } else {
        assert(mask_points(mask, from) == mask_points(mask, from + 1));
        lemma_pieces_flatten(s, mask, start, from + 1);
        assert(s.subrange(start, from + 1) + zwsp_inserted(s, mask, from + 1) =~= s.subrange(
            start,
            from,
        ) + zwsp_inserted(s, mask, from));
    }
}

proof fn lemma_flatten_singleton_seq(a: Seq<char>)
    ensures
        seq![a].flatten() == a,
{
    assert(seq![a].drop_first() =~= Seq::<Seq<char>>::empty());
    assert(seq![a].flatten() =~= a + Seq::<Seq<char>>::empty().flatten());
}

proof fn lemma_flatten_two(a: Seq<char>, b: Seq<char>)
    ensures
        seq![a, b].flatten() == a + b,
{
    assert(seq![a, b].drop_first() =~= seq![b]);
    lemma_flatten_singleton_seq(b);
    assert(seq![a, b].flatten() =~= a + seq![b].flatten());
}

/// Munging preserves the text: the pieces that munging yields, concatenated, are exactly `s`
/// with a zero-width space inserted after the first character of each occurrence of each
/// multi-character needle.
pub proof fn lemma_munge_concatenation(s: Seq<char>, needles: Seq<Seq<char>>)
    ensures
        munge_pieces(s, needles).flatten() == zwsp_inserted(s, munge_mask(s, needles), 0),
{
    if s.len() == 0 {
        assert(munge_pieces(s, needles) =~= Seq::<Seq<char>>::empty());
    } else {
        lemma_pieces_flatten(s, munge_mask(s, needles), 0, 0);
        assert(s.subrange(0, 0) + zwsp_inserted(s, munge_mask(s, needles), 0) =~= zwsp_inserted(
            s,
            munge_mask(s, needles),
            0,
        ));
    }
}


/// The `mask_points` of a mask are ascending indices at which the mask holds.
proof fn lemma_mask_points(mask: Seq<bool>, from: int)
    requires
        0 <= from <= mask.len(),
    ensures
        mask_points(mask, from).len() <= mask.len() - from,
        forall|i: int|
            0 <= i < mask_points(mask, from).len() ==> from <= #[trigger] mask_points(
                mask,
                from,
            )[i] < mask.len() && mask[mask_points(mask, from)[i]],
        forall|i: int, j: int|
            0 <= i < j < mask_points(mask, from).len() ==> mask_points(mask, from)[i]
                < mask_points(mask, from)[j],
    decreases mask.len() - from,
{
    if from < mask.len() {
        lemma_mask_points(mask, from + 1);
    }
}

/// The number of pieces is one more than twice the number of split points.
proof fn lemma_pieces_len(s: Seq<char>, pts: Seq<int>, start: int)
    ensures
        pieces_after(s, pts, start).len() == 2 * pts.len() + 1,
    decreases pts.len(),
{
    if pts.len() > 0 {
        lemma_pieces_len(s, pts.drop_first(), pts[0]);
    }
}

/// The split points that a stack holds, the next one last, in ascending order.
pub open spec fn stack_points(stack: Seq<usize>) -> Seq<int> {
    Seq::new(stack.len(), |i: int| stack[stack.len() - 1 - i] as int)
}

/// The pieces of a string that munging yields, one by one; see [`zwsp_munge`].
#[derive(Clone, Debug)]
pub struct Munge {
    string: Vec<char>,
    munge_points: Vec<usize>,
    pos: usize,
    munging: bool,
}

impl Munge {
    /// The characters of the string being munged.
    pub closed spec fn text(&self) -> Seq<char> {
        self.string@
    }

    /// The internal invariant.
    pub closed spec fn wf(&self) -> bool {
        let rp = stack_points(self.munge_points@);
        &&& self.string@.len() <= usize::MAX / 2
        &&& self.munge_points@.len() <= self.string@.len()
        &&& self.pos <= self.string@.len()
        &&& forall|i: int| 0 <= i < rp.len() ==> self.pos < #[trigger] rp[i] < self.string@.len()
        &&& forall|i: int, j: int| 0 <= i < j < rp.len() ==> rp[i] < rp[j]
        &&& self.munging ==> rp.len() > 0
    }
}

impl View for Munge {
    type V = Seq<Seq<char>>;

    /// The pieces still to be yielded, in order.
    closed spec fn view(&self) -> Seq<Seq<char>> {
        let s = self.string@;
        let rp = stack_points(self.munge_points@);
        if self.pos >= s.len() {
            seq![]
        } else if !self.munging {
            pieces_after(s, rp, self.pos as int)
        } else {
            seq![seq![zwsp()]] + pieces_after(s, rp.drop_first(), rp[0])
        }
    }
}

fn occurs_at_exec(s: &Vec<char>, needle: &Vec<char>, i: usize) -> (r: bool)
    requires
        i + needle@.len() <= s@.len(),
    ensures
        r == occurs_at(s@, needle@, i as int),
{
    let _ = s.len();
    let mut k: usize = 0;
    while k < needle.len()
        invariant
            i + needle@.len() <= s@.len(),
            k <= needle@.len(),
            s@.len() <= usize::MAX,
            forall|q: int| 0 <= q < k ==> s@[i + q] == needle@[q],
        decreases needle@.len() - k,
    {
        if s[i + k] != needle[k] {
            assert(s@.subrange(i as int, i + needle@.len())[k as int] != needle@[k as int]);
            return false;
        }
        k += 1;
    }
    assert(s@.subrange(i as int, i + needle@.len()) =~= needle@);
    true
}

fn next_occurrence(s: &Vec<char>, needle: &Vec<char>, from: usize) -> (r: Option<usize>)
    requires
        needle@.len() >= 1,
        from <= s@.len(),
    ensures
        r matches Some(j) ==> first_occurrence(s@, needle@, from as int) == Some(j as int),
        r is None ==> first_occurrence(s@, needle@, from as int) is None,
{
    let mut j = from;
    while j <= s.len() && needle.len() <= s.len() - j
        invariant
            needle@.len() >= 1,
            from <= j,
            first_occurrence(s@, needle@, from as int) == first_occurrence(s@, needle@, j as int),
        decreases s@.len() + 1 - j,
    {
        if occurs_at_exec(s, needle, j) {
            return Some(j);
        }
        j += 1;
    }
    None
}

/// Marks, in `mask`, the index just after the first character of each match of `needle`.
fn mark_matches(s: &Vec<char>, needle: &Vec<char>, mask: &mut Vec<bool>)
    requires
        needle@.len() >= 2,
        old(mask)@.len() == s@.len(),
    ensures
        final(mask)@.len() == s@.len(),
        forall|p: int|
            0 <= p < s@.len() ==> #[trigger] final(mask)@[p] == (old(mask)@[p] || is_match_index(
                s@,
                needle@,
                0,
                p - 1,
            )),
{
    let ghost orig = mask@;
    let ghost mut found: Set<int> = Set::empty();
    let _ = s.len();
    let mut from: usize = 0;
    loop
        invariant
            needle@.len() >= 2,
            from <= s@.len(),
            s@.len() <= usize::MAX,
            orig == old(mask)@,
            mask@.len() == s@.len(),
            forall|i: int|
                #[trigger] is_match_index(s@, needle@, 0, i) <==> (found.contains(i)
                    || is_match_index(s@, needle@, from as int, i)),
            forall|p: int|
                0 <= p < s@.len() ==> #[trigger] mask@[p] == (orig[p] || found.contains(p - 1)),
        decreases s@.len() - from,
    {
        match next_occurrence(s, needle, from) {
            None => {
                assert forall|p: int| 0 <= p < s@.len() implies #[trigger] mask@[p] == (orig[p]
                    || is_match_index(s@, needle@, 0, p - 1)) by {
                    assert(!is_match_index(s@, needle@, from as int, p - 1));
                }
                return;
            },
            Some(j) => {
                proof {
                    lemma_first_occurrence_bounds(s@, needle@, from as int);
                }
                let ghost old_from = from;
                assert(j + needle@.len() <= s@.len());
                mask.set(j + 1, true);
                proof {
                    found = found.insert(j as int);
                }
                from = j + needle.len();
                assert forall|i: int|
                    #[trigger] is_match_index(s@, needle@, 0, i) <==> (found.contains(i)
                        || is_match_index(s@, needle@, from as int, i)) by {
                    assert(is_match_index(s@, needle@, old_from as int, i) == (j == i
                        || is_match_index(s@, needle@, from as int, i)));
                }
            },
        }
    }
}

/// Copies the characters of `s` from `start` up to `end` into a new `String`.
fn chars_range(s: &Vec<char>, start: usize, end: usize) -> (r: String)
    requires
        start <= end <= s@.len(),
    ensures
        r@ == s@.subrange(start as int, end as int),
{
    let mut v: Vec<char> = Vec::new();
    let mut k = start;
    while k < end
        invariant
            start <= k <= end <= s@.len(),
            v@ == s@.subrange(start as int, k as int),
        decreases end - k,
    {
        v.push(s[k]);
        k += 1;
        assert(v@ =~= s@.subrange(start as int, k as int));
    }
    string_from_chars(v.as_slice())
}

/// Returns an iterator-like value whose pieces, concatenated, equal `string` except with a
/// zero-width space inserted into each occurrence of any of the given `needles` that is two or
/// more characters long (just after its first character). Needles of a single character, or
/// none, are ignored.
///
/// Occurrences of one needle are found left to right without overlapping, as
/// `str::match_indices` finds them.
pub fn zwsp_munge(string: &str, needles: &[&str]) -> (r: Munge)
    requires
        string@.len() <= usize::MAX / 2,
    ensures
        r.wf(),
        r.text() == string@,
        r@ == munge_pieces(string@, needles@.map_values(|n: &str| n@)),
{
    let s = chars_of(string);
    let n = s.len();
    let ghost nv = needles@.map_values(|nd: &str| nd@);
    let mut mask: Vec<bool> = vec![false; n];
    let mut k: usize = 0;
    while k < needles.len()
        invariant
            s@ == string@,
            n == s@.len(),
            k <= needles@.len(),
            nv == needles@.map_values(|nd: &str| nd@),
            mask@.len() == n,
            forall|p: int| 0 <= p < n ==> #[trigger] mask@[p] == munge_point_among(s@, nv, k as int, p),
        decreases needles@.len() - k,
    {
        let nd = chars_of(needles[k]);
        let ghost before = mask@;
        if nd.len() >= 2 {
            mark_matches(&s, &nd, &mut mask);
        }
        assert forall|p: int| 0 <= p < n implies #[trigger] mask@[p] == munge_point_among(
            s@,
            nv,
            k + 1,
            p,
        ) by {
            assert(nv[k as int] == nd@);
            if munge_point_among(s@, nv, k + 1, p) {
                let kk = choose|kk: int|
                    0 <= kk < k + 1 && kk < nv.len() && nv[kk].len() >= 2 && #[trigger] is_match_index(
                        s@,
                        nv[kk],
                        0,
                        p - 1,
                    );
                if kk < k {
                    assert(munge_point_among(s@, nv, k as int, p));
                }
            }
            if mask@[p] && !before[p] {
                assert(is_match_index(s@, nv[k as int], 0, p - 1));
            }
        }
        k += 1;
    }
    assert(mask@ =~= munge_mask(s@, nv));
    proof {
        assert forall|p: int| 0 <= p < n && #[trigger] mask@[p] implies 0 < p < n as int - 1 + 1 by {
            let kk = choose|kk: int|
                0 <= kk < nv.len() && kk < nv.len() && nv[kk].len() >= 2 && #[trigger] is_match_index(
                    s@,
                    nv[kk],
                    0,
                    p - 1,
                );
            lemma_match_index_occurs(s@, nv[kk], 0, p - 1);
        }
        lemma_mask_points(mask@, 0);
    }
    let mut stack: Vec<usize> = Vec::new();
    let mut q = n;
    while q > 0
        invariant
            q <= n,
            n == s@.len(),
            mask@.len() == n,
            stack_points(stack@) == mask_points(mask@, q as int),
        decreases q,
    {
        q -= 1;
        if mask[q] {
            stack.push(q);
            assert(stack_points(stack@) =~= seq![q as int] + mask_points(mask@, q + 1));
        }
    }
    Munge { string: s, munge_points: stack, pos: 0, munging: false }
}

impl Munge {
    /// Returns the next piece, or `None` once all pieces have been yielded.
    pub fn next(&mut self) -> (r: Option<String>)
        requires
            old(self).wf(),
        ensures
            final(self).wf(),
            final(self).text() == old(self).text(),
            old(self)@.len() == 0 ==> r is None && final(self)@ == old(self)@,
            old(self)@.len() > 0 ==> (r matches Some(piece) && piece@ == old(self)@[0]
                && final(self)@ == old(self)@.drop_first()),
    {
        if self.pos >= self.string.len() {
            return None;
        }
        let ghost old_view = self@;
        let ghost rp = stack_points(self.munge_points@);
        let n = self.munge_points.len();
        if n > 0 {
            let i = self.munge_points[n - 1];
            assert(rp[0] == i);
            if !self.munging {
                self.munging = true;
                let piece = chars_range(&self.string, self.pos, i);
                assert(old_view.drop_first() =~= self@);
                Some(piece)
            } else {
                self.munge_points.pop();
                assert(stack_points(self.munge_points@) =~= rp.drop_first());
                self.pos = i;
                self.munging = false;
                let sep = vec!['\u{200B}'];
                let piece = string_from_chars(sep.as_slice());
                assert(old_view.drop_first() =~= self@);
                Some(piece)
            }
        } else {
            let piece = chars_range(&self.string, self.pos, self.string.len());
            self.pos = self.string.len();
            assert(old_view.drop_first() =~= self@);
            Some(piece)
        }
    }

    /// The number of pieces still to be yielded.
    pub fn len(&self) -> (r: usize)
        requires
            self.wf(),
        ensures
            r == self@.len(),
    {
        let ghost rp = stack_points(self.munge_points@);
        if self.pos >= self.string.len() {
            0
        } else if self.munging {
            proof {
                lemma_pieces_len(self.string@, rp.drop_first(), rp[0]);
            }
            self.munge_points.len() * 2
        } else {
            proof {
                lemma_pieces_len(self.string@, rp, self.pos as int);
            }
            self.munge_points.len() * 2 + 1
        }
    }

    /// The bounds on the number of pieces still to be yielded, which are both exact.
    pub fn size_hint(&self) -> (r: (usize, Option<usize>))
        requires
            self.wf(),
        ensures
            r.0 == self@.len(),
            r.1 == Some(r.0),
    {
        let n = self.len();
        (n, Some(n))
    }

    /// Concatenates all remaining pieces.
    pub fn collect_string(self) -> (r: String)
        requires
            self.wf(),
        ensures
            r@ == self@.flatten(),
    {
        let mut it = self;
        let ghost all = it@;
        let mut acc: Vec<char> = Vec::new();
        loop
            invariant
                it.wf(),
                acc@ + it@.flatten() == all.flatten(),
            ensures
                it@.len() == 0,
                acc@ + it@.flatten() == all.flatten(),
            decreases it@.len(),
        {
            let ghost before = it@;
            let piece = match it.next() {
                Some(p) => p,
                None => break,
            };
            let cs = chars_of(piece.as_str());
            let mut j: usize = 0;
            let ghost acc0 = acc@;
            while j < cs.len()
                invariant
                    j <= cs@.len(),
                    acc@ == acc0 + cs@.subrange(0, j as int),
                decreases cs@.len() - j,
            {
                acc.push(cs[j]);
                j += 1;
                assert(acc@ =~= acc0 + cs@.subrange(0, j as int));
            }
            assert(cs@.subrange(0, cs@.len() as int) =~= cs@);
            assert(before.flatten() == cs@ + it@.flatten());
            assert(acc@ + it@.flatten() =~= acc0 + (cs@ + it@.flatten()));
        }
        assert(it@.flatten() =~= Seq::<char>::empty());
        assert(acc@ =~= acc@ + it@.flatten());
        string_from_chars(acc.as_slice())
    }
}

/// An owned copy of a string slice.
pub fn to_cow_owned(x: &str) -> (r: String)
    ensures
        r@ == x@,
{
    x.to_owned()
}

/// Lists `items` in an order chosen at random, by `rando::Rando::rand_iter`, which yields each
/// item of a slice once, in random order. The contract claims only that the result holds the
/// same items, each as often; the order is left unsaid, as it rests on chance.
#[verifier::external_body]
pub(crate) fn random_order(items: &[usize]) -> (r: Vec<usize>)
    ensures
        r@.to_multiset() == items@.to_multiset(),
{
    items.rand_iter().copied().collect()
}

/// Two lists with the same items, each as often, contain the same values.
pub(crate) proof fn lemma_same_multiset_contains(a: Seq<usize>, b: Seq<usize>, x: usize)
    requires
        a.to_multiset() == b.to_multiset(),
    ensures
        a.contains(x) <==> b.contains(x),
{
    a.to_multiset_ensures();
    b.to_multiset_ensures();
    assert(a.contains(x) <==> a.to_multiset().count(x) > 0);
    assert(b.contains(x) <==> b.to_multiset().count(x) > 0);
}

} // verus!
