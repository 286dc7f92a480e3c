use vstd::prelude::*;

use crate::text::chars_of;

verus! {

/// Unicode `White_Space`: the characters that `\s` matches and that trimming removes.
pub open spec fn is_white(c: char) -> bool {
    let u = c as u32;
    (0x9 <= u && u <= 0xd) || u == 0x20 || u == 0x85 || u == 0xa0 || u == 0x1680 || (0x2000 <= u
        && u <= 0x200a) || u == 0x2028 || u == 0x2029 || u == 0x202f || u == 0x205f || u == 0x3000
}

/// Opening marker of a reasoning block.
pub open spec fn open_marker() -> Seq<char> {
    seq!['<', 't', 'h', 'i', 'n', 'k', '>']
}

/// Closing marker of a reasoning block.
pub open spec fn close_marker() -> Seq<char> {
    seq!['<', '/', 't', 'h', 'i', 'n', 'k', '>']
}

/// Control token that some model configurations append.
pub open spec fn think_token() -> Seq<char> {
    seq!['/', 't', 'h', 'i', 'n', 'k']
}

/// Control token that may precede `/think` at the end of a fragment.
pub open spec fn no_think_token() -> Seq<char> {
    seq!['/', 'n', 'o', '_', 't', 'h', 'i', 'n', 'k']
}

/// `pat` stands in `s` starting at position `i`.
pub open spec fn occurs_at(s: Seq<char>, i: int, pat: Seq<char>) -> bool {
    0 <= i && i + pat.len() <= s.len() && s.subrange(i, i + pat.len()) == pat
}

/// The first position at or after `i` where `pat` starts, if any.
pub open spec fn first_occurrence(s: Seq<char>, i: int, pat: Seq<char>) -> Option<int>
    decreases s.len() - i,
{
    if i < 0 || pat.len() == 0 || i + pat.len() > s.len() {
        None
    } else if occurs_at(s, i, pat) {
        Some(i)
    } else {
        first_occurrence(s, i + 1, pat)
    }
}

/// The first position at or after `i` that is not white space (or the length).
pub open spec fn skip_white(s: Seq<char>, i: int) -> int
    decreases s.len() - i,
{
    if 0 <= i < s.len() && is_white(s[i]) {
        skip_white(s, i + 1)
    } else {
        i
    }
}

/// Every character from position `i` to the end is white space.
pub open spec fn all_white_from(s: Seq<char>, i: int) -> bool {
    forall|k: int| i <= k < s.len() ==> is_white(#[trigger] s[k])
}

/// From `i` to the end, `s` is a control suffix: white space, optionally
/// `/no_think` and white space, then `/think` and trailing white space.
pub open spec fn control_suffix_at(s: Seq<char>, i: int) -> bool {
    let j = skip_white(s, i);
    (occurs_at(s, j, think_token()) && all_white_from(s, j + 6)) || (occurs_at(
        s,
        j,
        no_think_token(),
    ) && occurs_at(s, skip_white(s, j + 9), think_token()) && all_white_from(
        s,
        skip_white(s, j + 9) + 6,
    ))
}

/// A complete reasoning block starts at `i`: the opening marker, and a closing
/// marker somewhere after it.
pub open spec fn block_at(s: Seq<char>, i: int) -> bool {
    occurs_at(s, i, open_marker()) && first_occurrence(s, i + 7, close_marker()) is Some
}

/// Where the block starting at `i` ends: just past the first closing marker.
pub open spec fn block_end(s: Seq<char>, i: int) -> int {
    first_occurrence(s, i + 7, close_marker())->0 + 8
}

/// The text from position `i` on, with every reasoning block and the control
/// suffix removed, scanning left to right: at each position a block is taken
/// first, then a control suffix, else the character is kept.
pub open spec fn strip_from(s: Seq<char>, i: int) -> Seq<char>
    decreases s.len() - i,
{
    if i < 0 || i >= s.len() {
        seq![]
    } else if block_at(s, i) {
        proof {
            lemma_first_occurrence_bounds(s, i + 7, close_marker());
        }
        strip_from(s, block_end(s, i))
    } else if control_suffix_at(s, i) {
        seq![]
    } else {
        seq![s[i]] + strip_from(s, i + 1)
    }
}

/// Position just past the last character of `s[..j]` that is not white space.
pub open spec fn back_white(s: Seq<char>, j: int) -> int
    decreases j,
{
    if 0 < j <= s.len() && is_white(s[j - 1]) {
        back_white(s, j - 1)
    } else {
        j
    }
}

/// `s` without leading and trailing white space.
pub open spec fn trim(s: Seq<char>) -> Seq<char> {
    if skip_white(s, 0) >= s.len() {
        seq![]
    } else {
        s.subrange(skip_white(s, 0), back_white(s, s.len() as int))
    }
}

/// What the sanitizer makes of a fragment's text.
pub open spec fn sanitized(s: Seq<char>) -> Seq<char> {
    trim(strip_from(s, 0))
}

/// Neither end of `s` is white space.
pub open spec fn is_trimmed(s: Seq<char>) -> bool {
    s.len() > 0 ==> !is_white(s[0]) && !is_white(s[s.len() - 1])
}

pub proof fn lemma_first_occurrence_bounds(s: Seq<char>, i: int, pat: Seq<char>)
    ensures
        first_occurrence(s, i, pat) matches Some(q) ==> i <= q && occurs_at(s, q, pat) && (
        forall|k: int| i <= k < q ==> !occurs_at(s, k, pat)),
    decreases s.len() - i,
{
    if i < 0 || pat.len() == 0 || i + pat.len() > s.len() {
    } else if occurs_at(s, i, pat) {
    } else {
        lemma_first_occurrence_bounds(s, i + 1, pat);
    }
}

pub proof fn lemma_skip_white_bounds(s: Seq<char>, i: int)
    ensures
        0 <= i <= s.len() ==> i <= skip_white(s, i) <= s.len(),
        forall|k: int| i <= k < skip_white(s, i) ==> is_white(#[trigger] s[k]),
        0 <= skip_white(s, i) < s.len() ==> !is_white(s[skip_white(s, i)]),
        i < 0 || i >= s.len() ==> skip_white(s, i) == i,
    decreases s.len() - i,
{
    if 0 <= i < s.len() && is_white(s[i]) {
        lemma_skip_white_bounds(s, i + 1);
    }
}

pub proof fn lemma_back_white_bounds(s: Seq<char>, j: int)
    ensures
        0 <= j <= s.len() ==> 0 <= back_white(s, j) <= j,
        forall|k: int| back_white(s, j) <= k < j ==> is_white(#[trigger] s[k]),
        0 < back_white(s, j) <= s.len() ==> !is_white(s[back_white(s, j) - 1]),
    decreases j,
{
    if 0 < j <= s.len() && is_white(s[j - 1]) {
        lemma_back_white_bounds(s, j - 1);
    }
}

pub proof fn lemma_trim_is_trimmed(s: Seq<char>)
    ensures
        is_trimmed(trim(s)),
{
    lemma_skip_white_bounds(s, 0);
    lemma_back_white_bounds(s, s.len() as int);
    if skip_white(s, 0) < s.len() {
        let lo = skip_white(s, 0);
        let hi = back_white(s, s.len() as int);
        assert(lo < hi) by {
            if hi <= lo {
                assert(is_white(s[lo]));
            }
        }
    }
}


proof fn lemma_strip_plain(s: Seq<char>, i: int)
    requires
        0 <= i <= s.len(),
        forall|k: int| 0 <= k < s.len() ==> !block_at(s, k) && !control_suffix_at(s, k),
    ensures
        strip_from(s, i) == s.subrange(i, s.len() as int),
    decreases s.len() - i,
{
    if i < s.len() {
        lemma_strip_plain(s, i + 1);
        assert(seq![s[i]] + s.subrange(i + 1, s.len() as int) =~= s.subrange(i, s.len() as int));
    } else {
        assert(s.subrange(i, s.len() as int) =~= seq![]);
    }
}

/// Sanitizing a fragment with no reasoning block and no control suffix
/// only trims it.
pub proof fn lemma_plain_text_only_trimmed(s: Seq<char>)
    requires
        forall|k: int| 0 <= k < s.len() ==> !block_at(s, k),
        forall|k: int| 0 <= k < s.len() ==> !control_suffix_at(s, k),
    ensures
        sanitized(s) == trim(s),
{
    lemma_strip_plain(s, 0);
    assert(s.subrange(0, s.len() as int) =~= s);
}

/// No control suffix starts at or before a `<`: no token holds one, and it is not white space.
proof fn lemma_no_suffix_before_angle(s: Seq<char>, i: int, p: int)
    requires
        0 <= i <= p < s.len(),
        s[p] == '<',
    ensures
        !control_suffix_at(s, i),
{
    lemma_skip_white_bounds(s, i);
    let j = skip_white(s, i);
    assert(j <= p) by {
        if j > p {
            assert(is_white(s[p]));
        }
    }
    if occurs_at(s, j, think_token()) {
        if p < j + 6 {
            assert(s.subrange(j, j + 6)[p - j] == s[p]);
        } else {
            assert(!is_white(s[p]));
        }
    }
    if occurs_at(s, j, no_think_token()) {
        if p < j + 9 {
            assert(s.subrange(j, j + 9)[p - j] == s[p]);
        } else {
            lemma_skip_white_bounds(s, j + 9);
            let k = skip_white(s, j + 9);
            assert(k <= p) by {
                if k > p {
                    assert(is_white(s[p]));
                }
            }
            if occurs_at(s, k, think_token()) {
                if p < k + 6 {
                    assert(s.subrange(k, k + 6)[p - k] == s[p]);
                } else {
                    assert(!is_white(s[p]));
                }
            }
        }
    }
}

proof fn lemma_first_occurrence_is(s: Seq<char>, i: int, q: int, pat: Seq<char>)
    requires
        0 <= i <= q,
        pat.len() > 0,
        occurs_at(s, q, pat),
        forall|k: int| i <= k < q ==> !occurs_at(s, k, pat),
    ensures
        first_occurrence(s, i, pat) == Some(q),
    decreases q - i,
{
    if i < q {
        lemma_first_occurrence_is(s, i + 1, q, pat);
    }
}

proof fn lemma_shift_occurs(x: Seq<char>, c: Seq<char>, i: int, pat: Seq<char>)
    requires
        0 <= i,
    ensures
        occurs_at(x + c, x.len() + i, pat) == occurs_at(c, i, pat),
{
    if i + pat.len() <= c.len() {
        assert((x + c).subrange(x.len() + i, x.len() + i + pat.len()) =~= c.subrange(
            i,
            i + pat.len(),
        ));
    }
}

proof fn lemma_shift_first_occurrence(x: Seq<char>, c: Seq<char>, i: int, pat: Seq<char>)
    requires
        0 <= i,
    ensures
        first_occurrence(x + c, x.len() + i, pat) == (match first_occurrence(c, i, pat) {
            Some(q) => Some(q + x.len()),
            None => None,
        }),
    decreases c.len() - i,
{
    lemma_shift_occurs(x, c, i, pat);
    if !(pat.len() == 0 || i + pat.len() > c.len()) && !occurs_at(c, i, pat) {
        lemma_shift_first_occurrence(x, c, i + 1, pat);
        assert(x.len() + (i + 1) == x.len() + i + 1);
    }
}

proof fn lemma_shift_skip_white(x: Seq<char>, c: Seq<char>, i: int)
    requires
        0 <= i,
    ensures
        skip_white(x + c, x.len() + i) == x.len() + skip_white(c, i),
    decreases c.len() - i,
{
    if i < c.len() && is_white(c[i]) {
        lemma_shift_skip_white(x, c, i + 1);
    }
}

proof fn lemma_shift_all_white(x: Seq<char>, c: Seq<char>, i: int)
    requires
        0 <= i,
    ensures
        all_white_from(x + c, x.len() + i) == all_white_from(c, i),
{
    if all_white_from(c, i) {
        assert forall|k: int| x.len() + i <= k < (x + c).len() implies is_white(#[trigger] (x
            + c)[k]) by {
            assert((x + c)[k] == c[k - x.len()]);
        }
    }
    if all_white_from(x + c, x.len() + i) {
        assert forall|k: int| i <= k < c.len() implies is_white(#[trigger] c[k]) by {
            assert((x + c)[x.len() + k] == c[k]);
        }
    }
}

proof fn lemma_shift_suffix(x: Seq<char>, c: Seq<char>, i: int)
    requires
        0 <= i,
    ensures
        control_suffix_at(x + c, x.len() + i) == control_suffix_at(c, i),
{
    lemma_shift_skip_white(x, c, i);
    lemma_skip_white_bounds(c, i);
    let j = skip_white(c, i);
    lemma_shift_occurs(x, c, j, think_token());
    lemma_shift_all_white(x, c, j + 6);
    lemma_shift_occurs(x, c, j, no_think_token());
    lemma_shift_skip_white(x, c, j + 9);
    lemma_skip_white_bounds(c, j + 9);
    let k = skip_white(c, j + 9);
    lemma_shift_occurs(x, c, k, think_token());
    lemma_shift_all_white(x, c, k + 6);
}

proof fn lemma_shift_strip(x: Seq<char>, c: Seq<char>, i: int)
    requires
        0 <= i,
    ensures
        strip_from(x + c, x.len() + i) == strip_from(c, i),
    decreases c.len() - i,
{
    let s = x + c;
    let n = x.len() as int;
    if i < c.len() {
        lemma_shift_occurs(x, c, i, open_marker());
        lemma_shift_first_occurrence(x, c, i + 7, close_marker());
        assert(n + (i + 7) == n + i + 7);
        lemma_shift_suffix(x, c, i);
        if block_at(c, i) {
            lemma_first_occurrence_bounds(c, i + 7, close_marker());
            lemma_shift_strip(x, c, block_end(c, i));
        } else if !control_suffix_at(c, i) {
            lemma_shift_strip(x, c, i + 1);
            assert(s[n + i] == c[i]);
        }
    }
}

proof fn lemma_prefix_plain(s: Seq<char>, a: Seq<char>)
    requires
        a.len() < s.len(),
        s.subrange(0, a.len() as int) == a,
        s[a.len() as int] == '<',
        forall|k: int| !occurs_at(a, k, open_marker()),
    ensures
        forall|i: int| 0 <= i < a.len() ==> !block_at(s, i) && !control_suffix_at(s, i),
{
    let p = a.len() as int;
    assert forall|i: int| 0 <= i < p implies !block_at(s, i) && !control_suffix_at(s, i) by {
        lemma_no_suffix_before_angle(s, i, p);
        if occurs_at(s, i, open_marker()) {
            if i + 7 <= p {
                assert(s.subrange(i, i + 7) =~= a.subrange(i, i + 7));
                assert(occurs_at(a, i, open_marker()));
            } else {
                assert(s.subrange(i, i + 7)[p - i] == s[p]);
            }
        }
    }
}

proof fn lemma_block_closes(s: Seq<char>, b: Seq<char>, start: int)
    requires
        0 <= start,
        start + b.len() + 8 <= s.len(),
        s.subrange(start, start + b.len()) == b,
        s.subrange(start + b.len(), start + b.len() + 8) == close_marker(),
        forall|k: int| !occurs_at(b, k, close_marker()),
    ensures
        first_occurrence(s, start, close_marker()) == Some(start + b.len()),
{
    let q = start + b.len();
    assert(s[q] == s.subrange(q, q + 8)[0]);
    assert forall|k: int| start <= k < q implies !occurs_at(s, k, close_marker()) by {
        if occurs_at(s, k, close_marker()) {
            if k + 8 <= q {
                assert(s.subrange(k, k + 8) =~= b.subrange(k - start, k - start + 8));
                assert(occurs_at(b, k - start, close_marker()));
            } else {
                assert(s.subrange(k, k + 8)[q - k] == s[q]);
            }
        }
    }
    lemma_first_occurrence_is(s, start, q, close_marker());
}

/// Sanitizing a fragment that holds a complete reasoning block removes that
/// block whole, markers included: with `a` holding no opening marker and the
/// block's body `b` no closing marker, the result is the text around the
/// block (the rest sanitized in turn) trimmed, with no white space at either end.
pub proof fn lemma_reasoning_block_removed(a: Seq<char>, b: Seq<char>, c: Seq<char>)
    requires
        forall|k: int| !occurs_at(a, k, open_marker()),
        forall|k: int| !occurs_at(b, k, close_marker()),
    ensures
        sanitized(a + open_marker() + b + close_marker() + c) == trim(a + strip_from(c, 0)),
        is_trimmed(sanitized(a + open_marker() + b + close_marker() + c)),
{
    let x = a + open_marker() + b + close_marker();
    let s = x + c;
    let p = a.len() as int;
    let q = p + 7 + b.len();
    assert(s.subrange(0, p) =~= a);
    assert(s.subrange(p, p + 7) =~= open_marker());
    assert(s[p] == s.subrange(p, p + 7)[0]);
    assert(s.subrange(p + 7, q) =~= b);
    assert(s.subrange(q, q + 8) =~= close_marker());
    lemma_prefix_plain(s, a);
    lemma_block_closes(s, b, p + 7);
    assert(block_at(s, p));
    assert(block_end(s, p) == x.len());
    lemma_shift_strip(x, c, 0);
    lemma_strip_prefix_kept(s, a, 0);
    assert(a.subrange(0, p) =~= a);
    lemma_trim_is_trimmed(strip_from(s, 0));
}

proof fn lemma_strip_prefix_kept(s: Seq<char>, a: Seq<char>, i: int)
    requires
        0 <= i <= a.len() < s.len(),
        s.subrange(0, a.len() as int) == a,
        forall|k: int| 0 <= k < a.len() ==> !block_at(s, k) && !control_suffix_at(s, k),
    ensures
        strip_from(s, i) == a.subrange(i, a.len() as int) + strip_from(s, a.len() as int),
    decreases a.len() - i,
{
    if i < a.len() {
        lemma_strip_prefix_kept(s, a, i + 1);
        assert(s[i] == a[i]);
        assert(seq![a[i]] + a.subrange(i + 1, a.len() as int) =~= a.subrange(i, a.len() as int));
    } else {
        assert(a.subrange(i, a.len() as int) =~= seq![]);
    }
}

fn white(c: char) -> (r: bool)
    ensures
        r == is_white(c),
{
    let u = c as u32;
    (0x9 <= u && u <= 0xd) || u == 0x20 || u == 0x85 || u == 0xa0 || u == 0x1680 || (0x2000 <= u
        && u <= 0x200a) || u == 0x2028 || u == 0x2029 || u == 0x202f || u == 0x205f || u == 0x3000
}

pub(crate) fn occurs_at_exec(s: &Vec<char>, i: usize, pat: &Vec<char>) -> (r: bool)
    ensures
        r == occurs_at(s@, i as int, pat@),
{
    if pat.len() > s.len() || i > s.len() - pat.len() {
        return false;
    }
    let mut k: usize = 0;
    while k < pat.len()
        invariant
            k <= pat.len(),
            i + pat.len() <= s.len(),
            forall|m: int| 0 <= m < k ==> s@[i + m] == pat@[m],
        decreases pat.len() - k,
    {
        if s[i + k] != pat[k] {
            assert(s@.subrange(i as int, i + pat.len())[k as int] != pat@[k as int]);
            return false;
        }
        k += 1;
    }
    assert(s@.subrange(i as int, i + pat.len()) =~= pat@);
    true
}

fn find_from(s: &Vec<char>, i: usize, pat: &Vec<char>) -> (r: Option<usize>)
    requires
        pat@.len() > 0,
    ensures
        match r {
            Some(q) => first_occurrence(s@, i as int, pat@) == Some(q as int),
            None => first_occurrence(s@, i as int, pat@) is None,
        },
{
    let mut j = i;
    while pat.len() <= s.len() && j <= s.len() - pat.len()
        invariant
            i <= j,
            pat@.len() > 0,
            first_occurrence(s@, i as int, pat@) == first_occurrence(s@, j as int, pat@),
        decreases s.len() - j,
    {
        if occurs_at_exec(s, j, pat) {
            return Some(j);
        }
        j += 1;
    }
    None
}

fn skip_white_exec(s: &Vec<char>, i: usize) -> (r: usize)
    requires
        i <= s.len(),
    ensures
        r == skip_white(s@, i as int),
        i <= r <= s.len(),
{
    let mut j = i;
    while j < s.len() && white(s[j])
        invariant
            i <= j <= s.len(),
            skip_white(s@, i as int) == skip_white(s@, j as int),
        decreases s.len() - j,
    {
        j += 1;
    }
    j
}

fn back_white_exec(s: &Vec<char>, j: usize) -> (r: usize)
    requires
        j <= s.len(),
    ensures
        r == back_white(s@, j as int),
{
    let mut k = j;
    while k > 0 && white(s[k - 1])
        invariant
            k <= j <= s.len(),
            back_white(s@, j as int) == back_white(s@, k as int),
        decreases k,
    {
        k -= 1;
    }
    k
}

fn all_white_from_exec(s: &Vec<char>, i: usize) -> (r: bool)
    ensures
        r == all_white_from(s@, i as int),
{
    let mut k = i;
    while k < s.len()
        invariant
            i <= k,
            forall|m: int| i <= m < k ==> is_white(#[trigger] s@[m]),
        decreases s.len() - k,
    {
        if !white(s[k]) {
            return false;
        }
        k += 1;
    }
    true
}

fn control_suffix_exec(s: &Vec<char>, i: usize, think: &Vec<char>, no_think: &Vec<char>) -> (r:
    bool)
    requires
        i <= s.len(),
        think@ == think_token(),
        no_think@ == no_think_token(),
    ensures
        r == control_suffix_at(s@, i as int),
{
    let j = skip_white_exec(s, i);
    if occurs_at_exec(s, j, think) && all_white_from_exec(s, j + 6) {
        return true;
    }
    if occurs_at_exec(s, j, no_think) {
        let k = skip_white_exec(s, j + 9);
        occurs_at_exec(s, k, think) && all_white_from_exec(s, k + 6)
    } else {
        false
    }
}

/// `text` with every reasoning block and the control suffix removed.
fn strip(text: &str, s: &Vec<char>) -> (r: String)
    requires
        s@ == text@,
    ensures
        r@ == strip_from(text@, 0),
{
    let open: Vec<char> = vec!['<', 't', 'h', 'i', 'n', 'k', '>'];
    let close: Vec<char> = vec!['<', '/', 't', 'h', 'i', 'n', 'k', '>'];
    let think: Vec<char> = vec!['/', 't', 'h', 'i', 'n', 'k'];
    let no_think: Vec<char> = vec!['/', 'n', 'o', '_', 't', 'h', 'i', 'n', 'k'];
    assert(open@ =~= open_marker());
    assert(close@ =~= close_marker());
    assert(think@ =~= think_token());
    assert(no_think@ =~= no_think_token());
    let mut out = String::new();
    let mut run_start: usize = 0;
    let mut i: usize = 0;
    while i < s.len()
        invariant
            run_start <= i <= s.len(),
            s@ == text@,
            open@ == open_marker(),
            close@ == close_marker(),
            think@ == think_token(),
            no_think@ == no_think_token(),
            out@ + s@.subrange(run_start as int, i as int) + strip_from(s@, i as int) == strip_from(
                s@,
                0,
            ),
        decreases s.len() - i,
    {
        let mut block: Option<usize> = None;
        if occurs_at_exec(s, i, &open) && i + 7 <= s.len() {
            block = find_from(s, i + 7, &close);
        }
        match block {
            Some(q) => {
                proof {
                    lemma_first_occurrence_bounds(s@, i + 7, close_marker());
                }
                out.append(text.substring_char(run_start, i));
                i = q + 8;
                run_start = i;
            },
            None => {
                if control_suffix_exec(s, i, &think, &no_think) {
                    out.append(text.substring_char(run_start, i));
                    assert(out@ =~= strip_from(s@, 0));
                    return out;
                }
                assert(s@.subrange(run_start as int, i as int) + seq![s@[i as int]] =~= s@.subrange(
                    run_start as int,
                    i + 1,
                ));
                i += 1;
            },
        }
    }
    out.append(text.substring_char(run_start, i));
    assert(out@ =~= strip_from(s@, 0));
    out
}

/// Cleans one fragment of model output: removes every reasoning block (an
/// opening `<think>` through the first `</think>` after it, across white space
/// and line breaks), then a trailing control suffix (`/think`, or `/no_think`
/// followed by `/think`), and trims white space from both ends.
///
/// A block whose markers arrive in two different fragments is not recognised:
/// each fragment is cleaned on its own.
pub fn sanitize(text: &str) -> (r: String)
    ensures
        r@ == sanitized(text@),
        is_trimmed(r@),
{
    let s = chars_of(text);
    let stripped = strip(text, &s);
    let t = chars_of(stripped.as_str());
    proof {
        lemma_trim_is_trimmed(stripped@);
        lemma_skip_white_bounds(stripped@, 0);
        lemma_back_white_bounds(stripped@, stripped@.len() as int);
    }
    let lo = skip_white_exec(&t, 0);
    if lo >= t.len() {
        return String::new();
    }
    let hi = back_white_exec(&t, t.len());
    assert(lo < hi) by {
        if hi <= lo {
            assert(is_white(t@[lo as int]));
        }
    }
    stripped.as_str().substring_char(lo, hi).to_owned()
}

} // verus!
