//! Byte-level scanning helpers shared by the grammar parsers.
//!
//! Every executable scanner mirrors a specification function over the
//! input's byte sequence, so the parsers' contracts can be stated exactly.

use vstd::prelude::*;

verus! {

/// A space or a horizontal tab.
pub open spec fn is_space(b: u8) -> bool {
    b == 32 || b == 9
}

/// A line-break byte: line feed or carriage return.
pub open spec fn is_line_break(b: u8) -> bool {
    b == 10 || b == 13
}

/// Any whitespace, including line breaks.
pub open spec fn is_multispace(b: u8) -> bool {
    is_space(b) || is_line_break(b)
}

/// An ASCII letter.
pub open spec fn is_alpha(b: u8) -> bool {
    (65 <= b && b <= 90) || (97 <= b && b <= 122)
}

/// An ASCII decimal digit.
pub open spec fn is_digit(b: u8) -> bool {
    48 <= b && b <= 57
}

/// ASCII lower-casing of one byte.
pub open spec fn lower(b: u8) -> u8 {
    if 65 <= b && b <= 90 {
        (b + 32) as u8
    } else {
        b
    }
}

/// ASCII lower-casing of a byte sequence.
pub open spec fn lower_seq(s: Seq<u8>) -> Seq<u8> {
    s.map_values(|b: u8| lower(b))
}

/// The case-sensitive tag `t` occurs at `pos` in `s`.
pub open spec fn tag_at(s: Seq<u8>, pos: int, t: Seq<u8>) -> bool {
    &&& 0 <= pos
    &&& pos + t.len() <= s.len()
    &&& forall|i: int| 0 <= i < t.len() ==> s[pos + i] == t[i]
}

/// The tag `t` (given in lower case) occurs at `pos` in `s`, ignoring ASCII case.
pub open spec fn tag_nocase_at(s: Seq<u8>, pos: int, t: Seq<u8>) -> bool {
    &&& 0 <= pos
    &&& pos + t.len() <= s.len()
    &&& forall|i: int| 0 <= i < t.len() ==> lower(s[pos + i]) == t[i]
}

/// First position at or after `pos` that does not hold a space or tab.
pub open spec fn spec_skip_spaces(s: Seq<u8>, pos: int) -> int
    decreases s.len() - pos,
{
    if 0 <= pos < s.len() && is_space(s[pos]) {
        spec_skip_spaces(s, pos + 1)
    } else {
        pos
    }
}

/// First position at or after `pos` that does not hold an ASCII letter.
pub open spec fn spec_alpha_end(s: Seq<u8>, pos: int) -> int
    decreases s.len() - pos,
{
    if 0 <= pos < s.len() && is_alpha(s[pos]) {
        spec_alpha_end(s, pos + 1)
    } else {
        pos
    }
}

/// First position at or after `pos` that does not hold a digit.
pub open spec fn spec_digit_end(s: Seq<u8>, pos: int) -> int
    decreases s.len() - pos,
{
    if 0 <= pos < s.len() && is_digit(s[pos]) {
        spec_digit_end(s, pos + 1)
    } else {
        pos
    }
}

/// First position at or after `pos` holding a line break, or the end of input.
pub open spec fn spec_line_end(s: Seq<u8>, pos: int) -> int
    decreases s.len() - pos,
{
    if 0 <= pos < s.len() && !is_line_break(s[pos]) {
        spec_line_end(s, pos + 1)
    } else {
        pos
    }
}

/// First position at or after `pos` holding a double quote, or the end of input.
pub open spec fn spec_find_quote(s: Seq<u8>, pos: int) -> int
    decreases s.len() - pos,
{
    if 0 <= pos < s.len() && s[pos] != 34 {
        spec_find_quote(s, pos + 1)
    } else {
        pos
    }
}

/// Position after all leading whitespace and `#` comments.
pub open spec fn spec_skip_trivia(s: Seq<u8>, pos: int) -> int
    decreases s.len() - pos, 0int,
{
    if 0 <= pos < s.len() && is_multispace(s[pos]) {
        spec_skip_trivia(s, pos + 1)
    } else if 0 <= pos < s.len() && s[pos] == 35 {
        spec_skip_comment(s, pos + 1)
    } else {
        pos
    }
}

/// Position after the rest of a comment line and any trivia that follows it.
pub open spec fn spec_skip_comment(s: Seq<u8>, pos: int) -> int
    decreases s.len() - pos, 1int,
{
    if 0 <= pos < s.len() && !is_line_break(s[pos]) {
        spec_skip_comment(s, pos + 1)
    } else {
        spec_skip_trivia(s, pos)
    }
}

pub broadcast proof fn lemma_skip_spaces_bounds(s: Seq<u8>, pos: int)
    requires
        0 <= pos <= s.len(),
    ensures
        pos <= #[trigger] spec_skip_spaces(s, pos) <= s.len(),
    decreases s.len() - pos,
{
    if 0 <= pos < s.len() && is_space(s[pos]) {
        lemma_skip_spaces_bounds(s, pos + 1);
    }
}

pub broadcast proof fn lemma_alpha_end_bounds(s: Seq<u8>, pos: int)
    requires
        0 <= pos <= s.len(),
    ensures
        pos <= #[trigger] spec_alpha_end(s, pos) <= s.len(),
    decreases s.len() - pos,
{
    if 0 <= pos < s.len() && is_alpha(s[pos]) {
        lemma_alpha_end_bounds(s, pos + 1);
    }
}

pub broadcast proof fn lemma_digit_end_bounds(s: Seq<u8>, pos: int)
    requires
        0 <= pos <= s.len(),
    ensures
        pos <= #[trigger] spec_digit_end(s, pos) <= s.len(),
    decreases s.len() - pos,
{
    if 0 <= pos < s.len() && is_digit(s[pos]) {
        lemma_digit_end_bounds(s, pos + 1);
    }
}

pub broadcast proof fn lemma_line_end_bounds(s: Seq<u8>, pos: int)
    requires
        0 <= pos <= s.len(),
    ensures
        pos <= #[trigger] spec_line_end(s, pos) <= s.len(),
    decreases s.len() - pos,
{
    if 0 <= pos < s.len() && !is_line_break(s[pos]) {
        lemma_line_end_bounds(s, pos + 1);
    }
}

pub broadcast proof fn lemma_find_quote_bounds(s: Seq<u8>, pos: int)
    requires
        0 <= pos <= s.len(),
    ensures
        pos <= #[trigger] spec_find_quote(s, pos) <= s.len(),
    decreases s.len() - pos,
{
    if 0 <= pos < s.len() && s[pos] != 34 {
        lemma_find_quote_bounds(s, pos + 1);
    }
}

pub broadcast proof fn lemma_skip_trivia_bounds(s: Seq<u8>, pos: int)
    requires
        0 <= pos <= s.len(),
    ensures
        pos <= #[trigger] spec_skip_trivia(s, pos) <= s.len(),
    decreases s.len() - pos, 0int,
{
    if 0 <= pos < s.len() && is_multispace(s[pos]) {
        lemma_skip_trivia_bounds(s, pos + 1);
    } else if 0 <= pos < s.len() && s[pos] == 35 {
        lemma_skip_comment_bounds(s, pos + 1);
    }
}

pub broadcast proof fn lemma_skip_comment_bounds(s: Seq<u8>, pos: int)
    requires
        0 <= pos <= s.len(),
    ensures
        pos <= #[trigger] spec_skip_comment(s, pos) <= s.len(),
    decreases s.len() - pos, 1int,
{
    if 0 <= pos < s.len() && !is_line_break(s[pos]) {
        lemma_skip_comment_bounds(s, pos + 1);
    } else {
        lemma_skip_trivia_bounds(s, pos);
    }
}

pub proof fn lemma_digit_end_range(s: Seq<u8>, pos: int)
    requires
        0 <= pos <= s.len(),
    ensures
        forall|i: int| pos <= i < spec_digit_end(s, pos) ==> is_digit(s[i]),
    decreases s.len() - pos,
{
    if 0 <= pos < s.len() && is_digit(s[pos]) {
        lemma_digit_end_range(s, pos + 1);
        lemma_digit_end_bounds(s, pos + 1);
    }
}

pub proof fn lemma_alpha_end_of_run(s: Seq<u8>, lo: int, hi: int)
    requires
        0 <= lo <= hi <= s.len(),
        forall|i: int| lo <= i < hi ==> is_alpha(s[i]),
        hi == s.len() || !is_alpha(s[hi]),
    ensures
        spec_alpha_end(s, lo) == hi,
    decreases hi - lo,
{
    if lo < hi {
        lemma_alpha_end_of_run(s, lo + 1, hi);
    }
}

pub fn skip_spaces(s: &Vec<u8>, pos: usize) -> (r: usize)
    requires
        pos <= s@.len(),
    ensures
        r == spec_skip_spaces(s@, pos as int),
        pos <= r <= s@.len(),
        s@.len() <= usize::MAX,
{
    let mut i: usize = pos;
    loop
        invariant
            pos <= i <= s@.len(),
            spec_skip_spaces(s@, pos as int) == spec_skip_spaces(s@, i as int),
        decreases s@.len() - i,
    {
        if i < s.len() && (s[i] == 32 || s[i] == 9) {
            i = i + 1;
        } else {
            return i;
        }
    }
}

pub fn alpha_end(s: &Vec<u8>, pos: usize) -> (r: usize)
    requires
        pos <= s@.len(),
    ensures
        r == spec_alpha_end(s@, pos as int),
        pos <= r <= s@.len(),
        s@.len() <= usize::MAX,
{
    let mut i: usize = pos;
    loop
        invariant
            pos <= i <= s@.len(),
            spec_alpha_end(s@, pos as int) == spec_alpha_end(s@, i as int),
        decreases s@.len() - i,
    {
        if i < s.len() && ((65 <= s[i] && s[i] <= 90) || (97 <= s[i] && s[i] <= 122)) {
            i = i + 1;
        } else {
            return i;
        }
    }
}

pub fn digit_end(s: &Vec<u8>, pos: usize) -> (r: usize)
    requires
        pos <= s@.len(),
    ensures
        r == spec_digit_end(s@, pos as int),
        pos <= r <= s@.len(),
        s@.len() <= usize::MAX,
{
    let mut i: usize = pos;
    loop
        invariant
            pos <= i <= s@.len(),
            spec_digit_end(s@, pos as int) == spec_digit_end(s@, i as int),
        decreases s@.len() - i,
    {
        if i < s.len() && 48 <= s[i] && s[i] <= 57 {
            i = i + 1;
        } else {
            return i;
        }
    }
}

pub fn line_end(s: &Vec<u8>, pos: usize) -> (r: usize)
    requires
        pos <= s@.len(),
    ensures
        r == spec_line_end(s@, pos as int),
        pos <= r <= s@.len(),
        s@.len() <= usize::MAX,
{
    let mut i: usize = pos;
    loop
        invariant
            pos <= i <= s@.len(),
            spec_line_end(s@, pos as int) == spec_line_end(s@, i as int),
        decreases s@.len() - i,
    {
        if i < s.len() && !(s[i] == 10 || s[i] == 13) {
            i = i + 1;
        } else {
            return i;
        }
    }
}

pub fn find_quote(s: &Vec<u8>, pos: usize) -> (r: usize)
    requires
        pos <= s@.len(),
    ensures
        r == spec_find_quote(s@, pos as int),
        pos <= r <= s@.len(),
        s@.len() <= usize::MAX,
{
    let mut i: usize = pos;
    loop
        invariant
            pos <= i <= s@.len(),
            spec_find_quote(s@, pos as int) == spec_find_quote(s@, i as int),
        decreases s@.len() - i,
    {
        if i < s.len() && s[i] != 34 {
            i = i + 1;
        } else {
            return i;
        }
    }
}

pub fn skip_trivia(s: &Vec<u8>, pos: usize) -> (r: usize)
    requires
        pos <= s@.len(),
    ensures
        r == spec_skip_trivia(s@, pos as int),
        pos <= r <= s@.len(),
        s@.len() <= usize::MAX,
{
    let mut i: usize = pos;
    loop
        invariant
            pos <= i <= s@.len(),
            spec_skip_trivia(s@, pos as int) == spec_skip_trivia(s@, i as int),
        decreases s@.len() - i,
    {
        if i < s.len() && (s[i] == 32 || s[i] == 9 || s[i] == 10 || s[i] == 13) {
            i = i + 1;
        } else if i < s.len() && s[i] == 35 {
            let mut j: usize = i + 1;
            while j < s.len() && !(s[j] == 10 || s[j] == 13)
                invariant
                    i < j <= s@.len(),
                    spec_skip_trivia(s@, pos as int) == spec_skip_comment(s@, j as int),
                decreases s@.len() - j,
            {
                j = j + 1;
            }
            i = j;
        } else {
            return i;
        }
    }
}

/// The bytes of `s` from `lo` (inclusive) to `hi` (exclusive), as a fresh vector.
pub fn subvec(s: &Vec<u8>, lo: usize, hi: usize) -> (r: Vec<u8>)
    requires
        lo <= hi <= s@.len(),
    ensures
        r@ == s@.subrange(lo as int, hi as int),
{
    let mut out: Vec<u8> = Vec::new();
    let mut i: usize = lo;
    while i < hi
        invariant
            lo <= i <= hi <= s@.len(),
            out@ == s@.subrange(lo as int, i as int),
        decreases hi - i,
    {
        out.push(s[i]);
        proof {
            assert(out@ =~= s@.subrange(lo as int, (i + 1) as int));
        }
        i = i + 1;
    }
    out
}

/// Whether two byte vectors hold the same bytes.
pub fn eq_bytes(a: &Vec<u8>, b: &Vec<u8>) -> (r: bool)
    ensures
        r == (a@ == b@),
{
    if a.len() != b.len() {
        return false;
    }
    let mut i: usize = 0;
    while i < a.len()
        invariant
            0 <= i <= a@.len(),
            a@.len() == b@.len(),
            forall|k: int| 0 <= k < i ==> a@[k] == b@[k],
        decreases a@.len() - i,
    {
        if a[i] != b[i] {
            return false;
        }
        i = i + 1;
    }
    proof {
        assert(a@ =~= b@);
    }
    true
}

/// ASCII lower-casing of a byte vector.
pub fn lower_vec(s: &Vec<u8>) -> (r: Vec<u8>)
    ensures
        r@ == lower_seq(s@),
{
    let mut out: Vec<u8> = Vec::new();
    let mut i: usize = 0;
    while i < s.len()
        invariant
            0 <= i <= s@.len(),
            out@.len() == i,
            forall|k: int| 0 <= k < i ==> out@[k] == lower(s@[k]),
        decreases s@.len() - i,
    {
        out.push(lower_byte(s[i]));
        i = i + 1;
    }
    proof {
        assert(out@ =~= lower_seq(s@));
    }
    out
}

/// ASCII lower-casing of one byte.
pub fn lower_byte(b: u8) -> (r: u8)
    ensures
        r == lower(b),
{
    if 65 <= b && b <= 90 {
        b + 32
    } else {
        b
    }
}

/// Whether the tag `t` (given in lower case) occurs at `pos` in `s`,
/// ignoring ASCII case.
pub fn match_tag_nocase(s: &Vec<u8>, pos: usize, t: &Vec<u8>) -> (r: bool)
    ensures
        r == tag_nocase_at(s@, pos as int, t@),
        s@.len() <= usize::MAX,
{
    let n = s.len();
    if pos > n || t.len() > n - pos {
        return false;
    }
    let mut i: usize = 0;
    while i < t.len()
        invariant
            0 <= i <= t@.len(),
            n == s@.len(),
            pos + t@.len() <= n,
            forall|k: int| 0 <= k < i ==> lower(s@[pos + k]) == t@[k],
        decreases t@.len() - i,
    {
        if lower_byte(s[pos + i]) != t[i] {
            return false;
        }
        i = i + 1;
    }
    true
}

} // verus!
