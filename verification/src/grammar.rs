//! The grammar of the operator-description language: field parsers, the
//! recursive pattern parser, the record assembler and the file parser.
//!
//! Every executable parser mirrors a specification function over the
//! input's byte sequence, so its result — success, value, new position,
//! or failure — is pinned down exactly.

use vstd::prelude::*;
use crate::scan::{
    is_alpha, is_digit, lower, lower_seq,
    tag_at, tag_nocase_at, spec_skip_spaces, spec_alpha_end, spec_digit_end,
    spec_line_end, spec_find_quote, spec_skip_trivia,
    skip_spaces, alpha_end, digit_end, line_end, find_quote, skip_trivia, subvec,
    match_tag_nocase,
};
use crate::syntax::{
    FieldType, Associativity, Syntax, Pat, OpRecord, RecordV, pat_of, pats_of,
    field_kind_of, assoc_of,
    kw_name_colon, kw_true, kw_false, kw_left, kw_right, kw_full, kw_non, kw_none,
    kw_expr1, kw_expr2, kw_expr3, kw_expr4, kw_nospace, kw_symb, kw_n, kw_neg_n,
    kw_name_colon_v, kw_true_v, kw_false_v, kw_left_v, kw_right_v, kw_full_v,
    kw_non_v, kw_none_v, kw_expr_v, kw_nospace_v, kw_symb_v, kw_n_v, kw_neg_n_v,
    field_to_enum, lemma_pats_of_len,
};
use crate::errors::{ParseError, ParseErrorKind, ErrV, FileError, FileErrV};

verus! {

broadcast use
    crate::scan::lemma_skip_spaces_bounds,
    crate::scan::lemma_alpha_end_bounds,
    crate::scan::lemma_digit_end_bounds,
    crate::scan::lemma_line_end_bounds,
    crate::scan::lemma_find_quote_bounds,
    crate::scan::lemma_skip_trivia_bounds,
    crate::scan::lemma_skip_comment_bounds;

// --- End of line -------------------------------------------------------

/// Position after an end-of-line marker at `pos`: optional spaces, an
/// optional `#` comment, then a line break or nothing but trivia up to the
/// end of input. `None` when real text follows instead.
pub open spec fn spec_end_of_line(s: Seq<u8>, pos: int) -> Option<int> {
    let p1 = spec_skip_spaces(s, pos);
    let p2 = if 0 <= p1 < s.len() && s[p1] == 35 {
        spec_line_end(s, p1 + 1)
    } else {
        p1
    };
    if 0 <= p2 < s.len() && s[p2] == 10 {
        Some(p2 + 1)
    } else if 0 <= p2 < s.len() && p2 + 1 < s.len() && s[p2] == 13 && s[p2 + 1] == 10 {
        Some(p2 + 2)
    } else if spec_skip_trivia(s, p2) == s.len() {
        Some(s.len() as int)
    } else {
        None
    }
}

/// Recognizes an end-of-line marker: spaces, an optional comment, then a
/// line break or the (trivia-padded) end of input.
pub fn end_of_line(s: &Vec<u8>, pos: usize) -> (r: Option<usize>)
    requires
        pos <= s@.len(),
    ensures
        match r {
            Some(p) => spec_end_of_line(s@, pos as int) == Some(p as int) && p <= s@.len(),
            None => spec_end_of_line(s@, pos as int) is None,
        },
{
    let p1 = skip_spaces(s, pos);
    let p2 = if p1 < s.len() && s[p1] == 35 {
        line_end(s, p1 + 1)
    } else {
        p1
    };
    if p2 < s.len() && s[p2] == 10 {
        Some(p2 + 1)
    } else if p2 < s.len() && p2 + 1 < s.len() && s[p2] == 13 && s[p2 + 1] == 10 {
        Some(p2 + 2)
    } else {
        let t = skip_trivia(s, p2);
        if t == s.len() {
            Some(t)
        } else {
            None
        }
    }
}

// --- Field names and scalar field values -------------------------------

/// Result of the leading `name:` field of an entry: the position after the
/// operator's name, and the name itself (letters only). Leading trivia is
/// skipped; the keyword is matched without regard to case.
pub open spec fn spec_parse_op_name(s: Seq<u8>, pos: int) -> Option<(int, Seq<u8>)> {
    let p0 = spec_skip_trivia(s, pos);
    if tag_nocase_at(s, p0, kw_name_colon()) {
        let p1 = spec_skip_spaces(s, p0 + 5);
        let ae = spec_alpha_end(s, p1);
        if ae > p1 {
            Some((ae, s.subrange(p1, ae)))
        } else {
            None
        }
    } else {
        None
    }
}

/// Parses the `name: value` field that opens an entry.
pub fn parse_op_name(s: &Vec<u8>, pos: usize) -> (r: Option<(usize, Vec<u8>)>)
    requires
        pos <= s@.len(),
    ensures
        match r {
            Some((p, w)) => spec_parse_op_name(s@, pos as int) == Some((p as int, w@))
                && p <= s@.len(),
            None => spec_parse_op_name(s@, pos as int) is None,
        },
{
    let p0 = skip_trivia(s, pos);
    if match_tag_nocase(s, p0, &kw_name_colon_v()) {
        let p1 = skip_spaces(s, p0 + 5);
        let ae = alpha_end(s, p1);
        if ae > p1 {
            let w = subvec(s, p1, ae);
            Some((ae, w))
        } else {
            None
        }
    } else {
        None
    }
}

/// Result of a field name at `pos`: the position after the colon and the
/// field's identity, which is the explicit error sentinel for a word
/// outside the closed set. `None` when no `word:` shape is present.
pub open spec fn spec_parse_field_name(s: Seq<u8>, pos: int) -> Option<(int, FieldType)> {
    let p0 = spec_skip_trivia(s, pos);
    let ae = spec_alpha_end(s, p0);
    if ae > p0 && tag_at(s, ae, seq![':' as u8]) {
        Some((ae + 1, field_kind_of(s.subrange(p0, ae))))
    } else {
        None
    }
}

/// Parses a `field-name:` introducer, skipping leading trivia.
pub fn parse_field_name(s: &Vec<u8>, pos: usize) -> (r: Option<(usize, FieldType)>)
    requires
        pos <= s@.len(),
    ensures
        match r {
            Some((p, f)) => spec_parse_field_name(s@, pos as int) == Some((p as int, f))
                && p <= s@.len(),
            None => spec_parse_field_name(s@, pos as int) is None,
        },
{
    let p0 = skip_trivia(s, pos);
    let ae = alpha_end(s, p0);
    if ae > p0 && ae < s.len() && s[ae] == 58 {
        proof {
            assert(seq![':' as u8].len() == 1);
            assert(seq![':' as u8][0] == 58);
            assert(tag_at(s@, ae as int, seq![':' as u8]));
        }
        let w = subvec(s, p0, ae);
        let f = field_to_enum(&w);
        Some((ae + 1, f))
    } else {
        proof {
            assert(seq![':' as u8].len() == 1);
            assert(seq![':' as u8][0] == 58);
        }
        None
    }
}

/// Result of a bare-word field value: the position after the end of the
/// line and the word itself.
pub open spec fn spec_parse_field_value(s: Seq<u8>, pos: int) -> Option<(int, Seq<u8>)> {
    let p1 = spec_skip_spaces(s, pos);
    let ae = spec_alpha_end(s, p1);
    if ae > p1 {
        match spec_end_of_line(s, ae) {
            Some(p2) => Some((p2, s.subrange(p1, ae))),
            None => None,
        }
    } else {
        None
    }
}

/// Parses a bare-word field value followed by an end of line.
pub fn parse_field_value(s: &Vec<u8>, pos: usize) -> (r: Option<(usize, Vec<u8>)>)
    requires
        pos <= s@.len(),
    ensures
        match r {
            Some((p, w)) => spec_parse_field_value(s@, pos as int) == Some((p as int, w@))
                && p <= s@.len(),
            None => spec_parse_field_value(s@, pos as int) is None,
        },
{
    let p1 = skip_spaces(s, pos);
    let ae = alpha_end(s, p1);
    if ae > p1 {
        match end_of_line(s, ae) {
            Some(p2) => {
                let w = subvec(s, p1, ae);
                Some((p2, w))
            },
            None => None,
        }
    } else {
        None
    }
}

/// Result of a boolean field value: `true` or `false`, matched without
/// regard to case, followed by an end of line.
pub open spec fn spec_parse_bool(s: Seq<u8>, pos: int) -> Option<(int, bool)> {
    let p1 = spec_skip_spaces(s, pos);
    if tag_nocase_at(s, p1, kw_true()) {
        match spec_end_of_line(s, p1 + 4) {
            Some(p2) => Some((p2, true)),
            None => None,
        }
    } else if tag_nocase_at(s, p1, kw_false()) {
        match spec_end_of_line(s, p1 + 5) {
            Some(p2) => Some((p2, false)),
            None => None,
        }
    } else {
        None
    }
}

/// Parses a `meaningful` field value.
pub fn parse_bool_option(s: &Vec<u8>, pos: usize) -> (r: Option<(usize, bool)>)
    requires
        pos <= s@.len(),
    ensures
        match r {
            Some((p, b)) => spec_parse_bool(s@, pos as int) == Some((p as int, b))
                && p <= s@.len(),
            None => spec_parse_bool(s@, pos as int) is None,
        },
{
    let p1 = skip_spaces(s, pos);
    if match_tag_nocase(s, p1, &kw_true_v()) {
        match end_of_line(s, p1 + 4) {
            Some(p2) => Some((p2, true)),
            None => None,
        }
    } else if match_tag_nocase(s, p1, &kw_false_v()) {
        match end_of_line(s, p1 + 5) {
            Some(p2) => Some((p2, false)),
            None => None,
        }
    } else {
        None
    }
}

/// Result of an associativity field value. The keywords are `left`,
/// `right`, `full`, and `non` with its spelled-out alias `none`; the
/// committed first match must be followed by an end of line.
pub open spec fn spec_parse_assoc(s: Seq<u8>, pos: int) -> Option<(int, Associativity)> {
    let p1 = spec_skip_spaces(s, pos);
    if tag_nocase_at(s, p1, kw_left()) {
        match spec_end_of_line(s, p1 + 4) {
            Some(p2) => Some((p2, Associativity::Left)),
            None => None,
        }
    } else if tag_nocase_at(s, p1, kw_right()) {
        match spec_end_of_line(s, p1 + 5) {
            Some(p2) => Some((p2, Associativity::Right)),
            None => None,
        }
    } else if tag_nocase_at(s, p1, kw_full()) {
        match spec_end_of_line(s, p1 + 4) {
            Some(p2) => Some((p2, Associativity::Full)),
            None => None,
        }
    } else if tag_nocase_at(s, p1, kw_none()) {
        match spec_end_of_line(s, p1 + 4) {
            Some(p2) => Some((p2, Associativity::Non)),
            None => None,
        }
    } else if tag_nocase_at(s, p1, kw_non()) {
        match spec_end_of_line(s, p1 + 3) {
            Some(p2) => Some((p2, Associativity::Non)),
            None => None,
        }
    } else {
        None
    }
}

/// Parses an `associativity` field value.
pub fn parse_associativity(s: &Vec<u8>, pos: usize) -> (r: Option<(usize, Associativity)>)
    requires
        pos <= s@.len(),
    ensures
        match r {
            Some((p, a)) => spec_parse_assoc(s@, pos as int) == Some((p as int, a))
                && p <= s@.len(),
            None => spec_parse_assoc(s@, pos as int) is None,
        },
{
    let p1 = skip_spaces(s, pos);
    if match_tag_nocase(s, p1, &kw_left_v()) {
        match end_of_line(s, p1 + 4) {
            Some(p2) => Some((p2, Associativity::Left)),
            None => None,
        }
    } else if match_tag_nocase(s, p1, &kw_right_v()) {
        match end_of_line(s, p1 + 5) {
            Some(p2) => Some((p2, Associativity::Right)),
            None => None,
        }
    } else if match_tag_nocase(s, p1, &kw_full_v()) {
        match end_of_line(s, p1 + 4) {
            Some(p2) => Some((p2, Associativity::Full)),
            None => None,
        }
    } else if match_tag_nocase(s, p1, &kw_none_v()) {
        match end_of_line(s, p1 + 4) {
            Some(p2) => Some((p2, Associativity::Non)),
            None => None,
        }
    } else if match_tag_nocase(s, p1, &kw_non_v()) {
        match end_of_line(s, p1 + 3) {
            Some(p2) => Some((p2, Associativity::Non)),
            None => None,
        }
    } else {
        None
    }
}

// --- Numeric literals --------------------------------------------------

/// The value of the decimal digits of `s` in `[lo, hi)`.
pub open spec fn spec_digits_value(s: Seq<u8>, lo: int, hi: int) -> int
    decreases hi - lo,
{
    if lo >= hi || lo < 0 || hi > s.len() {
        0
    } else {
        spec_digits_value(s, lo, hi - 1) * 10 + (s[hi - 1] - 48)
    }
}

/// Clamping into the unsigned 32-bit range.
pub open spec fn clamp_u32(v: int) -> int {
    if v < 0 {
        0
    } else if v > 0xffff_ffff {
        0xffff_ffff
    } else {
        v
    }
}

/// Clamping into the signed 32-bit range.
pub open spec fn clamp_i32(v: int) -> int {
    if v < -0x8000_0000 {
        -0x8000_0000
    } else if v > 0x7fff_ffff {
        0x7fff_ffff
    } else {
        v
    }
}

/// Result of a bare numeric literal at `pos`: an optional sign, at least
/// one integer digit, and an optional fraction, which truncation toward
/// zero discards. The value is the exact signed integer part.
pub open spec fn spec_number_lit(s: Seq<u8>, pos: int) -> Option<(int, int)> {
    let neg = tag_at(s, pos, seq!['-' as u8]);
    let p1 = if neg || tag_at(s, pos, seq!['+' as u8]) {
        pos + 1
    } else {
        pos
    };
    let de = spec_digit_end(s, p1);
    if de > p1 {
        let mag = spec_digits_value(s, p1, de);
        let p2 = if tag_at(s, de, seq!['.' as u8]) {
            spec_digit_end(s, de + 1)
        } else {
            de
        };
        Some((p2, if neg { -mag } else { mag }))
    } else {
        None
    }
}

proof fn lemma_digits_value_nonneg(s: Seq<u8>, lo: int, hi: int)
    requires
        forall|i: int| lo <= i < hi ==> 48 <= s[i],
    ensures
        spec_digits_value(s, lo, hi) >= 0,
    decreases hi - lo,
{
    if !(lo >= hi || lo < 0 || hi > s.len()) {
        lemma_digits_value_nonneg(s, lo, hi - 1);
        assert(spec_digits_value(s, lo, hi - 1) * 10 >= 0) by (nonlinear_arith)
            requires spec_digits_value(s, lo, hi - 1) >= 0;
    }
}

/// Computes the digits' value, capped just above the unsigned 32-bit
/// range: the result is exact when the value fits, and the cap otherwise.
fn digits_value_capped(s: &Vec<u8>, lo: usize, hi: usize) -> (r: u64)
    requires
        lo <= hi <= s@.len(),
        forall|i: int| lo <= i < hi ==> is_digit(s@[i]),
    ensures
        spec_digits_value(s@, lo as int, hi as int) <= 0xffff_ffff ==>
            r == spec_digits_value(s@, lo as int, hi as int),
        spec_digits_value(s@, lo as int, hi as int) > 0xffff_ffff ==> r == 0x1_0000_0000u64,
{
    let mut acc: u64 = 0;
    let mut i: usize = lo;
    proof {
        lemma_digits_value_nonneg(s@, lo as int, lo as int);
    }
    while i < hi
        invariant
            lo <= i <= hi <= s@.len(),
            forall|k: int| lo <= k < hi ==> is_digit(s@[k]),
            spec_digits_value(s@, lo as int, i as int) <= 0xffff_ffff ==>
                acc == spec_digits_value(s@, lo as int, i as int),
            spec_digits_value(s@, lo as int, i as int) > 0xffff_ffff ==> acc == 0x1_0000_0000u64,
            acc <= 0x1_0000_0000u64,
        decreases hi - i,
    {
        let ghost v = spec_digits_value(s@, lo as int, i as int);
        let ghost v2 = spec_digits_value(s@, lo as int, (i + 1) as int);
        proof {
            lemma_digits_value_nonneg(s@, lo as int, i as int);
            assert(v2 == v * 10 + (s@[i as int] - 48));
            if v > 0xffff_ffff {
                assert(v * 10 >= v + v) by (nonlinear_arith)
                    requires v >= 0;
            }
        }
        let d = s[i];
        if acc > 0xffff_ffff {
            acc = 0x1_0000_0000;
        } else {
            let next = acc * 10 + ((d - 48) as u64);
            if next > 0xffff_ffff {
                acc = 0x1_0000_0000;
            } else {
                acc = next;
            }
        }
        i = i + 1;
    }
    acc
}

/// Parses a bare numeric literal, yielding its value clamped into the
/// signed 32-bit range.
fn number_lit_i32(s: &Vec<u8>, pos: usize) -> (r: Option<(usize, i32)>)
    requires
        pos <= s@.len(),
    ensures
        match r {
            Some((p, n)) => {
                &&& spec_number_lit(s@, pos as int) matches Some((sp, sv))
                    && sp == p as int && n as int == clamp_i32(sv)
                &&& p <= s@.len()
            },
            None => spec_number_lit(s@, pos as int) is None,
        },
{
    proof {
        assert(seq!['-' as u8].len() == 1 && seq!['-' as u8][0] == 45);
        assert(seq!['+' as u8].len() == 1 && seq!['+' as u8][0] == 43);
        assert(seq!['.' as u8].len() == 1 && seq!['.' as u8][0] == 46);
    }
    let neg = pos < s.len() && s[pos] == 45;
    let plus = pos < s.len() && s[pos] == 43;
    let p1 = if neg || plus {
        pos + 1
    } else {
        pos
    };
    let de = digit_end(s, p1);
    if de > p1 {
        proof {
            crate::scan::lemma_digit_end_range(s@, p1 as int);
        }
        let mag = digits_value_capped(s, p1, de);
        let p2 = if de < s.len() && s[de] == 46 {
            digit_end(s, de + 1)
        } else {
            de
        };
        proof {
            lemma_digits_value_nonneg(s@, p1 as int, de as int);
        }
        let n: i32 = if neg {
            if mag >= 0x8000_0000 {
                -0x8000_0000
            } else {
                -(mag as i32)
            }
        } else {
            if mag > 0x7fff_ffff {
                0x7fff_ffff
            } else {
                mag as i32
            }
        };
        Some((p2, n))
    } else {
        None
    }
}

/// Result of a `precedence` field value: a numeric literal truncated and
/// clamped into the unsigned 32-bit range, then an end of line.
pub open spec fn spec_parse_number(s: Seq<u8>, pos: int) -> Option<(int, int)> {
    let p1 = spec_skip_spaces(s, pos);
    match spec_number_lit(s, p1) {
        Some((p2, v)) => match spec_end_of_line(s, p2) {
            Some(p3) => Some((p3, clamp_u32(v))),
            None => None,
        },
        None => None,
    }
}

/// Parses a `precedence` field value.
pub fn parse_number(s: &Vec<u8>, pos: usize) -> (r: Option<(usize, u32)>)
    requires
        pos <= s@.len(),
    ensures
        match r {
            Some((p, n)) => spec_parse_number(s@, pos as int) == Some((p as int, n as int))
                && p <= s@.len(),
            None => spec_parse_number(s@, pos as int) is None,
        },
{
    proof {
        assert(seq!['-' as u8].len() == 1 && seq!['-' as u8][0] == 45);
    }
    let p1 = skip_spaces(s, pos);
    let neg = p1 < s.len() && s[p1] == 45;
    match number_lit_i32_raw(s, p1) {
        Some((p2, mag)) => {
            match end_of_line(s, p2) {
                Some(p3) => {
                    let n: u32 = if neg {
                        0
                    } else if mag > 0xffff_ffff {
                        0xffff_ffff
                    } else {
                        mag as u32
                    };
                    Some((p3, n))
                },
                None => None,
            }
        },
        None => None,
    }
}

/// Parses a bare numeric literal, yielding its uncapped-within-u32
/// magnitude (the cap value marks anything larger).
fn number_lit_i32_raw(s: &Vec<u8>, pos: usize) -> (r: Option<(usize, u64)>)
    requires
        pos <= s@.len(),
    ensures
        match r {
            Some((p, mag)) => {
                &&& p <= s@.len()
                &&& spec_number_lit(s@, pos as int) matches Some((sp, sv)) && sp == p as int
                    && (tag_at(s@, pos as int, seq!['-' as u8]) ==> sv <= 0)
                    && (!tag_at(s@, pos as int, seq!['-' as u8]) ==> sv >= 0)
                    && ({
                    let a = if sv < 0 {
                        -sv
                    } else {
                        sv
                    };
                    (a <= 0xffff_ffff ==> mag == a) && (a > 0xffff_ffff ==> mag
                        == 0x1_0000_0000u64)
                })
            },
            None => spec_number_lit(s@, pos as int) is None,
        },
{
    proof {
        assert(seq!['-' as u8].len() == 1 && seq!['-' as u8][0] == 45);
        assert(seq!['+' as u8].len() == 1 && seq!['+' as u8][0] == 43);
        assert(seq!['.' as u8].len() == 1 && seq!['.' as u8][0] == 46);
    }
    let neg = pos < s.len() && s[pos] == 45;
    let plus = pos < s.len() && s[pos] == 43;
    let p1 = if neg || plus {
        pos + 1
    } else {
        pos
    };
    let de = digit_end(s, p1);
    if de > p1 {
        proof {
            crate::scan::lemma_digit_end_range(s@, p1 as int);
        }
        let mag = digits_value_capped(s, p1, de);
        let p2 = if de < s.len() && s[de] == 46 {
            digit_end(s, de + 1)
        } else {
            de
        };
        proof {
            lemma_digits_value_nonneg(s@, p1 as int, de as int);
        }
        Some((p2, mag))
    } else {
        None
    }
}

// --- The pattern language ----------------------------------------------
//
// The token parser is a greedy ordered choice over twelve alternatives.
// It is recursive, so both the specification and the executable code
// thread an explicit step budget (`fuel`); every nested parse runs on a
// budget one smaller, which is what stops a sequence from re-entering
// itself without consuming input. The public entry grants four steps per
// remaining byte and some headroom, which no input can exhaust; a run out
// of budget would merely make the parse fail.

/// Result of a bare metavariable or word: the reserved keywords in their
/// priority order (matched without regard to case), a comma, then any
/// alphabetic word kept verbatim.
pub open spec fn spec_metavariable(s: Seq<u8>, pos: int) -> Option<(int, Pat)> {
    if tag_nocase_at(s, pos, kw_expr1()) {
        Some((pos + 5, Pat::Expr1))
    } else if tag_nocase_at(s, pos, kw_expr2()) {
        Some((pos + 5, Pat::Expr2))
    } else if tag_nocase_at(s, pos, kw_expr3()) {
        Some((pos + 5, Pat::Expr3))
    } else if tag_nocase_at(s, pos, kw_expr4()) {
        Some((pos + 5, Pat::Expr4))
    } else if tag_nocase_at(s, pos, kw_nospace()) {
        Some((pos + 7, Pat::NoSpace))
    } else if tag_nocase_at(s, pos, kw_n()) {
        Some((pos + 1, Pat::N))
    } else if tag_nocase_at(s, pos, kw_neg_n()) {
        Some((pos + 2, Pat::NegN))
    } else if tag_nocase_at(s, pos, kw_symb()) {
        Some((pos + 4, Pat::Symbol))
    } else if tag_at(s, pos, seq![',' as u8]) {
        Some((pos + 1, Pat::Comma))
    } else if spec_alpha_end(s, pos) > pos {
        Some((spec_alpha_end(s, pos), Pat::Word(s.subrange(pos, spec_alpha_end(s, pos)))))
    } else {
        None
    }
}

/// Result of a quoted literal: the bytes between a pair of double quotes,
/// kept verbatim; the content must not be empty.
pub open spec fn spec_string_literal(s: Seq<u8>, pos: int) -> Option<(int, Pat)> {
    if 0 <= pos < s.len() && s[pos] == 34 {
        let q = spec_find_quote(s, pos + 1);
        if pos + 1 < q < s.len() {
            Some((q + 1, Pat::Literal(s.subrange(pos + 1, q))))
        } else {
            None
        }
    } else {
        None
    }
}

/// Result of a bare numeric literal as a pattern node, its value clamped
/// into the signed 32-bit range.
pub open spec fn spec_number_tok(s: Seq<u8>, pos: int) -> Option<(int, Pat)> {
    match spec_number_lit(s, pos) {
        Some((p, v)) => Some((p, Pat::Number(clamp_i32(v)))),
        None => None,
    }
}

/// Result of one pattern token at `pos`. The alternatives are tried in
/// priority order; the first that matches wins. The sequence alternative
/// is admitted only where `seq_ok` holds, and its elements are parsed
/// with it disabled: that is the recursion guard.
pub open spec fn spec_parse_token(s: Seq<u8>, pos: int, seq_ok: bool, fuel: nat) -> Option<
    (int, Pat),
>
    decreases fuel,
{
    if fuel == 0 {
        None
    } else {
        let f = (fuel - 1) as nat;
        if spec_cons(s, pos, f) is Some {
            spec_cons(s, pos, f)
        } else if spec_metavariable(s, pos) is Some {
            spec_metavariable(s, pos)
        } else if spec_string_literal(s, pos) is Some {
            spec_string_literal(s, pos)
        } else if spec_optional(s, pos, f) is Some {
            spec_optional(s, pos, f)
        } else if spec_alternative(s, pos, f) is Some {
            spec_alternative(s, pos, f)
        } else if spec_number_tok(s, pos) is Some {
            spec_number_tok(s, pos)
        } else if spec_one_plus_delim(s, pos, f) is Some {
            spec_one_plus_delim(s, pos, f)
        } else if spec_zero_plus_delim(s, pos, f) is Some {
            spec_zero_plus_delim(s, pos, f)
        } else if spec_one_plus(s, pos, f) is Some {
            spec_one_plus(s, pos, f)
        } else if spec_zero_plus(s, pos, f) is Some {
            spec_zero_plus(s, pos, f)
        } else if spec_skip_tok(s, pos, f) is Some {
            spec_skip_tok(s, pos, f)
        } else if seq_ok {
            spec_sequence(s, pos, f)
        } else {
            None
        }
    }
}

/// Result of a function-application form: a metavariable or word head,
/// then a bracketed, comma-separated argument list.
pub open spec fn spec_cons(s: Seq<u8>, pos: int, fuel: nat) -> Option<(int, Pat)>
    decreases fuel,
{
    if fuel == 0 {
        None
    } else {
        match spec_metavariable(s, pos) {
            Some((p1, head)) => if tag_at(s, p1, seq!['[' as u8]) {
                match spec_cons_args(s, p1 + 1, (fuel - 1) as nat) {
                    Some((p2, args)) => if tag_at(s, p2, seq![']' as u8]) {
                        Some((p2 + 1, Pat::Cons(Box::new(head), args)))
                    } else {
                        None
                    },
                    None => None,
                }
            } else {
                None
            },
            None => None,
        }
    }
}

/// Result of a comma-separated argument list (possibly empty), up to but
/// not including the closing bracket.
pub open spec fn spec_cons_args(s: Seq<u8>, pos: int, fuel: nat) -> Option<(int, Seq<Pat>)>
    decreases fuel,
{
    if fuel == 0 {
        None
    } else {
        match spec_parse_token(s, pos, true, (fuel - 1) as nat) {
            None => Some((pos, Seq::<Pat>::empty())),
            Some((p1, t)) => spec_cons_rest(s, p1, seq![t], (fuel - 1) as nat),
        }
    }
}

/// The remaining `, argument` pairs of an argument list; a comma that is
/// not followed by an argument is left unconsumed.
pub open spec fn spec_cons_rest(s: Seq<u8>, pos: int, acc: Seq<Pat>, fuel: nat) -> Option<
    (int, Seq<Pat>),
>
    decreases fuel,
{
    if fuel == 0 {
        None
    } else if tag_at(s, pos, seq![',' as u8]) {
        let p1 = spec_skip_spaces(s, pos + 1);
        match spec_parse_token(s, p1, true, (fuel - 1) as nat) {
            None => Some((pos, acc)),
            Some((p2, t)) => spec_cons_rest(s, p2, acc.push(t), (fuel - 1) as nat),
        }
    } else {
        Some((pos, acc))
    }
}

/// Result of an optional form: `(` pattern `)?`.
pub open spec fn spec_optional(s: Seq<u8>, pos: int, fuel: nat) -> Option<(int, Pat)>
    decreases fuel,
{
    if fuel == 0 {
        None
    } else if tag_at(s, pos, seq!['(' as u8]) {
        match spec_parse_token(s, pos + 1, true, (fuel - 1) as nat) {
            Some((p1, inner)) => if tag_at(s, p1, seq![')' as u8, '?' as u8]) {
                Some((p1 + 2, Pat::Optional(Box::new(inner))))
            } else {
                None
            },
            None => None,
        }
    } else {
        None
    }
}

/// Result of an alternation: `(` pattern (`|` pattern)+ `)`, with at
/// least two alternatives required.
pub open spec fn spec_alternative(s: Seq<u8>, pos: int, fuel: nat) -> Option<(int, Pat)>
    decreases fuel,
{
    if fuel == 0 {
        None
    } else if tag_at(s, pos, seq!['(' as u8]) {
        match spec_parse_token(s, pos + 1, true, (fuel - 1) as nat) {
            Some((p1, t1)) => match spec_alt_rest(s, p1, seq![t1], (fuel - 1) as nat) {
                Some((p2, list)) => if list.len() >= 2 && tag_at(s, p2, seq![')' as u8]) {
                    Some((p2 + 1, Pat::Alternative(list)))
                } else {
                    None
                },
                None => None,
            },
            None => None,
        }
    } else {
        None
    }
}

/// The remaining `| alternative` pairs of an alternation; a bar that is
/// not followed by an alternative is left unconsumed.
pub open spec fn spec_alt_rest(s: Seq<u8>, pos: int, acc: Seq<Pat>, fuel: nat) -> Option<
    (int, Seq<Pat>),
>
    decreases fuel,
{
    if fuel == 0 {
        None
    } else if tag_at(s, pos, seq!['|' as u8]) {
        match spec_parse_token(s, pos + 1, true, (fuel - 1) as nat) {
            None => Some((pos, acc)),
            Some((p1, t)) => spec_alt_rest(s, p1, acc.push(t), (fuel - 1) as nat),
        }
    } else {
        Some((pos, acc))
    }
}

/// Result of a delimited one-or-more repetition: `(` element delimiter `)+`.
pub open spec fn spec_one_plus_delim(s: Seq<u8>, pos: int, fuel: nat) -> Option<(int, Pat)>
    decreases fuel,
{
    if fuel == 0 {
        None
    } else if tag_at(s, pos, seq!['(' as u8]) {
        match spec_parse_token(s, pos + 1, true, (fuel - 1) as nat) {
            Some((p1, t1)) => match spec_parse_token(s, p1, true, (fuel - 1) as nat) {
                Some((p2, t2)) => {
                    let p3 = spec_skip_spaces(s, p2);
                    if tag_at(s, p3, seq![')' as u8, '+' as u8]) {
                        Some((p3 + 2, Pat::OnePlusDelim(Box::new(t1), Box::new(t2))))
                    } else {
                        None
                    }
                },
                None => None,
            },
            None => None,
        }
    } else {
        None
    }
}

/// Result of a delimited zero-or-more repetition: `(` element delimiter `)*`.
pub open spec fn spec_zero_plus_delim(s: Seq<u8>, pos: int, fuel: nat) -> Option<(int, Pat)>
    decreases fuel,
{
    if fuel == 0 {
        None
    } else if tag_at(s, pos, seq!['(' as u8]) {
        match spec_parse_token(s, pos + 1, true, (fuel - 1) as nat) {
            Some((p1, t1)) => match spec_parse_token(s, p1, true, (fuel - 1) as nat) {
                Some((p2, t2)) => {
                    let p3 = spec_skip_spaces(s, p2);
                    if tag_at(s, p3, seq![')' as u8, '*' as u8]) {
                        Some((p3 + 2, Pat::ZeroPlusDelim(Box::new(t1), Box::new(t2))))
                    } else {
                        None
                    }
                },
                None => None,
            },
            None => None,
        }
    } else {
        None
    }
}

/// Result of an undelimited one-or-more repetition: `(` pattern `)+`.
pub open spec fn spec_one_plus(s: Seq<u8>, pos: int, fuel: nat) -> Option<(int, Pat)>
    decreases fuel,
{
    if fuel == 0 {
        None
    } else if tag_at(s, pos, seq!['(' as u8]) {
        match spec_parse_token(s, pos + 1, true, (fuel - 1) as nat) {
            Some((p1, inner)) => if tag_at(s, p1, seq![')' as u8, '+' as u8]) {
                Some((p1 + 2, Pat::OnePlus(Box::new(inner))))
            } else {
                None
            },
            None => None,
        }
    } else {
        None
    }
}

/// Result of an undelimited zero-or-more repetition: `(` pattern `)*`.
pub open spec fn spec_zero_plus(s: Seq<u8>, pos: int, fuel: nat) -> Option<(int, Pat)>
    decreases fuel,
{
    if fuel == 0 {
        None
    } else if tag_at(s, pos, seq!['(' as u8]) {
        match spec_parse_token(s, pos + 1, true, (fuel - 1) as nat) {
            Some((p1, inner)) => if tag_at(s, p1, seq![')' as u8, '*' as u8]) {
                Some((p1 + 2, Pat::ZeroPlus(Box::new(inner))))
            } else {
                None
            },
            None => None,
        }
    } else {
        None
    }
}

/// Result of a token behind leading whitespace; the whitespace itself is
/// consumed and discarded.
pub open spec fn spec_skip_tok(s: Seq<u8>, pos: int, fuel: nat) -> Option<(int, Pat)>
    decreases fuel,
{
    if fuel == 0 {
        None
    } else {
        let p1 = spec_skip_spaces(s, pos);
        if p1 > pos {
            spec_parse_token(s, p1, true, (fuel - 1) as nat)
        } else {
            None
        }
    }
}

/// Results of as many adjacent tokens as match, in order, with the final
/// position; the list may be empty.
pub open spec fn spec_tokens(s: Seq<u8>, pos: int, seq_ok: bool, fuel: nat) -> Option<
    (int, Seq<Pat>),
>
    decreases fuel,
{
    if fuel == 0 {
        None
    } else {
        match spec_parse_token(s, pos, seq_ok, (fuel - 1) as nat) {
            None => Some((pos, Seq::<Pat>::empty())),
            Some((p1, t)) => match spec_tokens(s, p1, seq_ok, (fuel - 1) as nat) {
                Some((p2, rest)) => Some((p2, seq![t] + rest)),
                None => None,
            },
        }
    }
}

/// Result of the sequence alternative: one or more adjacent tokens, parsed
/// with the sequence guard set; a single token stands bare, two or more
/// are wrapped in a sequence node.
pub open spec fn spec_sequence(s: Seq<u8>, pos: int, fuel: nat) -> Option<(int, Pat)>
    decreases fuel,
{
    if fuel == 0 {
        None
    } else {
        match spec_tokens(s, pos, false, (fuel - 1) as nat) {
            Some((p1, list)) => if list.len() == 0 {
                None
            } else if list.len() == 1 {
                Some((p1, list[0]))
            } else {
                Some((p1, Pat::Sequence(list)))
            },
            None => None,
        }
    }
}

/// The step budget the library grants a pattern parse: four steps for
/// every remaining byte, with headroom. No input can exhaust it, since
/// every recursive step either consumes input or is one of a bounded
/// number of bookkeeping steps per consumed byte.
pub open spec fn syntax_fuel(s: Seq<u8>, pos: int) -> nat {
    if 0 <= pos <= s.len() {
        (4 * (s.len() - pos) + 16) as nat
    } else {
        16nat
    }
}

/// Result of one pattern field value: one or more adjacent tokens followed
/// by an end of line; a single token stands bare, two or more become a
/// sequence node in order.
pub open spec fn spec_parse_syntax(s: Seq<u8>, pos: int, fuel: nat) -> Option<(int, Pat)>
    decreases fuel,
{
    if fuel == 0 {
        None
    } else {
        match spec_tokens(s, pos, true, (fuel - 1) as nat) {
            Some((p1, list)) => if list.len() == 0 {
                None
            } else {
                match spec_end_of_line(s, p1) {
                    Some(p2) => Some(
                        (
                            p2,
                            if list.len() == 1 {
                                list[0]
                            } else {
                                Pat::Sequence(list)
                            },
                        ),
                    ),
                    None => None,
                }
            },
            None => None,
        }
    }
}

/// `spec_parse_syntax` at the budget the library grants.
pub open spec fn spec_parse_syntax_at(s: Seq<u8>, pos: int) -> Option<(int, Pat)> {
    spec_parse_syntax(s, pos, syntax_fuel(s, pos))
}

/// Inputs are bounded so the step budget's arithmetic cannot overflow;
/// far beyond any real file.
pub const MAX_INPUT_LEN: u64 = 0x1000_0000_0000_0000;

/// Whether the single byte `b` stands at `p`.
fn byte_at(s: &Vec<u8>, p: usize, b: u8) -> (r: bool)
    ensures
        r == tag_at(s@, p as int, seq![b]),
        s@.len() <= usize::MAX,
{
    proof {
        assert(seq![b].len() == 1);
        assert(seq![b][0] == b);
    }
    p < s.len() && s[p] == b
}

/// Whether the bytes `b0 b1` stand at `p`.
fn bytes2_at(s: &Vec<u8>, p: usize, b0: u8, b1: u8) -> (r: bool)
    ensures
        r == tag_at(s@, p as int, seq![b0, b1]),
        s@.len() <= usize::MAX,
{
    proof {
        assert(seq![b0, b1].len() == 2);
        assert(seq![b0, b1][0] == b0);
        assert(seq![b0, b1][1] == b1);
    }
    p < s.len() && p + 1 < s.len() && s[p] == b0 && s[p + 1] == b1
}

/// Parses a bare metavariable or word.
fn metavariable(s: &Vec<u8>, pos: usize) -> (r: Option<(usize, Syntax)>)
    requires
        pos <= s@.len(),
    ensures
        match r {
            Some((p, t)) => spec_metavariable(s@, pos as int) == Some((p as int, t@))
                && p <= s@.len(),
            None => spec_metavariable(s@, pos as int) is None,
        },
{
    if match_tag_nocase(s, pos, &kw_expr_v('1' as u8)) {
        Some((pos + 5, Syntax::Expr1))
    } else if match_tag_nocase(s, pos, &kw_expr_v('2' as u8)) {
        Some((pos + 5, Syntax::Expr2))
    } else if match_tag_nocase(s, pos, &kw_expr_v('3' as u8)) {
        Some((pos + 5, Syntax::Expr3))
    } else if match_tag_nocase(s, pos, &kw_expr_v('4' as u8)) {
        Some((pos + 5, Syntax::Expr4))
    } else if match_tag_nocase(s, pos, &kw_nospace_v()) {
        Some((pos + 7, Syntax::NoSpace))
    } else if match_tag_nocase(s, pos, &kw_n_v()) {
        Some((pos + 1, Syntax::N))
    } else if match_tag_nocase(s, pos, &kw_neg_n_v()) {
        Some((pos + 2, Syntax::NegN))
    } else if match_tag_nocase(s, pos, &kw_symb_v()) {
        Some((pos + 4, Syntax::Symbol))
    } else if byte_at(s, pos, ',' as u8) {
        Some((pos + 1, Syntax::Comma))
    } else {
        let ae = alpha_end(s, pos);
        if ae > pos {
            Some((ae, Syntax::Word(subvec(s, pos, ae))))
        } else {
            None
        }
    }
}

/// Parses a quoted literal.
fn quoted_literal(s: &Vec<u8>, pos: usize) -> (r: Option<(usize, Syntax)>)
    requires
        pos <= s@.len(),
    ensures
        match r {
            Some((p, t)) => spec_string_literal(s@, pos as int) == Some((p as int, t@))
                && p <= s@.len(),
            None => spec_string_literal(s@, pos as int) is None,
        },
{
    if pos < s.len() && s[pos] == 34 {
        let q = find_quote(s, pos + 1);
        if pos + 1 < q && q < s.len() {
            Some((q + 1, Syntax::Literal(subvec(s, pos + 1, q))))
        } else {
            None
        }
    } else {
        None
    }
}

/// Parses a bare numeric literal as a pattern node.
fn number_token(s: &Vec<u8>, pos: usize) -> (r: Option<(usize, Syntax)>)
    requires
        pos <= s@.len(),
    ensures
        match r {
            Some((p, t)) => spec_number_tok(s@, pos as int) == Some((p as int, t@))
                && p <= s@.len(),
            None => spec_number_tok(s@, pos as int) is None,
        },
{
    match number_lit_i32(s, pos) {
        Some((p, n)) => Some((p, Syntax::Number(n))),
        None => None,
    }
}

/// Parses one pattern token; the twelve alternatives in priority order.
fn parse_syntax_token(s: &Vec<u8>, pos: usize, seq_ok: bool, fuel: u64) -> (r: Option<
    (usize, Syntax),
>)
    requires
        pos <= s@.len(),
    ensures
        match r {
            Some((p, t)) => spec_parse_token(s@, pos as int, seq_ok, fuel as nat) == Some(
                (p as int, t@),
            ) && p <= s@.len(),
            None => spec_parse_token(s@, pos as int, seq_ok, fuel as nat) is None,
        },
    decreases fuel,
{
    if fuel == 0 {
        return None;
    }
    let f = fuel - 1;
    let r1 = try_cons(s, pos, f);
    if r1.is_some() {
        return r1;
    }
    let r2 = metavariable(s, pos);
    if r2.is_some() {
        return r2;
    }
    let r3 = quoted_literal(s, pos);
    if r3.is_some() {
        return r3;
    }
    let r4 = try_optional(s, pos, f);
    if r4.is_some() {
        return r4;
    }
    let r5 = try_alternative(s, pos, f);
    if r5.is_some() {
        return r5;
    }
    let r6 = number_token(s, pos);
    if r6.is_some() {
        return r6;
    }
    let r7 = try_one_plus_delim(s, pos, f);
    if r7.is_some() {
        return r7;
    }
    let r8 = try_zero_plus_delim(s, pos, f);
    if r8.is_some() {
        return r8;
    }
    let r9 = try_one_plus(s, pos, f);
    if r9.is_some() {
        return r9;
    }
    let r10 = try_zero_plus(s, pos, f);
    if r10.is_some() {
        return r10;
    }
    let r11 = try_skip(s, pos, f);
    if r11.is_some() {
        return r11;
    }
    if seq_ok {
        try_sequence(s, pos, f)
    } else {
        None
    }
}

/// Parses a function-application form.
fn try_cons(s: &Vec<u8>, pos: usize, fuel: u64) -> (r: Option<(usize, Syntax)>)
    requires
        pos <= s@.len(),
    ensures
        match r {
            Some((p, t)) => spec_cons(s@, pos as int, fuel as nat) == Some((p as int, t@))
                && p <= s@.len(),
            None => spec_cons(s@, pos as int, fuel as nat) is None,
        },
    decreases fuel,
{
    if fuel == 0 {
        return None;
    }
    match metavariable(s, pos) {
        Some((p1, h)) => {
            if byte_at(s, p1, '[' as u8) {
                match cons_args(s, p1 + 1, fuel - 1) {
                    Some((p2, args)) => {
                        if byte_at(s, p2, ']' as u8) {
                            Some((p2 + 1, Syntax::Cons(Box::new(h), args)))
                        } else {
                            None
                        }
                    },
                    None => None,
                }
            } else {
                None
            }
        },
        None => None,
    }
}

/// Parses a bracketed argument list, without the closing bracket.
fn cons_args(s: &Vec<u8>, pos: usize, fuel: u64) -> (r: Option<(usize, Vec<Syntax>)>)
    requires
        pos <= s@.len(),
    ensures
        match r {
            Some((p, v)) => spec_cons_args(s@, pos as int, fuel as nat) == Some(
                (p as int, pats_of(v, v.len() as int)),
            ) && p <= s@.len(),
            None => spec_cons_args(s@, pos as int, fuel as nat) is None,
        },
    decreases fuel,
{
    if fuel == 0 {
        return None;
    }
    match parse_syntax_token(s, pos, true, fuel - 1) {
        None => {
            let v: Vec<Syntax> = Vec::new();
            proof {
                assert(pats_of(v, 0) =~= Seq::<Pat>::empty());
            }
            Some((pos, v))
        },
        Some((p1, t)) => {
            let mut acc: Vec<Syntax> = Vec::new();
            acc.push(t);
            proof {
                assert(pats_of(acc, 0) =~= Seq::<Pat>::empty());
                assert(pats_of(acc, 1) =~= seq![pat_of(t)]);
            }
            let mut p = p1;
            let mut fl = fuel - 1;
            loop
                invariant
                    p <= s@.len(),
                    fl < fuel,
                    spec_cons_args(s@, pos as int, fuel as nat) == spec_cons_rest(
                        s@,
                        p as int,
                        pats_of(acc, acc.len() as int),
                        fl as nat,
                    ),
                decreases fl,
            {
                if fl == 0 {
                    return None;
                }
                if byte_at(s, p, ',' as u8) {
                    let p1s = skip_spaces(s, p + 1);
                    match parse_syntax_token(s, p1s, true, fl - 1) {
                        None => {
                            return Some((p, acc));
                        },
                        Some((p2, t2)) => {
                            let ghost old_acc = acc;
                            acc.push(t2);
                            proof {
                                crate::syntax::lemma_pats_push(old_acc, acc, t2);
                            }
                            p = p2;
                            fl = fl - 1;
                        },
                    }
                } else {
                    return Some((p, acc));
                }
            }
        },
    }
}

/// Parses an optional form.
fn try_optional(s: &Vec<u8>, pos: usize, fuel: u64) -> (r: Option<(usize, Syntax)>)
    requires
        pos <= s@.len(),
    ensures
        match r {
            Some((p, t)) => spec_optional(s@, pos as int, fuel as nat) == Some((p as int, t@))
                && p <= s@.len(),
            None => spec_optional(s@, pos as int, fuel as nat) is None,
        },
    decreases fuel,
{
    if fuel == 0 {
        return None;
    }
    if byte_at(s, pos, '(' as u8) {
        match parse_syntax_token(s, pos + 1, true, fuel - 1) {
            Some((p1, inner)) => {
                if bytes2_at(s, p1, ')' as u8, '?' as u8) {
                    Some((p1 + 2, Syntax::Optional(Box::new(inner))))
                } else {
                    None
                }
            },
            None => None,
        }
    } else {
        None
    }
}

/// Parses an alternation of at least two alternatives.
#[verifier::loop_isolation(false)]
fn try_alternative(s: &Vec<u8>, pos: usize, fuel: u64) -> (r: Option<(usize, Syntax)>)
    requires
        pos <= s@.len(),
    ensures
        match r {
            Some((p, t)) => spec_alternative(s@, pos as int, fuel as nat) == Some(
                (p as int, t@),
            ) && p <= s@.len(),
            None => spec_alternative(s@, pos as int, fuel as nat) is None,
        },
    decreases fuel,
{
    if fuel == 0 {
        return None;
    }
    if byte_at(s, pos, '(' as u8) {
        match parse_syntax_token(s, pos + 1, true, fuel - 1) {
            Some((p1, t1)) => {
                let mut acc: Vec<Syntax> = Vec::new();
                acc.push(t1);
                proof {
                    assert(pats_of(acc, 0) =~= Seq::<Pat>::empty());
                    assert(pats_of(acc, 1) =~= seq![pat_of(t1)]);
                }
                let ghost list0 = pats_of(acc, 1);
                let mut p = p1;
                let mut fl = fuel - 1;
                loop
                    invariant
                        p <= s@.len(),
                        fl < fuel,
                        spec_alt_rest(s@, p1 as int, list0, (fuel - 1) as nat) == spec_alt_rest(
                            s@,
                            p as int,
                            pats_of(acc, acc.len() as int),
                            fl as nat,
                        ),
                    decreases fl,
                {
                    if fl == 0 {
                        proof {
                            assert(spec_alt_rest(s@, p1 as int, list0, (fuel - 1) as nat)
                                is None);
                            assert(spec_alternative(s@, pos as int, fuel as nat) is None);
                        }
                        return None;
                    }
                    if byte_at(s, p, '|' as u8) {
                        match parse_syntax_token(s, p + 1, true, fl - 1) {
                            None => {
                                proof {
                                    lemma_pats_of_len(acc, acc.len() as int);
                                    assert(spec_alt_rest(
                                        s@,
                                        p as int,
                                        pats_of(acc, acc.len() as int),
                                        fl as nat,
                                    ) == Some((p as int, pats_of(acc, acc.len() as int))));
                                }
                                if acc.len() >= 2 && byte_at(s, p, ')' as u8) {
                                    return Some((p + 1, Syntax::Alternative(acc)));
                                } else {
                                    return None;
                                }
                            },
                            Some((p2, t)) => {
                                let ghost old_acc = acc;
                                acc.push(t);
                                proof {
                                    crate::syntax::lemma_pats_push(old_acc, acc, t);
                                }
                                p = p2;
                                fl = fl - 1;
                            },
                        }
                    } else {
                        proof {
                            lemma_pats_of_len(acc, acc.len() as int);
                            assert(spec_alt_rest(
                                s@,
                                p as int,
                                pats_of(acc, acc.len() as int),
                                fl as nat,
                            ) == Some((p as int, pats_of(acc, acc.len() as int))));
                        }
                        if acc.len() >= 2 && byte_at(s, p, ')' as u8) {
                            return Some((p + 1, Syntax::Alternative(acc)));
                        } else {
                            return None;
                        }
                    }
                }
            },
            None => None,
        }
    } else {
        None
    }
}

/// Parses a delimited one-or-more repetition.
fn try_one_plus_delim(s: &Vec<u8>, pos: usize, fuel: u64) -> (r: Option<(usize, Syntax)>)
    requires
        pos <= s@.len(),
    ensures
        match r {
            Some((p, t)) => spec_one_plus_delim(s@, pos as int, fuel as nat) == Some(
                (p as int, t@),
            ) && p <= s@.len(),
            None => spec_one_plus_delim(s@, pos as int, fuel as nat) is None,
        },
    decreases fuel,
{
    if fuel == 0 {
        return None;
    }
    if byte_at(s, pos, '(' as u8) {
        match parse_syntax_token(s, pos + 1, true, fuel - 1) {
            Some((p1, t1)) => match parse_syntax_token(s, p1, true, fuel - 1) {
                Some((p2, t2)) => {
                    let p3 = skip_spaces(s, p2);
                    if bytes2_at(s, p3, ')' as u8, '+' as u8) {
                        Some((p3 + 2, Syntax::OnePlusDelim(Box::new(t1), Box::new(t2))))
                    } else {
                        None
                    }
                },
                None => None,
            },
            None => None,
        }
    } else {
        None
    }
}

/// Parses a delimited zero-or-more repetition.
fn try_zero_plus_delim(s: &Vec<u8>, pos: usize, fuel: u64) -> (r: Option<(usize, Syntax)>)
    requires
        pos <= s@.len(),
    ensures
        match r {
            Some((p, t)) => spec_zero_plus_delim(s@, pos as int, fuel as nat) == Some(
                (p as int, t@),
            ) && p <= s@.len(),
            None => spec_zero_plus_delim(s@, pos as int, fuel as nat) is None,
        },
    decreases fuel,
{
    if fuel == 0 {
        return None;
    }
    if byte_at(s, pos, '(' as u8) {
        match parse_syntax_token(s, pos + 1, true, fuel - 1) {
            Some((p1, t1)) => match parse_syntax_token(s, p1, true, fuel - 1) {
                Some((p2, t2)) => {
                    let p3 = skip_spaces(s, p2);
                    if bytes2_at(s, p3, ')' as u8, '*' as u8) {
                        Some((p3 + 2, Syntax::ZeroPlusDelim(Box::new(t1), Box::new(t2))))
                    } else {
                        None
                    }
                },
                None => None,
            },
            None => None,
        }
    } else {
        None
    }
}

/// Parses an undelimited one-or-more repetition.
fn try_one_plus(s: &Vec<u8>, pos: usize, fuel: u64) -> (r: Option<(usize, Syntax)>)
    requires
        pos <= s@.len(),
    ensures
        match r {
            Some((p, t)) => spec_one_plus(s@, pos as int, fuel as nat) == Some((p as int, t@))
                && p <= s@.len(),
            None => spec_one_plus(s@, pos as int, fuel as nat) is None,
        },
    decreases fuel,
{
    if fuel == 0 {
        return None;
    }
    if byte_at(s, pos, '(' as u8) {
        match parse_syntax_token(s, pos + 1, true, fuel - 1) {
            Some((p1, inner)) => {
                if bytes2_at(s, p1, ')' as u8, '+' as u8) {
                    Some((p1 + 2, Syntax::OnePlus(Box::new(inner))))
                } else {
                    None
                }
            },
            None => None,
        }
    } else {
        None
    }
}

/// Parses an undelimited zero-or-more repetition.
fn try_zero_plus(s: &Vec<u8>, pos: usize, fuel: u64) -> (r: Option<(usize, Syntax)>)
    requires
        pos <= s@.len(),
    ensures
        match r {
            Some((p, t)) => spec_zero_plus(s@, pos as int, fuel as nat) == Some((p as int, t@))
                && p <= s@.len(),
            None => spec_zero_plus(s@, pos as int, fuel as nat) is None,
        },
    decreases fuel,
{
    if fuel == 0 {
        return None;
    }
    if byte_at(s, pos, '(' as u8) {
        match parse_syntax_token(s, pos + 1, true, fuel - 1) {
            Some((p1, inner)) => {
                if bytes2_at(s, p1, ')' as u8, '*' as u8) {
                    Some((p1 + 2, Syntax::ZeroPlus(Box::new(inner))))
                } else {
                    None
                }
            },
            None => None,
        }
    } else {
        None
    }
}

/// Parses a token behind at least one space or tab.
fn try_skip(s: &Vec<u8>, pos: usize, fuel: u64) -> (r: Option<(usize, Syntax)>)
    requires
        pos <= s@.len(),
    ensures
        match r {
            Some((p, t)) => spec_skip_tok(s@, pos as int, fuel as nat) == Some((p as int, t@))
                && p <= s@.len(),
            None => spec_skip_tok(s@, pos as int, fuel as nat) is None,
        },
    decreases fuel,
{
    if fuel == 0 {
        return None;
    }
    let p1 = skip_spaces(s, pos);
    if p1 > pos {
        parse_syntax_token(s, p1, true, fuel - 1)
    } else {
        None
    }
}

/// Parses as many adjacent tokens as match.
fn tokens_exec(s: &Vec<u8>, pos: usize, seq_ok: bool, fuel: u64) -> (r: Option<
    (usize, Vec<Syntax>),
>)
    requires
        pos <= s@.len(),
    ensures
        match r {
            Some((p, v)) => spec_tokens(s@, pos as int, seq_ok, fuel as nat) == Some(
                (p as int, pats_of(v, v.len() as int)),
            ) && p <= s@.len(),
            None => spec_tokens(s@, pos as int, seq_ok, fuel as nat) is None,
        },
    decreases fuel,
{
    let mut acc: Vec<Syntax> = Vec::new();
    let mut p = pos;
    let mut fl = fuel;
    proof {
        assert(pats_of(acc, 0) =~= Seq::<Pat>::empty());
        match spec_tokens(s@, pos as int, seq_ok, fuel as nat) {
            Some((q, rest)) => {
                assert(pats_of(acc, acc.len() as int) + rest =~= rest);
            },
            None => {},
        }
    }
    loop
        invariant
            p <= s@.len(),
            fl <= fuel,
            spec_tokens(s@, pos as int, seq_ok, fuel as nat) == (
            match spec_tokens(s@, p as int, seq_ok, fl as nat) {
                Some((q, rest)) => Some((q, pats_of(acc, acc.len() as int) + rest)),
                None => None::<(int, Seq<Pat>)>,
            }),
        decreases fl,
    {
        if fl == 0 {
            return None;
        }
        match parse_syntax_token(s, p, seq_ok, fl - 1) {
            None => {
                proof {
                    assert(pats_of(acc, acc.len() as int) + Seq::<Pat>::empty() =~= pats_of(
                        acc,
                        acc.len() as int,
                    ));
                }
                return Some((p, acc));
            },
            Some((p2, t)) => {
                let ghost old_acc = acc;
                acc.push(t);
                proof {
                    crate::syntax::lemma_pats_push(old_acc, acc, t);
                    assert(pats_of(acc, acc.len() as int) =~= pats_of(
                        old_acc,
                        old_acc.len() as int,
                    ) + seq![pat_of(t)]);
                    match spec_tokens(s@, p2 as int, seq_ok, (fl - 1) as nat) {
                        Some((q, rest2)) => {
                            assert(pats_of(old_acc, old_acc.len() as int) + (seq![pat_of(t)]
                                + rest2) =~= pats_of(acc, acc.len() as int) + rest2);
                        },
                        None => {},
                    }
                }
                p = p2;
                fl = fl - 1;
            },
        }
    }
}

/// Parses the sequence alternative: adjacent tokens with the guard set.
fn try_sequence(s: &Vec<u8>, pos: usize, fuel: u64) -> (r: Option<(usize, Syntax)>)
    requires
        pos <= s@.len(),
    ensures
        match r {
            Some((p, t)) => spec_sequence(s@, pos as int, fuel as nat) == Some((p as int, t@))
                && p <= s@.len(),
            None => spec_sequence(s@, pos as int, fuel as nat) is None,
        },
    decreases fuel,
{
    if fuel == 0 {
        return None;
    }
    match tokens_exec(s, pos, false, fuel - 1) {
        Some((p1, v)) => {
            proof {
                lemma_pats_of_len(v, v.len() as int);
            }
            if v.len() == 0 {
                None
            } else if v.len() == 1 {
                let mut v = v;
                let ghost gv = v;
                proof {
                    crate::syntax::lemma_pats_of_len(gv, 1);
                }
                let t = v.pop().unwrap();
                proof {
                    assert(t == gv[0]);
                    assert(pat_of(t) == pats_of(gv, 1)[0]);
                }
                Some((p1, t))
            } else {
                Some((p1, Syntax::Sequence(v)))
            }
        },
        None => None,
    }
}

/// Parses one pattern field value: one or more adjacent tokens up to an
/// end of line. A single token stands bare; two or more become a sequence
/// node, in order.
pub fn parse_syntax(s: &Vec<u8>, pos: usize) -> (r: Option<(usize, Syntax)>)
    requires
        pos <= s@.len(),
        s@.len() <= MAX_INPUT_LEN,
    ensures
        match r {
            Some((p, t)) => spec_parse_syntax_at(s@, pos as int) == Some((p as int, t@))
                && p <= s@.len(),
            None => spec_parse_syntax_at(s@, pos as int) is None,
        },
{
    let fuel: u64 = 4 * ((s.len() - pos) as u64) + 16;
    proof {
        assert(fuel as nat == syntax_fuel(s@, pos as int));
    }
    match tokens_exec(s, pos, true, fuel - 1) {
        Some((p1, v)) => {
            proof {
                lemma_pats_of_len(v, v.len() as int);
            }
            if v.len() == 0 {
                None
            } else {
                match end_of_line(s, p1) {
                    Some(p2) => {
                        if v.len() == 1 {
                            let mut v = v;
                            let ghost gv = v;
                            proof {
                                crate::syntax::lemma_pats_of_len(gv, 1);
                            }
                            let t = v.pop().unwrap();
                            proof {
                                assert(t == gv[0]);
                                assert(pat_of(t) == pats_of(gv, 1)[0]);
                            }
                            Some((p2, t))
                        } else {
                            Some((p2, Syntax::Sequence(v)))
                        }
                    },
                    None => None,
                }
            }
        },
        None => None,
    }
}

// --- The record assembler and the file parser --------------------------

/// Result of assembling one entry's remaining fields, starting from `rec`.
///
/// Each recognized field stores its value into the record (a repeated
/// field overwrites: last write wins) and accumulation continues. A
/// `name` field is the next entry's start: the record is complete and the
/// input rewinds to before that field. The end of input also completes
/// the record. A malformed field fails at the field's start, an
/// unrecognized field name fails there too, and a malformed value fails
/// at the value's start. The field budget `fuel` cannot run out, since
/// the budget granted exceeds the input's remaining bytes and every field
/// consumes at least one.
pub open spec fn spec_entry_fields(s: Seq<u8>, pos: int, rec: RecordV, fuel: nat) -> Result<
    (int, RecordV),
    ErrV,
>
    decreases fuel,
{
    if fuel == 0 {
        Err(ErrV { pos: pos, kind: ParseErrorKind::Budget })
    } else {
        let p0 = spec_skip_trivia(s, pos);
        if p0 >= s.len() {
            Ok((pos, rec))
        } else {
            match spec_parse_field_name(s, pos) {
                None => Err(ErrV { pos: p0, kind: ParseErrorKind::Syntax }),
                Some((vp, kind)) => match kind {
                    FieldType::Name => Ok((pos, rec)),
                    FieldType::Error => Err(
                        ErrV { pos: p0, kind: ParseErrorKind::UnrecognizedField },
                    ),
                    FieldType::Associativity => match spec_parse_assoc(s, vp) {
                        Some((p2, a)) => spec_entry_fields(
                            s,
                            p2,
                            RecordV { associativity: a, ..rec },
                            (fuel - 1) as nat,
                        ),
                        None => Err(ErrV { pos: vp, kind: ParseErrorKind::Syntax }),
                    },
                    FieldType::Precedence => match spec_parse_number(s, vp) {
                        Some((p2, n)) => spec_entry_fields(
                            s,
                            p2,
                            RecordV { precedence: n as u32, ..rec },
                            (fuel - 1) as nat,
                        ),
                        None => Err(ErrV { pos: vp, kind: ParseErrorKind::Syntax }),
                    },
                    FieldType::Meaningful => match spec_parse_bool(s, vp) {
                        Some((p2, b)) => spec_entry_fields(
                            s,
                            p2,
                            RecordV { meaningful: b, ..rec },
                            (fuel - 1) as nat,
                        ),
                        None => Err(ErrV { pos: vp, kind: ParseErrorKind::Syntax }),
                    },
                    FieldType::Syntax => match spec_parse_syntax_at(s, vp) {
                        Some((p2, t)) => spec_entry_fields(
                            s,
                            p2,
                            RecordV { syntax: t, ..rec },
                            (fuel - 1) as nat,
                        ),
                        None => Err(ErrV { pos: vp, kind: ParseErrorKind::Syntax }),
                    },
                    FieldType::Parse => match spec_parse_syntax_at(s, vp) {
                        Some((p2, t)) => spec_entry_fields(
                            s,
                            p2,
                            RecordV { parse: t, ..rec },
                            (fuel - 1) as nat,
                        ),
                        None => Err(ErrV { pos: vp, kind: ParseErrorKind::Syntax }),
                    },
                    FieldType::Fullform => match spec_parse_syntax_at(s, vp) {
                        Some((p2, t)) => spec_entry_fields(
                            s,
                            p2,
                            RecordV { fullform: t, ..rec },
                            (fuel - 1) as nat,
                        ),
                        None => Err(ErrV { pos: vp, kind: ParseErrorKind::Syntax }),
                    },
                },
            }
        }
    }
}

/// The field budget an entry parse is granted: more fields than the
/// input has remaining bytes.
pub open spec fn entry_fuel(s: Seq<u8>, pos: int) -> nat {
    if 0 <= pos <= s.len() {
        (s.len() - pos + 2) as nat
    } else {
        2nat
    }
}

/// Result of one entry: a leading `name:` field supplying the name, then
/// the other fields over the defaults. A missing `name:` field fails at
/// the first non-trivia byte.
pub open spec fn spec_parse_entry(s: Seq<u8>, pos: int, fuel: nat) -> Result<
    (int, RecordV),
    ErrV,
> {
    match spec_parse_op_name(s, pos) {
        None => Err(ErrV { pos: spec_skip_trivia(s, pos), kind: ParseErrorKind::Syntax }),
        Some((p1, nm)) => spec_entry_fields(s, p1, RecordV::defaults(nm), fuel),
    }
}

/// `spec_parse_entry` at the budget the library grants.
pub open spec fn spec_parse_entry_at(s: Seq<u8>, pos: int) -> Result<(int, RecordV), ErrV> {
    spec_parse_entry(s, pos, entry_fuel(s, pos))
}

/// The shapes of a vector of records, in order.
pub open spec fn recs_of(v: Vec<OpRecord>) -> Seq<RecordV> {
    Seq::new(v.len() as nat, |i: int| v[i]@)
}

/// Result of a whole file from `pos` onward with `acc` already parsed: at
/// least one entry, repeated as long as entries parse; then only
/// whitespace and comments may remain, and anything else is a file-level
/// failure carrying the first entry error and the unconsumed position.
/// The entry budget `fuel` cannot run out, since the budget granted
/// exceeds the input's length and every entry consumes at least one byte.
pub open spec fn spec_parse_file(s: Seq<u8>, pos: int, acc: Seq<RecordV>, fuel: nat) -> Result<
    Seq<RecordV>,
    FileErrV,
>
    decreases fuel,
{
    if fuel == 0 {
        Err(
            FileErrV {
                cause: ErrV { pos: pos, kind: ParseErrorKind::Budget },
                rest: pos,
            },
        )
    } else {
        match spec_parse_entry_at(s, pos) {
            Ok((p1, rec)) => spec_parse_file(s, p1, acc.push(rec), (fuel - 1) as nat),
            Err(e) => if acc.len() >= 1 && spec_skip_trivia(s, pos) >= s.len() {
                Ok(acc)
            } else {
                Err(FileErrV { cause: e, rest: pos })
            },
        }
    }
}

/// Result of parsing a whole grammar file held in memory.
pub open spec fn spec_parse_grammar_file(s: Seq<u8>) -> Result<Seq<RecordV>, FileErrV> {
    spec_parse_file(s, 0, Seq::empty(), (s.len() + 2) as nat)
}

/// Assembles one operator record: the `name:` field, then every further
/// field until the next entry's `name:` field or the end of input.
#[verifier::loop_isolation(false)]
pub fn parse_entry(s: &Vec<u8>, pos: usize) -> (r: Result<(usize, OpRecord), ParseError>)
    requires
        pos <= s@.len(),
        s@.len() <= MAX_INPUT_LEN,
    ensures
        match r {
            Ok((p, rec)) => spec_parse_entry_at(s@, pos as int) == Ok::<_, ErrV>(
                (p as int, rec@),
            ) && p <= s@.len(),
            Err(e) => spec_parse_entry_at(s@, pos as int) == Err::<(int, RecordV), _>(e@),
        },
{
    match parse_op_name(s, pos) {
        None => {
            let p0 = skip_trivia(s, pos);
            Err(ParseError { pos: p0, kind: ParseErrorKind::Syntax })
        },
        Some((p1, nm)) => {
            let mut rec = OpRecord {
                name: nm,
                associativity: Associativity::Non,
                precedence: 0,
                meaningful: false,
                syntax: Syntax::Empty,
                parse: Syntax::Empty,
                fullform: Syntax::Empty,
            };
            let mut p = p1;
            let mut fl: u64 = ((s.len() - pos) as u64) + 2;
            proof {
                assert(fl as nat == entry_fuel(s@, pos as int));
            }
            loop
                invariant
                    p <= s@.len(),
                    spec_parse_entry_at(s@, pos as int) == spec_entry_fields(
                        s@,
                        p as int,
                        rec@,
                        fl as nat,
                    ),
                decreases fl,
            {
                if fl == 0 {
                    return Err(ParseError { pos: p, kind: ParseErrorKind::Budget });
                }
                let p0t = skip_trivia(s, p);
                if p0t >= s.len() {
                    return Ok((p, rec));
                }
                match parse_field_name(s, p) {
                    None => {
                        return Err(ParseError { pos: p0t, kind: ParseErrorKind::Syntax });
                    },
                    Some((vp, kind)) => {
                        match kind {
                            FieldType::Name => {
                                return Ok((p, rec));
                            },
                            FieldType::Error => {
                                return Err(
                                    ParseError {
                                        pos: p0t,
                                        kind: ParseErrorKind::UnrecognizedField,
                                    },
                                );
                            },
                            FieldType::Associativity => {
                                match parse_associativity(s, vp) {
                                    Some((p2, a)) => {
                                        rec.associativity = a;
                                        p = p2;
                                        fl = fl - 1;
                                    },
                                    None => {
                                        return Err(
                                            ParseError { pos: vp, kind: ParseErrorKind::Syntax },
                                        );
                                    },
                                }
                            },
                            FieldType::Precedence => {
                                match parse_number(s, vp) {
                                    Some((p2, n)) => {
                                        rec.precedence = n;
                                        p = p2;
                                        fl = fl - 1;
                                    },
                                    None => {
                                        return Err(
                                            ParseError { pos: vp, kind: ParseErrorKind::Syntax },
                                        );
                                    },
                                }
                            },
                            FieldType::Meaningful => {
                                match parse_bool_option(s, vp) {
                                    Some((p2, b)) => {
                                        rec.meaningful = b;
                                        p = p2;
                                        fl = fl - 1;
                                    },
                                    None => {
                                        return Err(
                                            ParseError { pos: vp, kind: ParseErrorKind::Syntax },
                                        );
                                    },
                                }
                            },
                            FieldType::Syntax => {
                                match parse_syntax(s, vp) {
                                    Some((p2, t)) => {
                                        rec.syntax = t;
                                        p = p2;
                                        fl = fl - 1;
                                    },
                                    None => {
                                        return Err(
                                            ParseError { pos: vp, kind: ParseErrorKind::Syntax },
                                        );
                                    },
                                }
                            },
                            FieldType::Parse => {
                                match parse_syntax(s, vp) {
                                    Some((p2, t)) => {
                                        rec.parse = t;
                                        p = p2;
                                        fl = fl - 1;
                                    },
                                    None => {
                                        return Err(
                                            ParseError { pos: vp, kind: ParseErrorKind::Syntax },
                                        );
                                    },
                                }
                            },
                            FieldType::Fullform => {
                                match parse_syntax(s, vp) {
                                    Some((p2, t)) => {
                                        rec.fullform = t;
                                        p = p2;
                                        fl = fl - 1;
                                    },
                                    None => {
                                        return Err(
                                            ParseError { pos: vp, kind: ParseErrorKind::Syntax },
                                        );
                                    },
                                }
                            },
                        }
                    },
                }
            }
        },
    }
}

/// Parses a whole grammar file held in memory: at least one entry, then
/// nothing but whitespace and comments. On failure, the error carries the
/// underlying entry error and the position of the unconsumed remainder.
#[verifier::loop_isolation(false)]
pub fn parse_grammar_file(s: &Vec<u8>) -> (r: Result<Vec<OpRecord>, FileError>)
    requires
        s@.len() <= MAX_INPUT_LEN,
    ensures
        match r {
            Ok(v) => spec_parse_grammar_file(s@) == Ok::<_, FileErrV>(recs_of(v)),
            Err(e) => spec_parse_grammar_file(s@) == Err::<Seq<RecordV>, _>(e@),
        },
{
    let mut acc: Vec<OpRecord> = Vec::new();
    let mut p: usize = 0;
    let mut fl: u64 = (s.len() as u64) + 2;
    proof {
        assert(recs_of(acc) =~= Seq::<RecordV>::empty());
    }
    loop
        invariant
            p <= s@.len(),
            spec_parse_grammar_file(s@) == spec_parse_file(
                s@,
                p as int,
                recs_of(acc),
                fl as nat,
            ),
        decreases fl,
    {
        if fl == 0 {
            return Err(
                FileError {
                    cause: ParseError { pos: p, kind: ParseErrorKind::Budget },
                    rest: p,
                },
            );
        }
        match parse_entry(s, p) {
            Ok((p1, rec)) => {
                let ghost old_acc = acc;
                acc.push(rec);
                proof {
                    assert(recs_of(acc) =~= recs_of(old_acc).push(rec@));
                }
                p = p1;
                fl = fl - 1;
            },
            Err(e) => {
                let tr = skip_trivia(s, p);
                if acc.len() >= 1 && tr >= s.len() {
                    return Ok(acc);
                } else {
                    return Err(FileError { cause: e, rest: p });
                }
            },
        }
    }
}

// --- Laws of the parser ------------------------------------------------

/// A pattern that is a sequence node of fewer than two elements; the
/// parser never produces one at the top of a parse.
pub open spec fn is_short_sequence(t: Pat) -> bool {
    t matches Pat::Sequence(l) && l.len() < 2
}

proof fn lemma_token_no_short_seq(s: Seq<u8>, pos: int, seq_ok: bool, fuel: nat)
    ensures
        spec_parse_token(s, pos, seq_ok, fuel) matches Some((p, t)) ==> !is_short_sequence(t),
    decreases fuel,
{
    if fuel != 0 {
        let f = (fuel - 1) as nat;
        if spec_cons(s, pos, f) is Some {
        } else if spec_metavariable(s, pos) is Some {
        } else if spec_string_literal(s, pos) is Some {
        } else if spec_optional(s, pos, f) is Some {
        } else if spec_alternative(s, pos, f) is Some {
        } else if spec_number_tok(s, pos) is Some {
        } else if spec_one_plus_delim(s, pos, f) is Some {
        } else if spec_zero_plus_delim(s, pos, f) is Some {
        } else if spec_one_plus(s, pos, f) is Some {
        } else if spec_zero_plus(s, pos, f) is Some {
        } else if spec_skip_tok(s, pos, f) is Some {
            if f != 0 {
                lemma_token_no_short_seq(s, spec_skip_spaces(s, pos), true, (f - 1) as nat);
            }
        } else if seq_ok {
            if f != 0 {
                lemma_tokens_no_short_seq(s, pos, false, (f - 1) as nat);
            }
        }
    }
}

proof fn lemma_tokens_no_short_seq(s: Seq<u8>, pos: int, seq_ok: bool, fuel: nat)
    ensures
        spec_tokens(s, pos, seq_ok, fuel) matches Some((p, list)) ==> forall|i: int|
            0 <= i < list.len() ==> !is_short_sequence(#[trigger] list[i]),
    decreases fuel,
{
    if fuel != 0 {
        let f = (fuel - 1) as nat;
        match spec_parse_token(s, pos, seq_ok, f) {
            None => {},
            Some((p1, t)) => {
                lemma_token_no_short_seq(s, pos, seq_ok, f);
                lemma_tokens_no_short_seq(s, p1, seq_ok, f);
            },
        }
    }
}

/// Sequence collapsing: a parsed pattern field is never a one-element
/// (or empty) sequence node. A single token stands bare, and only two or
/// more adjacent tokens are wrapped in a sequence node.
pub proof fn lemma_no_singleton_sequence(s: Seq<u8>, pos: int)
    ensures
        spec_parse_syntax_at(s, pos) matches Some((p, t)) ==> !is_short_sequence(t),
{
    let fuel = syntax_fuel(s, pos);
    if fuel != 0 {
        lemma_tokens_no_short_seq(s, pos, true, (fuel - 1) as nat);
    }
}

/// Keyword recognition ignores ASCII case: two words equal up to case
/// denote the same field identity.
pub proof fn lemma_field_kind_case_insensitive(a: Seq<u8>, b: Seq<u8>)
    requires
        lower_seq(a) == lower_seq(b),
    ensures
        field_kind_of(a) == field_kind_of(b),
{
}

/// Associativity keywords are likewise matched without regard to case.
pub proof fn lemma_assoc_case_insensitive(a: Seq<u8>, b: Seq<u8>)
    requires
        lower_seq(a) == lower_seq(b),
    ensures
        assoc_of(a) == assoc_of(b),
{
}

/// A case-insensitive tag match sees only the lower-cased input: inputs
/// equal up to ASCII case match the same tags at the same positions.
pub proof fn lemma_tag_nocase_only_lower(s1: Seq<u8>, s2: Seq<u8>, pos: int, t: Seq<u8>)
    requires
        lower_seq(s1) == lower_seq(s2),
    ensures
        tag_nocase_at(s1, pos, t) == tag_nocase_at(s2, pos, t),
{
    assert(s1.len() == s2.len()) by {
        assert(lower_seq(s1).len() == s1.len());
        assert(lower_seq(s2).len() == s2.len());
    }
    assert forall|i: int| 0 <= i < s1.len() implies lower(s1[i]) == lower(s2[i]) by {
        assert(lower_seq(s1)[i] == lower(s1[i]));
        assert(lower_seq(s2)[i] == lower(s2[i]));
    }
}

/// An unrecognized field name anywhere in an entry fails the whole entry
/// parse, and the failure's position is at that field.
pub proof fn lemma_unrecognized_field_fails(s: Seq<u8>, pos: int, rec: RecordV, fuel: nat)
    requires
        fuel >= 1,
        spec_parse_field_name(s, pos) matches Some((vp, k)) && k == FieldType::Error,
    ensures
        spec_entry_fields(s, pos, rec, fuel) == Err::<(int, RecordV), _>(
            ErrV { pos: spec_skip_trivia(s, pos), kind: ParseErrorKind::UnrecognizedField },
        ),
{
    let p0 = spec_skip_trivia(s, pos);
    assert(spec_alpha_end(s, p0) > p0);
    assert(p0 < s.len());
}

// The granted step budgets never bind: every successful token parse
// consumes input, so the budget of four steps per remaining byte, the
// field budget of one per remaining byte and the entry budget of one per
// remaining byte all outlast the input. The lemmas below make that
// exact, ending in `lemma_budget_never_binds`.

proof fn lemma_end_of_line_bounds(s: Seq<u8>, pos: int)
    requires
        0 <= pos <= s.len(),
    ensures
        spec_end_of_line(s, pos) matches Some(p) ==> pos <= p <= s.len(),
{
}

proof fn lemma_metavariable_bounds(s: Seq<u8>, pos: int)
    requires
        0 <= pos <= s.len(),
    ensures
        spec_metavariable(s, pos) matches Some((p, t)) ==> pos < p <= s.len(),
{
    assert(kw_expr1().len() == 5);
    assert(kw_expr2().len() == 5);
    assert(kw_expr3().len() == 5);
    assert(kw_expr4().len() == 5);
    assert(kw_nospace().len() == 7);
    assert(kw_n().len() == 1);
    assert(kw_neg_n().len() == 2);
    assert(kw_symb().len() == 4);
    assert(seq![',' as u8].len() == 1);
}

proof fn lemma_number_lit_bounds(s: Seq<u8>, pos: int)
    requires
        0 <= pos <= s.len(),
    ensures
        spec_number_lit(s, pos) matches Some((p, v)) ==> pos < p <= s.len(),
{
    assert(seq!['-' as u8].len() == 1);
    assert(seq!['+' as u8].len() == 1);
    assert(seq!['.' as u8].len() == 1);
}

proof fn lemma_token_bounds(s: Seq<u8>, pos: int, seq_ok: bool, fuel: nat)
    requires
        0 <= pos <= s.len(),
    ensures
        spec_parse_token(s, pos, seq_ok, fuel) matches Some((p, t)) ==> pos < p <= s.len(),
    decreases fuel,
{
    if fuel != 0 {
        let f = (fuel - 1) as nat;
        lemma_metavariable_bounds(s, pos);
        lemma_number_lit_bounds(s, pos);
        assert(seq!['(' as u8].len() == 1);
        assert(seq!['[' as u8].len() == 1);
        assert(seq![']' as u8].len() == 1);
        if spec_cons(s, pos, f) is Some {
            if f != 0 {
                match spec_metavariable(s, pos) {
                    Some((p1, h)) => {
                        if tag_at(s, p1, seq!['[' as u8]) {
                            lemma_cons_args_bounds(s, p1 + 1, (f - 1) as nat);
                        }
                    },
                    None => {},
                }
            }
        } else if spec_metavariable(s, pos) is Some {
        } else if spec_string_literal(s, pos) is Some {
        } else if spec_optional(s, pos, f) is Some {
            if f != 0 && tag_at(s, pos, seq!['(' as u8]) {
                lemma_token_bounds(s, pos + 1, true, (f - 1) as nat);
            }
        } else if spec_alternative(s, pos, f) is Some {
            if f != 0 && tag_at(s, pos, seq!['(' as u8]) {
                lemma_token_bounds(s, pos + 1, true, (f - 1) as nat);
                match spec_parse_token(s, pos + 1, true, (f - 1) as nat) {
                    Some((p1, t1)) => {
                        lemma_alt_rest_bounds(s, p1, seq![t1], (f - 1) as nat);
                    },
                    None => {},
                }
            }
        } else if spec_number_tok(s, pos) is Some {
        } else if spec_one_plus_delim(s, pos, f) is Some {
            if f != 0 && tag_at(s, pos, seq!['(' as u8]) {
                lemma_token_bounds(s, pos + 1, true, (f - 1) as nat);
                match spec_parse_token(s, pos + 1, true, (f - 1) as nat) {
                    Some((p1, t1)) => {
                        lemma_token_bounds(s, p1, true, (f - 1) as nat);
                    },
                    None => {},
                }
            }
        } else if spec_zero_plus_delim(s, pos, f) is Some {
            if f != 0 && tag_at(s, pos, seq!['(' as u8]) {
                lemma_token_bounds(s, pos + 1, true, (f - 1) as nat);
                match spec_parse_token(s, pos + 1, true, (f - 1) as nat) {
                    Some((p1, t1)) => {
                        lemma_token_bounds(s, p1, true, (f - 1) as nat);
                    },
                    None => {},
                }
            }
        } else if spec_one_plus(s, pos, f) is Some {
            if f != 0 && tag_at(s, pos, seq!['(' as u8]) {
                lemma_token_bounds(s, pos + 1, true, (f - 1) as nat);
            }
        } else if spec_zero_plus(s, pos, f) is Some {
            if f != 0 && tag_at(s, pos, seq!['(' as u8]) {
                lemma_token_bounds(s, pos + 1, true, (f - 1) as nat);
            }
        } else if spec_skip_tok(s, pos, f) is Some {
            if f != 0 {
                let p1 = spec_skip_spaces(s, pos);
                if p1 > pos {
                    lemma_token_bounds(s, p1, true, (f - 1) as nat);
                }
            }
        } else if seq_ok {
            if f != 0 {
                lemma_tokens_bounds(s, pos, false, (f - 1) as nat);
            }
        }
    }
}

proof fn lemma_tokens_bounds(s: Seq<u8>, pos: int, seq_ok: bool, fuel: nat)
    requires
        0 <= pos <= s.len(),
    ensures
        spec_tokens(s, pos, seq_ok, fuel) matches Some((p, l)) ==> pos <= p <= s.len() && (
        l.len() >= 1 ==> pos < p),
    decreases fuel,
{
    if fuel != 0 {
        let f = (fuel - 1) as nat;
        lemma_token_bounds(s, pos, seq_ok, f);
        match spec_parse_token(s, pos, seq_ok, f) {
            None => {},
            Some((p1, t)) => {
                lemma_tokens_bounds(s, p1, seq_ok, f);
            },
        }
    }
}

proof fn lemma_cons_args_bounds(s: Seq<u8>, pos: int, fuel: nat)
    requires
        0 <= pos <= s.len(),
    ensures
        spec_cons_args(s, pos, fuel) matches Some((p, l)) ==> pos <= p <= s.len(),
    decreases fuel,
{
    if fuel != 0 {
        let f = (fuel - 1) as nat;
        lemma_token_bounds(s, pos, true, f);
        match spec_parse_token(s, pos, true, f) {
            None => {},
            Some((p1, t)) => {
                lemma_cons_rest_bounds(s, p1, seq![t], f);
            },
        }
    }
}

proof fn lemma_cons_rest_bounds(s: Seq<u8>, pos: int, acc: Seq<Pat>, fuel: nat)
    requires
        0 <= pos <= s.len(),
    ensures
        spec_cons_rest(s, pos, acc, fuel) matches Some((p, l)) ==> pos <= p <= s.len(),
    decreases fuel,
{
    if fuel != 0 && tag_at(s, pos, seq![',' as u8]) {
        let f = (fuel - 1) as nat;
        let p1 = spec_skip_spaces(s, pos + 1);
        assert(seq![',' as u8].len() == 1);
        lemma_token_bounds(s, p1, true, f);
        match spec_parse_token(s, p1, true, f) {
            None => {},
            Some((p2, t)) => {
                lemma_cons_rest_bounds(s, p2, acc.push(t), f);
            },
        }
    }
}

proof fn lemma_alt_rest_bounds(s: Seq<u8>, pos: int, acc: Seq<Pat>, fuel: nat)
    requires
        0 <= pos <= s.len(),
    ensures
        spec_alt_rest(s, pos, acc, fuel) matches Some((p, l)) ==> pos <= p <= s.len(),
    decreases fuel,
{
    if fuel != 0 && tag_at(s, pos, seq!['|' as u8]) {
        let f = (fuel - 1) as nat;
        assert(seq!['|' as u8].len() == 1);
        lemma_token_bounds(s, pos + 1, true, f);
        match spec_parse_token(s, pos + 1, true, f) {
            None => {},
            Some((p1, t)) => {
                lemma_alt_rest_bounds(s, p1, acc.push(t), f);
            },
        }
    }
}

proof fn lemma_parse_syntax_bounds(s: Seq<u8>, pos: int)
    requires
        0 <= pos <= s.len(),
    ensures
        spec_parse_syntax_at(s, pos) matches Some((p, t)) ==> pos < p <= s.len(),
{
    let fuel = syntax_fuel(s, pos);
    if fuel != 0 {
        let f = (fuel - 1) as nat;
        lemma_tokens_bounds(s, pos, true, f);
        match spec_tokens(s, pos, true, f) {
            None => {},
            Some((p1, l)) => {
                lemma_end_of_line_bounds(s, p1);
            },
        }
    }
}

proof fn lemma_op_name_bounds(s: Seq<u8>, pos: int)
    requires
        0 <= pos <= s.len(),
    ensures
        spec_parse_op_name(s, pos) matches Some((p, nm)) ==> pos < p <= s.len(),
{
    assert(kw_name_colon().len() == 5);
}

proof fn lemma_entry_fields_no_budget(s: Seq<u8>, pos: int, rec: RecordV, fuel: nat)
    requires
        0 <= pos <= s.len(),
        2 * fuel >= s.len() - pos + 3,
    ensures
        !(spec_entry_fields(s, pos, rec, fuel) matches Err(e) && e.kind
            == ParseErrorKind::Budget),
        spec_entry_fields(s, pos, rec, fuel) matches Ok((p, r2)) ==> pos <= p <= s.len(),
    decreases fuel,
{
    assert(fuel != 0);
    let p0 = spec_skip_trivia(s, pos);
    if p0 < s.len() {
        match spec_parse_field_name(s, pos) {
            None => {},
            Some((vp, kind)) => {
                let ae = spec_alpha_end(s, p0);
                assert(seq![':' as u8].len() == 1);
                assert(vp == ae + 1);
                assert(vp >= pos + 2);
                match kind {
                    FieldType::Name => {},
                    FieldType::Error => {},
                    FieldType::Associativity => {
                        match spec_parse_assoc(s, vp) {
                            Some((p2, a)) => {
                                lemma_assoc_value_bounds(s, vp);
                                lemma_entry_fields_no_budget(
                                    s,
                                    p2,
                                    RecordV { associativity: a, ..rec },
                                    (fuel - 1) as nat,
                                );
                            },
                            None => {},
                        }
                    },
                    FieldType::Precedence => {
                        match spec_parse_number(s, vp) {
                            Some((p2, v)) => {
                                lemma_number_value_bounds(s, vp);
                                lemma_entry_fields_no_budget(
                                    s,
                                    p2,
                                    RecordV { precedence: v as u32, ..rec },
                                    (fuel - 1) as nat,
                                );
                            },
                            None => {},
                        }
                    },
                    FieldType::Meaningful => {
                        match spec_parse_bool(s, vp) {
                            Some((p2, b)) => {
                                lemma_bool_value_bounds(s, vp);
                                lemma_entry_fields_no_budget(
                                    s,
                                    p2,
                                    RecordV { meaningful: b, ..rec },
                                    (fuel - 1) as nat,
                                );
                            },
                            None => {},
                        }
                    },
                    FieldType::Syntax => {
                        match spec_parse_syntax_at(s, vp) {
                            Some((p2, t)) => {
                                lemma_parse_syntax_bounds(s, vp);
                                lemma_entry_fields_no_budget(
                                    s,
                                    p2,
                                    RecordV { syntax: t, ..rec },
                                    (fuel - 1) as nat,
                                );
                            },
                            None => {},
                        }
                    },
                    FieldType::Parse => {
                        match spec_parse_syntax_at(s, vp) {
                            Some((p2, t)) => {
                                lemma_parse_syntax_bounds(s, vp);
                                lemma_entry_fields_no_budget(
                                    s,
                                    p2,
                                    RecordV { parse: t, ..rec },
                                    (fuel - 1) as nat,
                                );
                            },
                            None => {},
                        }
                    },
                    FieldType::Fullform => {
                        match spec_parse_syntax_at(s, vp) {
                            Some((p2, t)) => {
                                lemma_parse_syntax_bounds(s, vp);
                                lemma_entry_fields_no_budget(
                                    s,
                                    p2,
                                    RecordV { fullform: t, ..rec },
                                    (fuel - 1) as nat,
                                );
                            },
                            None => {},
                        }
                    },
                }
            },
        }
    }
}

proof fn lemma_assoc_value_bounds(s: Seq<u8>, pos: int)
    requires
        0 <= pos <= s.len(),
    ensures
        spec_parse_assoc(s, pos) matches Some((p, a)) ==> pos <= p <= s.len(),
{
    let p1 = spec_skip_spaces(s, pos);
    assert(kw_left().len() == 4);
    assert(kw_right().len() == 5);
    assert(kw_full().len() == 4);
    assert(kw_none().len() == 4);
    assert(kw_non().len() == 3);
    if tag_nocase_at(s, p1, kw_left()) {
        lemma_end_of_line_bounds(s, p1 + 4);
    } else if tag_nocase_at(s, p1, kw_right()) {
        lemma_end_of_line_bounds(s, p1 + 5);
    } else if tag_nocase_at(s, p1, kw_full()) {
        lemma_end_of_line_bounds(s, p1 + 4);
    } else if tag_nocase_at(s, p1, kw_none()) {
        lemma_end_of_line_bounds(s, p1 + 4);
    } else if tag_nocase_at(s, p1, kw_non()) {
        lemma_end_of_line_bounds(s, p1 + 3);
    }
}

proof fn lemma_bool_value_bounds(s: Seq<u8>, pos: int)
    requires
        0 <= pos <= s.len(),
    ensures
        spec_parse_bool(s, pos) matches Some((p, b)) ==> pos <= p <= s.len(),
{
    let p1 = spec_skip_spaces(s, pos);
    assert(kw_true().len() == 4);
    assert(kw_false().len() == 5);
    if tag_nocase_at(s, p1, kw_true()) {
        lemma_end_of_line_bounds(s, p1 + 4);
    } else if tag_nocase_at(s, p1, kw_false()) {
        lemma_end_of_line_bounds(s, p1 + 5);
    }
}

proof fn lemma_number_value_bounds(s: Seq<u8>, pos: int)
    requires
        0 <= pos <= s.len(),
    ensures
        spec_parse_number(s, pos) matches Some((p, v)) ==> pos <= p <= s.len(),
{
    let p1 = spec_skip_spaces(s, pos);
    lemma_number_lit_bounds(s, p1);
    match spec_number_lit(s, p1) {
        Some((p2, v)) => {
            lemma_end_of_line_bounds(s, p2);
        },
        None => {},
    }
}

proof fn lemma_entry_no_budget(s: Seq<u8>, pos: int)
    requires
        0 <= pos <= s.len(),
    ensures
        !(spec_parse_entry_at(s, pos) matches Err(e) && e.kind == ParseErrorKind::Budget),
        spec_parse_entry_at(s, pos) matches Ok((p, r)) ==> pos < p <= s.len(),
{
    lemma_op_name_bounds(s, pos);
    match spec_parse_op_name(s, pos) {
        None => {},
        Some((p1, nm)) => {
            lemma_entry_fields_no_budget(s, p1, RecordV::defaults(nm), entry_fuel(s, pos));
        },
    }
}

proof fn lemma_file_no_budget(s: Seq<u8>, pos: int, acc: Seq<RecordV>, fuel: nat)
    requires
        0 <= pos <= s.len(),
        fuel >= s.len() - pos + 2,
    ensures
        !(spec_parse_file(s, pos, acc, fuel) matches Err(e) && e.cause.kind
            == ParseErrorKind::Budget),
    decreases fuel,
{
    assert(fuel != 0);
    lemma_entry_no_budget(s, pos);
    match spec_parse_entry_at(s, pos) {
        Ok((p1, rec)) => {
            lemma_file_no_budget(s, p1, acc.push(rec), (fuel - 1) as nat);
        },
        Err(e) => {},
    }
}

/// The parser's step budgets never bind: a file-level failure is a real
/// parse failure, never an exhausted budget.
pub proof fn lemma_budget_never_binds(s: Seq<u8>)
    ensures
        spec_parse_grammar_file(s) matches Err(e) ==> e.cause.kind != ParseErrorKind::Budget,
{
    lemma_file_no_budget(s, 0, Seq::empty(), (s.len() + 2) as nat);
}

/// Trailing garbage: where no further entry parses and anything but
/// whitespace and comments remains, the whole file parse fails, and the
/// failure carries the underlying entry error together with the
/// position of the unconsumed remainder.
pub proof fn lemma_trailing_garbage_fails(s: Seq<u8>, pos: int, acc: Seq<RecordV>, fuel: nat)
    requires
        fuel >= 1,
        spec_parse_entry_at(s, pos) is Err,
        spec_skip_trivia(s, pos) < s.len(),
    ensures
        spec_parse_file(s, pos, acc, fuel) == Err::<Seq<RecordV>, _>(
            FileErrV { cause: spec_parse_entry_at(s, pos)->Err_0, rest: pos },
        ),
{
}

/// A single-field input `name: X` followed by a line feed parses, as a
/// whole file, to exactly one record holding that name, with every other
/// field at its documented default.
#[verifier::rlimit(100)]
pub proof fn lemma_single_name_entry(x: Seq<u8>)
    requires
        x.len() >= 1,
        forall|i: int| 0 <= i < x.len() ==> is_alpha(#[trigger] x[i]),
    ensures
        spec_parse_grammar_file(kw_name_colon() + seq![' ' as u8] + x + seq![10u8]) == Ok::<
            _,
            FileErrV,
        >(seq![RecordV::defaults(x)]),
{
    let s = kw_name_colon() + seq![' ' as u8] + x + seq![10u8];
    let n = s.len() as int;
    assert(kw_name_colon().len() == 5);
    assert(n == 7 + x.len());
    assert(s[0] == 'n' as u8);
    assert(s[1] == 'a' as u8);
    assert(s[2] == 'm' as u8);
    assert(s[3] == 'e' as u8);
    assert(s[4] == ':' as u8);
    assert(s[5] == ' ' as u8);
    assert(forall|i: int| 0 <= i < x.len() ==> s[6 + i] == #[trigger] x[i]);
    assert(s[n - 1] == 10u8);

    // The leading trivia skip stays at the start.
    assert(spec_skip_trivia(s, 0) == 0);

    // The name keyword matches.
    assert(tag_nocase_at(s, 0, kw_name_colon())) by {
        assert(kw_name_colon().len() == 5);
        assert(lower(s[0]) == kw_name_colon()[0]);
        assert(lower(s[1]) == kw_name_colon()[1]);
        assert(lower(s[2]) == kw_name_colon()[2]);
        assert(lower(s[3]) == kw_name_colon()[3]);
        assert(lower(s[4]) == kw_name_colon()[4]);
    }

    // One space, then the name itself, which runs to the line feed.
    assert(is_alpha(s[6]));
    assert(spec_skip_spaces(s, 6) == 6);
    assert(spec_skip_spaces(s, 5) == 6);
    assert(spec_alpha_end(s, 6) == 6 + x.len() as int) by {
        assert(forall|i: int| 6 <= i < 6 + x.len() as int ==> is_alpha(#[trigger] s[i]));
        assert(!is_alpha(s[6 + x.len() as int]));
        crate::scan::lemma_alpha_end_of_run(s, 6, 6 + x.len() as int);
    }
    assert(s.subrange(6, 6 + x.len() as int) =~= x);
    let p1: int = 6 + x.len() as int;
    assert(spec_parse_op_name(s, 0) == Some((p1, x)));

    // After the name, only the line feed remains: the record is done.
    assert(spec_skip_trivia(s, n) == n);
    assert(spec_skip_trivia(s, p1) == n);
    let fuel0 = entry_fuel(s, 0);
    assert(fuel0 >= 1);
    assert(spec_entry_fields(s, p1, RecordV::defaults(x), fuel0) == Ok::<_, ErrV>(
        (p1, RecordV::defaults(x)),
    ));
    assert(spec_parse_entry_at(s, 0) == Ok::<_, ErrV>((p1, RecordV::defaults(x))));

    // A second entry cannot start: only trivia remains, so the file
    // parse ends with the one record.
    assert(spec_skip_trivia(s, p1) >= n);
    assert(!tag_nocase_at(s, n, kw_name_colon()));
    assert(spec_parse_op_name(s, p1) is None);
    assert(spec_parse_entry_at(s, p1) is Err);
    let acc1 = Seq::<RecordV>::empty().push(RecordV::defaults(x));
    assert(acc1 =~= seq![RecordV::defaults(x)]);
    assert(spec_parse_file(s, p1, acc1, (n + 1) as nat) == Ok::<_, FileErrV>(acc1));
    assert(spec_parse_file(s, 0, Seq::empty(), (n + 2) as nat) == Ok::<_, FileErrV>(acc1));
}

} // verus!