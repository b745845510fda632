//! The data model of the grammar-description language: field identities,
//! associativity, the recursive pattern type and the operator record, with
//! the conversions between their textual and enumerated forms.

use vstd::prelude::*;
use crate::scan::lower_seq;

verus! {

broadcast use vstd::std_specs::vec::axiom_vec_index_decreases;

/// Identity of one `field-name: value` line of an entry.
#[derive(Debug, Clone, Copy, PartialEq, Eq, Structural)]
pub enum FieldType {
    Name,
    Associativity,
    Precedence,
    Meaningful,
    Syntax,
    Parse,
    Fullform,
    Error,
}

/// Associativity of an operator.
#[derive(Debug, Clone, Copy, PartialEq, Eq, Structural)]
pub enum Associativity {
    Left,
    Right,
    Non,
    Full,
}

/// How a token binds during expression parsing; kept for collaborators.
#[derive(Debug, Clone, Copy, PartialEq, Eq, Structural)]
pub enum TokenDenotation {
    Left,
    Null,
    Other,
}

/// One node of the pattern language describing an operator's surface syntax.
///
/// A node exclusively owns its children; a value is immutable once built.
#[derive(Debug, PartialEq, Eq)]
pub enum Syntax {
    Expr1,
    Expr2,
    Expr3,
    Expr4,
    N,
    NegN,
    Symbol,
    Comma,
    NoSpace,
    Newline,
    Word(Vec<u8>),
    NamedChar(Vec<u8>),
    Number(i32),
    OnePlus(Box<Syntax>),
    OnePlusDelim(Box<Syntax>, Box<Syntax>),
    ZeroPlus(Box<Syntax>),
    ZeroPlusDelim(Box<Syntax>, Box<Syntax>),
    Optional(Box<Syntax>),
    Literal(Vec<u8>),
    Cons(Box<Syntax>, Vec<Syntax>),
    SequenceDelim(Vec<Syntax>),
    Sequence(Vec<Syntax>),
    Alternative(Vec<Syntax>),
    Empty,
}

/// The mathematical shape of a `Syntax` tree: the same constructors over
/// `Seq` instead of `Vec` and `Box`. Contracts speak of this type.
#[verifier::ext_equal]
pub enum Pat {
    Expr1,
    Expr2,
    Expr3,
    Expr4,
    N,
    NegN,
    Symbol,
    Comma,
    NoSpace,
    Newline,
    Word(Seq<u8>),
    NamedChar(Seq<u8>),
    Number(int),
    OnePlus(Box<Pat>),
    OnePlusDelim(Box<Pat>, Box<Pat>),
    ZeroPlus(Box<Pat>),
    ZeroPlusDelim(Box<Pat>, Box<Pat>),
    Optional(Box<Pat>),
    Literal(Seq<u8>),
    Cons(Box<Pat>, Seq<Pat>),
    SequenceDelim(Seq<Pat>),
    Sequence(Seq<Pat>),
    Alternative(Seq<Pat>),
    Empty,
}

/// The shape of a `Syntax` tree.
pub open spec fn pat_of(t: Syntax) -> Pat
    decreases t, 0int,
{
    match t {
        Syntax::Expr1 => Pat::Expr1,
        Syntax::Expr2 => Pat::Expr2,
        Syntax::Expr3 => Pat::Expr3,
        Syntax::Expr4 => Pat::Expr4,
        Syntax::N => Pat::N,
        Syntax::NegN => Pat::NegN,
        Syntax::Symbol => Pat::Symbol,
        Syntax::Comma => Pat::Comma,
        Syntax::NoSpace => Pat::NoSpace,
        Syntax::Newline => Pat::Newline,
        Syntax::Word(w) => Pat::Word(w@),
        Syntax::NamedChar(w) => Pat::NamedChar(w@),
        Syntax::Number(n) => Pat::Number(n as int),
        Syntax::OnePlus(e) => Pat::OnePlus(Box::new(pat_of(*e))),
        Syntax::OnePlusDelim(e, d) => Pat::OnePlusDelim(
            Box::new(pat_of(*e)),
            Box::new(pat_of(*d)),
        ),
        Syntax::ZeroPlus(e) => Pat::ZeroPlus(Box::new(pat_of(*e))),
        Syntax::ZeroPlusDelim(e, d) => Pat::ZeroPlusDelim(
            Box::new(pat_of(*e)),
            Box::new(pat_of(*d)),
        ),
        Syntax::Optional(e) => Pat::Optional(Box::new(pat_of(*e))),
        Syntax::Literal(w) => Pat::Literal(w@),
        Syntax::Cons(h, args) => Pat::Cons(
            Box::new(pat_of(*h)),
            pats_of(args, args.len() as int),
        ),
        Syntax::SequenceDelim(v) => Pat::SequenceDelim(pats_of(v, v.len() as int)),
        Syntax::Sequence(v) => Pat::Sequence(pats_of(v, v.len() as int)),
        Syntax::Alternative(v) => Pat::Alternative(pats_of(v, v.len() as int)),
        Syntax::Empty => Pat::Empty,
    }
}

/// The shapes of the first `n` trees of `v`, in order.
pub open spec fn pats_of(v: Vec<Syntax>, n: int) -> Seq<Pat>
    decreases v, n,
{
    if n <= 0 || n > v.len() {
        Seq::empty()
    } else {
        pats_of(v, n - 1).push(pat_of(v[n - 1]))
    }
}

impl View for Syntax {
    type V = Pat;

    open spec fn view(&self) -> Pat {
        pat_of(*self)
    }
}

pub proof fn lemma_pats_of_len(v: Vec<Syntax>, n: int)
    requires
        0 <= n <= v.len(),
    ensures
        pats_of(v, n).len() == n,
        forall|i: int| 0 <= i < n ==> pats_of(v, n)[i] == pat_of(v[i]),
    decreases n,
{
    if n > 0 {
        lemma_pats_of_len(v, n - 1);
    }
}

pub proof fn lemma_pats_of_prefix(v1: Vec<Syntax>, v2: Vec<Syntax>, n: int)
    requires
        0 <= n <= v1.len(),
        n <= v2.len(),
        forall|i: int| 0 <= i < n ==> v1[i] == v2[i],
    ensures
        pats_of(v1, n) == pats_of(v2, n),
    decreases n,
{
    if n > 0 {
        lemma_pats_of_prefix(v1, v2, n - 1);
    }
}

pub proof fn lemma_pats_push(old_v: Vec<Syntax>, new_v: Vec<Syntax>, t: Syntax)
    requires
        new_v@ == old_v@.push(t),
    ensures
        pats_of(new_v, new_v.len() as int) == pats_of(old_v, old_v.len() as int).push(pat_of(t)),
{
    let n = old_v.len() as int;
    lemma_pats_of_prefix(old_v, new_v, n);
    assert(new_v[n] == t);
}

/// One parsed entry: an operator's name, its attributes, and its three
/// optional sub-grammars. Absent fields keep their defaults.
#[derive(Debug, PartialEq, Eq)]
pub struct OpRecord {
    pub name: Vec<u8>,
    pub associativity: Associativity,
    pub precedence: u32,
    pub meaningful: bool,
    pub syntax: Syntax,
    pub parse: Syntax,
    pub fullform: Syntax,
}

/// The mathematical shape of an `OpRecord`.
#[verifier::ext_equal]
pub struct RecordV {
    pub name: Seq<u8>,
    pub associativity: Associativity,
    pub precedence: u32,
    pub meaningful: bool,
    pub syntax: Pat,
    pub parse: Pat,
    pub fullform: Pat,
}

impl View for OpRecord {
    type V = RecordV;

    open spec fn view(&self) -> RecordV {
        RecordV {
            name: self.name@,
            associativity: self.associativity,
            precedence: self.precedence,
            meaningful: self.meaningful,
            syntax: pat_of(self.syntax),
            parse: pat_of(self.parse),
            fullform: pat_of(self.fullform),
        }
    }
}

impl RecordV {
    /// The record an entry starts from: only the name set, all other
    /// fields at their documented defaults (non-associative, precedence 0,
    /// not meaningful, no sub-grammars).
    pub open spec fn defaults(name: Seq<u8>) -> RecordV {
        RecordV {
            name: name,
            associativity: Associativity::Non,
            precedence: 0,
            meaningful: false,
            syntax: Pat::Empty,
            parse: Pat::Empty,
            fullform: Pat::Empty,
        }
    }
}

// Keyword byte sequences. 'a' as u8 spells each byte, since the grammar is
// ASCII-oriented.

pub open spec fn kw_name() -> Seq<u8> {
    seq!['n' as u8, 'a' as u8, 'm' as u8, 'e' as u8]
}

pub open spec fn kw_name_colon() -> Seq<u8> {
    seq!['n' as u8, 'a' as u8, 'm' as u8, 'e' as u8, ':' as u8]
}

pub open spec fn kw_associativity() -> Seq<u8> {
    seq![
        'a' as u8, 's' as u8, 's' as u8, 'o' as u8, 'c' as u8, 'i' as u8, 'a' as u8,
        't' as u8, 'i' as u8, 'v' as u8, 'i' as u8, 't' as u8, 'y' as u8,
    ]
}

pub open spec fn kw_precedence() -> Seq<u8> {
    seq![
        'p' as u8, 'r' as u8, 'e' as u8, 'c' as u8, 'e' as u8, 'd' as u8, 'e' as u8,
        'n' as u8, 'c' as u8, 'e' as u8,
    ]
}

pub open spec fn kw_meaningful() -> Seq<u8> {
    seq![
        'm' as u8, 'e' as u8, 'a' as u8, 'n' as u8, 'i' as u8, 'n' as u8, 'g' as u8,
        'f' as u8, 'u' as u8, 'l' as u8,
    ]
}

pub open spec fn kw_syntax() -> Seq<u8> {
    seq!['s' as u8, 'y' as u8, 'n' as u8, 't' as u8, 'a' as u8, 'x' as u8]
}

pub open spec fn kw_grammar() -> Seq<u8> {
    seq!['g' as u8, 'r' as u8, 'a' as u8, 'm' as u8, 'm' as u8, 'a' as u8, 'r' as u8]
}

pub open spec fn kw_parse() -> Seq<u8> {
    seq!['p' as u8, 'a' as u8, 'r' as u8, 's' as u8, 'e' as u8]
}

pub open spec fn kw_fullform() -> Seq<u8> {
    seq![
        'f' as u8, 'u' as u8, 'l' as u8, 'l' as u8, 'f' as u8, 'o' as u8, 'r' as u8,
        'm' as u8,
    ]
}

pub open spec fn kw_left() -> Seq<u8> {
    seq!['l' as u8, 'e' as u8, 'f' as u8, 't' as u8]
}

pub open spec fn kw_right() -> Seq<u8> {
    seq!['r' as u8, 'i' as u8, 'g' as u8, 'h' as u8, 't' as u8]
}

pub open spec fn kw_full() -> Seq<u8> {
    seq!['f' as u8, 'u' as u8, 'l' as u8, 'l' as u8]
}

pub open spec fn kw_non() -> Seq<u8> {
    seq!['n' as u8, 'o' as u8, 'n' as u8]
}

pub open spec fn kw_none() -> Seq<u8> {
    seq!['n' as u8, 'o' as u8, 'n' as u8, 'e' as u8]
}

pub open spec fn kw_true() -> Seq<u8> {
    seq!['t' as u8, 'r' as u8, 'u' as u8, 'e' as u8]
}

pub open spec fn kw_false() -> Seq<u8> {
    seq!['f' as u8, 'a' as u8, 'l' as u8, 's' as u8, 'e' as u8]
}

pub open spec fn kw_expr1() -> Seq<u8> {
    seq!['e' as u8, 'x' as u8, 'p' as u8, 'r' as u8, '1' as u8]
}

pub open spec fn kw_expr2() -> Seq<u8> {
    seq!['e' as u8, 'x' as u8, 'p' as u8, 'r' as u8, '2' as u8]
}

pub open spec fn kw_expr3() -> Seq<u8> {
    seq!['e' as u8, 'x' as u8, 'p' as u8, 'r' as u8, '3' as u8]
}

pub open spec fn kw_expr4() -> Seq<u8> {
    seq!['e' as u8, 'x' as u8, 'p' as u8, 'r' as u8, '4' as u8]
}

pub open spec fn kw_nospace() -> Seq<u8> {
    seq!['n' as u8, 'o' as u8, 's' as u8, 'p' as u8, 'a' as u8, 'c' as u8, 'e' as u8]
}

pub open spec fn kw_symb() -> Seq<u8> {
    seq!['s' as u8, 'y' as u8, 'm' as u8, 'b' as u8]
}

pub open spec fn kw_n() -> Seq<u8> {
    seq!['n' as u8]
}

pub open spec fn kw_neg_n() -> Seq<u8> {
    seq!['-' as u8, 'n' as u8]
}

/// The field identity a (raw, possibly mixed-case) field name denotes.
/// Both `syntax` and `grammar` name the syntax field; anything outside
/// the closed set is the explicit error sentinel.
pub open spec fn field_kind_of(w: Seq<u8>) -> FieldType {
    if lower_seq(w) == kw_name() {
        FieldType::Name
    } else if lower_seq(w) == kw_associativity() {
        FieldType::Associativity
    } else if lower_seq(w) == kw_precedence() {
        FieldType::Precedence
    } else if lower_seq(w) == kw_meaningful() {
        FieldType::Meaningful
    } else if lower_seq(w) == kw_syntax() || lower_seq(w) == kw_grammar() {
        FieldType::Syntax
    } else if lower_seq(w) == kw_parse() {
        FieldType::Parse
    } else if lower_seq(w) == kw_fullform() {
        FieldType::Fullform
    } else {
        FieldType::Error
    }
}

/// The associativity a (raw) keyword denotes; unknown keywords fall back
/// to the non-associative default, as the textual converter always did.
pub open spec fn assoc_of(w: Seq<u8>) -> Associativity {
    if lower_seq(w) == kw_left() {
        Associativity::Left
    } else if lower_seq(w) == kw_right() {
        Associativity::Right
    } else if lower_seq(w) == kw_full() {
        Associativity::Full
    } else {
        Associativity::Non
    }
}

/// The pattern node a bare (raw) word denotes: a reserved metavariable
/// name, matched without regard to case, or a generic word kept verbatim.
pub open spec fn word_pat_of(w: Seq<u8>) -> Pat {
    if lower_seq(w) == kw_expr1() {
        Pat::Expr1
    } else if lower_seq(w) == kw_expr2() {
        Pat::Expr2
    } else if lower_seq(w) == kw_expr3() {
        Pat::Expr3
    } else if lower_seq(w) == kw_expr4() {
        Pat::Expr4
    } else if lower_seq(w) == kw_n() {
        Pat::N
    } else if lower_seq(w) == kw_neg_n() {
        Pat::NegN
    } else if lower_seq(w) == kw_symb() {
        Pat::Symbol
    } else if lower_seq(w) == seq![',' as u8] {
        Pat::Comma
    } else if lower_seq(w) == kw_nospace() {
        Pat::NoSpace
    } else {
        Pat::Word(w)
    }
}

// Executable keyword vectors, each equal to its specification sequence.

pub fn kw_name_v() -> (r: Vec<u8>)
    ensures
        r@ == kw_name(),
{
    let mut v: Vec<u8> = Vec::new();
    v.push('n' as u8);
    v.push('a' as u8);
    v.push('m' as u8);
    v.push('e' as u8);
    proof {
        assert(v@ =~= kw_name());
    }
    v
}

pub fn kw_name_colon_v() -> (r: Vec<u8>)
    ensures
        r@ == kw_name_colon(),
{
    let mut v = kw_name_v();
    v.push(':' as u8);
    proof {
        assert(v@ =~= kw_name_colon());
    }
    v
}

pub fn kw_associativity_v() -> (r: Vec<u8>)
    ensures
        r@ == kw_associativity(),
{
    let mut v: Vec<u8> = Vec::new();
    v.push('a' as u8);
    v.push('s' as u8);
    v.push('s' as u8);
    v.push('o' as u8);
    v.push('c' as u8);
    v.push('i' as u8);
    v.push('a' as u8);
    v.push('t' as u8);
    v.push('i' as u8);
    v.push('v' as u8);
    v.push('i' as u8);
    v.push('t' as u8);
    v.push('y' as u8);
    proof {
        assert(v@ =~= kw_associativity());
    }
    v
}

pub fn kw_precedence_v() -> (r: Vec<u8>)
    ensures
        r@ == kw_precedence(),
{
    let mut v: Vec<u8> = Vec::new();
    v.push('p' as u8);
    v.push('r' as u8);
    v.push('e' as u8);
    v.push('c' as u8);
    v.push('e' as u8);
    v.push('d' as u8);
    v.push('e' as u8);
    v.push('n' as u8);
    v.push('c' as u8);
    v.push('e' as u8);
    proof {
        assert(v@ =~= kw_precedence());
    }
    v
}

pub fn kw_meaningful_v() -> (r: Vec<u8>)
    ensures
        r@ == kw_meaningful(),
{
    let mut v: Vec<u8> = Vec::new();
    v.push('m' as u8);
    v.push('e' as u8);
    v.push('a' as u8);
    v.push('n' as u8);
    v.push('i' as u8);
    v.push('n' as u8);
    v.push('g' as u8);
    v.push('f' as u8);
    v.push('u' as u8);
    v.push('l' as u8);
    proof {
        assert(v@ =~= kw_meaningful());
    }
    v
}

pub fn kw_syntax_v() -> (r: Vec<u8>)
    ensures
        r@ == kw_syntax(),
{
    let mut v: Vec<u8> = Vec::new();
    v.push('s' as u8);
    v.push('y' as u8);
    v.push('n' as u8);
    v.push('t' as u8);
    v.push('a' as u8);
    v.push('x' as u8);
    proof {
        assert(v@ =~= kw_syntax());
    }
    v
}

pub fn kw_grammar_v() -> (r: Vec<u8>)
    ensures
        r@ == kw_grammar(),
{
    let mut v: Vec<u8> = Vec::new();
    v.push('g' as u8);
    v.push('r' as u8);
    v.push('a' as u8);
    v.push('m' as u8);
    v.push('m' as u8);
    v.push('a' as u8);
    v.push('r' as u8);
    proof {
        assert(v@ =~= kw_grammar());
    }
    v
}

pub fn kw_parse_v() -> (r: Vec<u8>)
    ensures
        r@ == kw_parse(),
{
    let mut v: Vec<u8> = Vec::new();
    v.push('p' as u8);
    v.push('a' as u8);
    v.push('r' as u8);
    v.push('s' as u8);
    v.push('e' as u8);
    proof {
        assert(v@ =~= kw_parse());
    }
    v
}

pub fn kw_fullform_v() -> (r: Vec<u8>)
    ensures
        r@ == kw_fullform(),
{
    let mut v: Vec<u8> = Vec::new();
    v.push('f' as u8);
    v.push('u' as u8);
    v.push('l' as u8);
    v.push('l' as u8);
    v.push('f' as u8);
    v.push('o' as u8);
    v.push('r' as u8);
    v.push('m' as u8);
    proof {
        assert(v@ =~= kw_fullform());
    }
    v
}

pub fn kw_left_v() -> (r: Vec<u8>)
    ensures
        r@ == kw_left(),
{
    let mut v: Vec<u8> = Vec::new();
    v.push('l' as u8);
    v.push('e' as u8);
    v.push('f' as u8);
    v.push('t' as u8);
    proof {
        assert(v@ =~= kw_left());
    }
    v
}

pub fn kw_right_v() -> (r: Vec<u8>)
    ensures
        r@ == kw_right(),
{
    let mut v: Vec<u8> = Vec::new();
    v.push('r' as u8);
    v.push('i' as u8);
    v.push('g' as u8);
    v.push('h' as u8);
    v.push('t' as u8);
    proof {
        assert(v@ =~= kw_right());
    }
    v
}

pub fn kw_full_v() -> (r: Vec<u8>)
    ensures
        r@ == kw_full(),
{
    let mut v: Vec<u8> = Vec::new();
    v.push('f' as u8);
    v.push('u' as u8);
    v.push('l' as u8);
    v.push('l' as u8);
    proof {
        assert(v@ =~= kw_full());
    }
    v
}

pub fn kw_non_v() -> (r: Vec<u8>)
    ensures
        r@ == kw_non(),
{
    let mut v: Vec<u8> = Vec::new();
    v.push('n' as u8);
    v.push('o' as u8);
    v.push('n' as u8);
    proof {
        assert(v@ =~= kw_non());
    }
    v
}

pub fn kw_none_v() -> (r: Vec<u8>)
    ensures
        r@ == kw_none(),
{
    let mut v = kw_non_v();
    v.push('e' as u8);
    proof {
        assert(v@ =~= kw_none());
    }
    v
}

pub fn kw_true_v() -> (r: Vec<u8>)
    ensures
        r@ == kw_true(),
{
    let mut v: Vec<u8> = Vec::new();
    v.push('t' as u8);
    v.push('r' as u8);
    v.push('u' as u8);
    v.push('e' as u8);
    proof {
        assert(v@ =~= kw_true());
    }
    v
}

pub fn kw_false_v() -> (r: Vec<u8>)
    ensures
        r@ == kw_false(),
{
    let mut v: Vec<u8> = Vec::new();
    v.push('f' as u8);
    v.push('a' as u8);
    v.push('l' as u8);
    v.push('s' as u8);
    v.push('e' as u8);
    proof {
        assert(v@ =~= kw_false());
    }
    v
}

pub fn kw_expr_v(digit: u8) -> (r: Vec<u8>)
    ensures
        digit == '1' as u8 ==> r@ == kw_expr1(),
        digit == '2' as u8 ==> r@ == kw_expr2(),
        digit == '3' as u8 ==> r@ == kw_expr3(),
        digit == '4' as u8 ==> r@ == kw_expr4(),
{
    let mut v: Vec<u8> = Vec::new();
    v.push('e' as u8);
    v.push('x' as u8);
    v.push('p' as u8);
    v.push('r' as u8);
    v.push(digit);
    proof {
        if digit == '1' as u8 {
            assert(v@ =~= kw_expr1());
        }
        if digit == '2' as u8 {
            assert(v@ =~= kw_expr2());
        }
        if digit == '3' as u8 {
            assert(v@ =~= kw_expr3());
        }
        if digit == '4' as u8 {
            assert(v@ =~= kw_expr4());
        }
    }
    v
}

pub fn kw_nospace_v() -> (r: Vec<u8>)
    ensures
        r@ == kw_nospace(),
{
    let mut v: Vec<u8> = Vec::new();
    v.push('n' as u8);
    v.push('o' as u8);
    v.push('s' as u8);
    v.push('p' as u8);
    v.push('a' as u8);
    v.push('c' as u8);
    v.push('e' as u8);
    proof {
        assert(v@ =~= kw_nospace());
    }
    v
}

pub fn kw_symb_v() -> (r: Vec<u8>)
    ensures
        r@ == kw_symb(),
{
    let mut v: Vec<u8> = Vec::new();
    v.push('s' as u8);
    v.push('y' as u8);
    v.push('m' as u8);
    v.push('b' as u8);
    proof {
        assert(v@ =~= kw_symb());
    }
    v
}

pub fn kw_n_v() -> (r: Vec<u8>)
    ensures
        r@ == kw_n(),
{
    let mut v: Vec<u8> = Vec::new();
    v.push('n' as u8);
    proof {
        assert(v@ =~= kw_n());
    }
    v
}

pub fn kw_neg_n_v() -> (r: Vec<u8>)
    ensures
        r@ == kw_neg_n(),
{
    let mut v: Vec<u8> = Vec::new();
    v.push('-' as u8);
    v.push('n' as u8);
    proof {
        assert(v@ =~= kw_neg_n());
    }
    v
}

/// Given a field identity, returns its canonical textual name; the syntax
/// field keeps its historical label `grammar`.
pub fn enum_to_field(name: FieldType) -> (r: &'static str)
    ensures
        name == FieldType::Name ==> r@ == "name"@,
        name == FieldType::Associativity ==> r@ == "associativity"@,
        name == FieldType::Precedence ==> r@ == "precedence"@,
        name == FieldType::Meaningful ==> r@ == "meaningful"@,
        name == FieldType::Syntax ==> r@ == "grammar"@,
        name == FieldType::Parse ==> r@ == "parse"@,
        name == FieldType::Fullform ==> r@ == "fullform"@,
        name == FieldType::Error ==> r@ == "Error"@,
{
    match name {
        FieldType::Name => "name",
        FieldType::Associativity => "associativity",
        FieldType::Precedence => "precedence",
        FieldType::Meaningful => "meaningful",
        FieldType::Syntax => "grammar",
        FieldType::Parse => "parse",
        FieldType::Fullform => "fullform",
        FieldType::Error => "Error",
    }
}

/// Given a field name as bytes, returns the field identity it denotes,
/// without regard to ASCII case.
pub fn field_to_enum(name: &Vec<u8>) -> (r: FieldType)
    ensures
        r == field_kind_of(name@),
{
    let lw = crate::scan::lower_vec(name);
    if crate::scan::eq_bytes(&lw, &kw_name_v()) {
        FieldType::Name
    } else if crate::scan::eq_bytes(&lw, &kw_associativity_v()) {
        FieldType::Associativity
    } else if crate::scan::eq_bytes(&lw, &kw_precedence_v()) {
        FieldType::Precedence
    } else if crate::scan::eq_bytes(&lw, &kw_meaningful_v()) {
        FieldType::Meaningful
    } else if crate::scan::eq_bytes(&lw, &kw_syntax_v()) {
        FieldType::Syntax
    } else if crate::scan::eq_bytes(&lw, &kw_grammar_v()) {
        FieldType::Syntax
    } else if crate::scan::eq_bytes(&lw, &kw_parse_v()) {
        FieldType::Parse
    } else if crate::scan::eq_bytes(&lw, &kw_fullform_v()) {
        FieldType::Fullform
    } else {
        FieldType::Error
    }
}

/// Given an associativity keyword as bytes, returns the associativity it
/// denotes; anything unrecognized is the non-associative default.
pub fn assoc_to_enum(name: &Vec<u8>) -> (r: Associativity)
    ensures
        r == assoc_of(name@),
{
    let lw = crate::scan::lower_vec(name);
    if crate::scan::eq_bytes(&lw, &kw_left_v()) {
        Associativity::Left
    } else if crate::scan::eq_bytes(&lw, &kw_right_v()) {
        Associativity::Right
    } else if crate::scan::eq_bytes(&lw, &kw_full_v()) {
        Associativity::Full
    } else {
        Associativity::Non
    }
}

/// Given an associativity, returns its textual representation.
pub fn enum_to_assoc(name: &Associativity) -> (r: &'static str)
    ensures
        *name == Associativity::Left ==> r@ == "Left"@,
        *name == Associativity::Right ==> r@ == "Right"@,
        *name == Associativity::Full ==> r@ == "Full"@,
        *name == Associativity::Non ==> r@ == "Non"@,
{
    match name {
        Associativity::Left => "Left",
        Associativity::Right => "Right",
        Associativity::Full => "Full",
        Associativity::Non => "Non",
    }
}

/// Given a bare word, returns the pattern node it denotes: a reserved
/// metavariable name (matched without regard to case) or a generic word.
pub fn syntax_to_enum(name: &Vec<u8>) -> (r: Syntax)
    ensures
        r@ == word_pat_of(name@),
{
    let lw = crate::scan::lower_vec(name);
    if crate::scan::eq_bytes(&lw, &kw_expr_v('1' as u8)) {
        Syntax::Expr1
    } else if crate::scan::eq_bytes(&lw, &kw_expr_v('2' as u8)) {
        Syntax::Expr2
    } else if crate::scan::eq_bytes(&lw, &kw_expr_v('3' as u8)) {
        Syntax::Expr3
    } else if crate::scan::eq_bytes(&lw, &kw_expr_v('4' as u8)) {
        Syntax::Expr4
    } else if crate::scan::eq_bytes(&lw, &kw_n_v()) {
        Syntax::N
    } else if crate::scan::eq_bytes(&lw, &kw_neg_n_v()) {
        Syntax::NegN
    } else if crate::scan::eq_bytes(&lw, &kw_symb_v()) {
        Syntax::Symbol
    } else if lw.len() == 1 && lw[0] == ',' as u8 {
        proof {
            assert(lw@ =~= seq![',' as u8]);
        }
        Syntax::Comma
    } else if crate::scan::eq_bytes(&lw, &kw_nospace_v()) {
        Syntax::NoSpace
    } else {
        let w = crate::scan::subvec(name, 0, name.len());
        proof {
            assert(w@ =~= name@);
        }
        Syntax::Word(w)
    }
}

} // verus!
