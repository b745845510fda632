//! Canonical human-readable rendering of patterns and operator records,
//! used for diagnostics and tests. Rendering is not a serialization
//! format, but structurally equal trees render identically, and each
//! variant's form is distinguishable.

use vstd::prelude::*;
use vstd::string::StringSliceAdditionalSpecFns;
use vstd::string::StrSliceExecFns;
use crate::syntax::{Syntax, Pat, OpRecord, RecordV, Associativity, pat_of, pats_of};

verus! {

broadcast use
    vstd::std_specs::vec::axiom_vec_index_decreases,
    Seq::group_seq_flatten;

/// The decimal digits of a non-negative value.
pub open spec fn spec_udec(n: int) -> Seq<u8>
    decreases n,
{
    if n <= 9 {
        seq![
            (48 + (if n < 0 {
                0
            } else {
                n
            })) as u8,
        ]
    } else {
        spec_udec(n / 10).push((48 + n % 10) as u8)
    }
}

/// The decimal digits of a signed value, with a leading minus sign when
/// negative.
pub open spec fn spec_idec(n: int) -> Seq<u8> {
    if n < 0 {
        seq!['-' as u8] + spec_udec(-n)
    } else {
        spec_udec(n)
    }
}

/// The rendering of one pattern node: a `<`-and-`>`-wrapped tag naming
/// the variant, with the children rendered inline.
pub open spec fn spec_render(p: Pat) -> Seq<u8>
    decreases p, 0int,
{
    match p {
        Pat::Expr1 => ("<Expr1: expr1 >").spec_bytes(),
        Pat::Expr2 => ("<Expr2: expr2 >").spec_bytes(),
        Pat::Expr3 => ("<Expr3: expr3 >").spec_bytes(),
        Pat::Expr4 => ("<Expr4: expr4 >").spec_bytes(),
        Pat::N => ("<N: n >").spec_bytes(),
        Pat::NegN => ("<NegN: -n >").spec_bytes(),
        Pat::Symbol => ("<Symbol: symb >").spec_bytes(),
        Pat::Comma => ("<, >").spec_bytes(),
        Pat::NoSpace => ("<NoSpace: nospace >").spec_bytes(),
        Pat::Newline => ("<\n\tNewline\n >").spec_bytes(),
        Pat::Word(w) => ("<Word: ").spec_bytes() + w + (" >").spec_bytes(),
        Pat::NamedChar(w) => ("<NamedChar: ").spec_bytes() + w + (" >").spec_bytes(),
        Pat::Number(n) => ("<Number: ").spec_bytes() + spec_idec(n) + (" >").spec_bytes(),
        Pat::OnePlus(e) => ("<Plus: (").spec_bytes() + spec_render(*e) + (")+ >").spec_bytes(),
        Pat::OnePlusDelim(e, d) => ("<Plus Delim: (").spec_bytes() + spec_render(*e) + (
        " ").spec_bytes() + spec_render(*d) + (")+ >").spec_bytes(),
        Pat::ZeroPlus(e) => ("<Star: (").spec_bytes() + spec_render(*e) + (")* >").spec_bytes(),
        Pat::ZeroPlusDelim(e, d) => ("<Star Delim: (").spec_bytes() + spec_render(*e) + (
        " ").spec_bytes() + spec_render(*d) + (")* >").spec_bytes(),
        Pat::Optional(e) => ("<Opt: (").spec_bytes() + spec_render(*e) + (")? >").spec_bytes(),
        Pat::Literal(w) => ("<Literal: \"").spec_bytes() + w + ("\" >").spec_bytes(),
        Pat::Cons(h, args) => ("<Cons: ").spec_bytes() + spec_render(*h) + ("[").spec_bytes()
            + spec_render_list(args, (", ").spec_bytes()) + ("] >").spec_bytes(),
        Pat::SequenceDelim(l) => ("<Sequence Delim: ").spec_bytes() + spec_render_list(
            l,
            (", ").spec_bytes(),
        ) + (" >").spec_bytes(),
        Pat::Sequence(l) => ("<Sequence: ").spec_bytes() + spec_render_list(
            l,
            (" ").spec_bytes(),
        ) + (" >").spec_bytes(),
        Pat::Alternative(l) => ("<Alt: (").spec_bytes() + spec_render_list(
            l,
            (" | ").spec_bytes(),
        ) + (") >").spec_bytes(),
        Pat::Empty => ("<Empty >").spec_bytes(),
    }
}

/// The renderings of a list of pattern nodes, joined by `sep`.
pub open spec fn spec_render_list(ps: Seq<Pat>, sep: Seq<u8>) -> Seq<u8>
    decreases ps, 1int,
{
    if ps.len() == 0 {
        Seq::empty()
    } else if ps.len() == 1 {
        spec_render(ps[0])
    } else {
        spec_render(ps[0]) + sep + spec_render_list(ps.drop_first(), sep)
    }
}

/// The rendering of an operator record: every field under its stable
/// label, in the order name, associativity, precedence, meaningful,
/// grammar, parse, fullform.
pub open spec fn spec_render_record(r: RecordV) -> Seq<u8> {
    ("<OpRecord{\n\tname: ").spec_bytes() + r.name + ("\n\tassociativity: ").spec_bytes()
        + spec_assoc_name(r.associativity) + ("\n\tprecedence: ").spec_bytes() + spec_udec(
        r.precedence as int,
    ) + ("\n\tmeaningful: ").spec_bytes() + (if r.meaningful {
        ("true").spec_bytes()
    } else {
        ("false").spec_bytes()
    }) + ("\n\tgrammar: ").spec_bytes() + spec_render(r.syntax) + ("\n\tparse: ").spec_bytes()
        + spec_render(r.parse) + ("\n\tfullform: ").spec_bytes() + spec_render(r.fullform) + (
    "\n} >").spec_bytes()
}

/// The textual name of an associativity.
pub open spec fn spec_assoc_name(a: Associativity) -> Seq<u8> {
    match a {
        Associativity::Left => ("Left").spec_bytes(),
        Associativity::Right => ("Right").spec_bytes(),
        Associativity::Full => ("Full").spec_bytes(),
        Associativity::Non => ("Non").spec_bytes(),
    }
}

/// Relies on itertools::concat: concatenates the given vectors in order;
/// an empty list yields the empty default.
#[verifier::external_body]
fn concat_chunks(parts: Vec<Vec<u8>>) -> (r: Vec<u8>)
    ensures
        r@ == parts@.map_values(|p: Vec<u8>| p@).flatten(),
{
    itertools::concat(parts)
}

/// Concatenates three byte vectors.
fn concat3(a: Vec<u8>, b: Vec<u8>, c: Vec<u8>) -> (r: Vec<u8>)
    ensures
        r@ == a@ + b@ + c@,
{
    let ghost ga = a@;
    let ghost gb = b@;
    let ghost gc = c@;
    let mut parts: Vec<Vec<u8>> = Vec::new();
    parts.push(a);
    parts.push(b);
    parts.push(c);
    proof {
        let m = parts@.map_values(|p: Vec<u8>| p@);
        assert(m =~= Seq::<Seq<u8>>::empty().push(ga).push(gb).push(gc));
        assert(Seq::<Seq<u8>>::empty().flatten() =~= Seq::<u8>::empty());
        assert(m.flatten() =~= ga + gb + gc);
    }
    concat_chunks(parts)
}

/// Concatenates five byte vectors.
fn concat5(a: Vec<u8>, b: Vec<u8>, c: Vec<u8>, d: Vec<u8>, e: Vec<u8>) -> (r: Vec<u8>)
    ensures
        r@ == a@ + b@ + c@ + d@ + e@,
{
    let ghost ga = a@;
    let ghost gb = b@;
    let ghost gc = c@;
    let ghost gd = d@;
    let ghost ge = e@;
    let mut parts: Vec<Vec<u8>> = Vec::new();
    parts.push(a);
    parts.push(b);
    parts.push(c);
    parts.push(d);
    parts.push(e);
    proof {
        let m = parts@.map_values(|p: Vec<u8>| p@);
        assert(m =~= Seq::<Seq<u8>>::empty().push(ga).push(gb).push(gc).push(gd).push(ge));
        assert(Seq::<Seq<u8>>::empty().flatten() =~= Seq::<u8>::empty());
        assert(m.flatten() =~= ga + gb + gc + gd + ge);
    }
    concat_chunks(parts)
}

/// A fresh copy of a byte vector.
fn copy_bytes(w: &Vec<u8>) -> (r: Vec<u8>)
    ensures
        r@ == w@,
{
    let r = crate::scan::subvec(w, 0, w.len());
    proof {
        assert(r@ =~= w@);
    }
    r
}

/// The bytes of a literal label.
fn lit_bytes(t: &str) -> (r: Vec<u8>)
    ensures
        r@ == t.spec_bytes(),
{
    t.as_bytes_vec()
}

/// The decimal digits of an unsigned value.
fn u32_dec(n: u32) -> (r: Vec<u8>)
    ensures
        r@ == spec_udec(n as int),
    decreases n,
{
    if n <= 9 {
        let mut v: Vec<u8> = Vec::new();
        v.push(48 + (n as u8));
        proof {
            assert(v@ =~= spec_udec(n as int));
        }
        v
    } else {
        let mut v = u32_dec(n / 10);
        v.push(48 + ((n % 10) as u8));
        v
    }
}

/// The decimal digits of a signed value.
fn i32_dec(n: i32) -> (r: Vec<u8>)
    ensures
        r@ == spec_idec(n as int),
{
    if n < 0 {
        let m: u32 = if n == -2147483648i32 {
            2147483648u32
        } else {
            (-n) as u32
        };
        let mut v: Vec<u8> = Vec::new();
        v.push(45);
        let mut d = u32_dec(m);
        v.append(&mut d);
        proof {
            assert(seq!['-' as u8] =~= seq![45u8]);
            assert(v@ =~= seq!['-' as u8] + spec_udec(m as int));
        }
        v
    } else {
        u32_dec(n as u32)
    }
}

impl Syntax {
    /// Renders this pattern in its canonical diagnostic form.
    #[verifier::rlimit(60)]
    pub fn render(&self) -> (r: Vec<u8>)
        ensures
            r@ == spec_render(self@),
        decreases self, 0int, 0int,
    {
        match self {
            Syntax::Expr1 => lit_bytes("<Expr1: expr1 >"),
            Syntax::Expr2 => lit_bytes("<Expr2: expr2 >"),
            Syntax::Expr3 => lit_bytes("<Expr3: expr3 >"),
            Syntax::Expr4 => lit_bytes("<Expr4: expr4 >"),
            Syntax::N => lit_bytes("<N: n >"),
            Syntax::NegN => lit_bytes("<NegN: -n >"),
            Syntax::Symbol => lit_bytes("<Symbol: symb >"),
            Syntax::Comma => lit_bytes("<, >"),
            Syntax::NoSpace => lit_bytes("<NoSpace: nospace >"),
            Syntax::Newline => lit_bytes("<\n\tNewline\n >"),
            Syntax::Word(w) => concat3(
                lit_bytes("<Word: "),
                copy_bytes(w),
                lit_bytes(" >"),
            ),
            Syntax::NamedChar(w) => concat3(
                lit_bytes("<NamedChar: "),
                copy_bytes(w),
                lit_bytes(" >"),
            ),
            Syntax::Number(n) => concat3(lit_bytes("<Number: "), i32_dec(*n), lit_bytes(" >")),
            Syntax::OnePlus(e) => concat3(lit_bytes("<Plus: ("), e.render(), lit_bytes(")+ >")),
            Syntax::OnePlusDelim(e, d) => concat5(
                lit_bytes("<Plus Delim: ("),
                e.render(),
                lit_bytes(" "),
                d.render(),
                lit_bytes(")+ >"),
            ),
            Syntax::ZeroPlus(e) => concat3(
                lit_bytes("<Star: ("),
                e.render(),
                lit_bytes(")* >"),
            ),
            Syntax::ZeroPlusDelim(e, d) => concat5(
                lit_bytes("<Star Delim: ("),
                e.render(),
                lit_bytes(" "),
                d.render(),
                lit_bytes(")* >"),
            ),
            Syntax::Optional(e) => concat3(lit_bytes("<Opt: ("), e.render(), lit_bytes(")? >")),
            Syntax::Literal(w) => concat3(
                lit_bytes("<Literal: \""),
                copy_bytes(w),
                lit_bytes("\" >"),
            ),
            Syntax::Cons(h, args) => {
                let jr = join_rendered(args, 0, ", ");
                proof {
                    assert(pats_of(*args, args.len() as int).skip(0) =~= pats_of(
                        *args,
                        args.len() as int,
                    ));
                }
                concat5(lit_bytes("<Cons: "), h.render(), lit_bytes("["), jr, lit_bytes("] >"))
            },
            Syntax::SequenceDelim(l) => {
                let jr = join_rendered(l, 0, ", ");
                proof {
                    assert(pats_of(*l, l.len() as int).skip(0) =~= pats_of(*l, l.len() as int));
                }
                concat3(lit_bytes("<Sequence Delim: "), jr, lit_bytes(" >"))
            },
            Syntax::Sequence(l) => {
                let jr = join_rendered(l, 0, " ");
                proof {
                    assert(pats_of(*l, l.len() as int).skip(0) =~= pats_of(*l, l.len() as int));
                }
                concat3(lit_bytes("<Sequence: "), jr, lit_bytes(" >"))
            },
            Syntax::Alternative(l) => {
                let jr = join_rendered(l, 0, " | ");
                proof {
                    assert(pats_of(*l, l.len() as int).skip(0) =~= pats_of(*l, l.len() as int));
                }
                concat3(lit_bytes("<Alt: ("), jr, lit_bytes(") >"))
            },
            Syntax::Empty => lit_bytes("<Empty >"),
        }
    }
}

/// Renders the children from `from` onward, joined by `sep`.
fn join_rendered(children: &Vec<Syntax>, from: usize, sep: &str) -> (r: Vec<u8>)
    requires
        from <= children.len(),
    ensures
        r@ == spec_render_list(
            pats_of(*children, children.len() as int).skip(from as int),
            sep.spec_bytes(),
        ),
    decreases children, 1int, children.len() - from,
{
    let ghost all = pats_of(*children, children.len() as int);
    proof {
        crate::syntax::lemma_pats_of_len(*children, children.len() as int);
    }
    if from >= children.len() {
        let v: Vec<u8> = Vec::new();
        proof {
            assert(all.skip(from as int) =~= Seq::<Pat>::empty());
        }
        v
    } else if from + 1 == children.len() {
        let r = children[from].render();
        proof {
            assert(all.skip(from as int).len() == 1);
            assert(all.skip(from as int)[0] == pat_of(children[from as int]));
        }
        r
    } else {
        let head = children[from].render();
        let sep_b = lit_bytes(sep);
        let rest = join_rendered(children, from + 1, sep);
        proof {
            let sk = all.skip(from as int);
            assert(sk.len() >= 2);
            assert(sk[0] == pat_of(children[from as int]));
            assert(sk.drop_first() =~= all.skip(from as int + 1));
        }
        concat3(head, sep_b, rest)
    }
}

impl OpRecord {
    /// Renders this record in its canonical diagnostic form: every field
    /// under its stable label.
    #[verifier::rlimit(100)]
    #[verifier::spinoff_prover]
    pub fn render(&self) -> (r: Vec<u8>)
        ensures
            r@ == spec_render_record(self@),
    {
        let assoc = match self.associativity {
            Associativity::Left => lit_bytes("Left"),
            Associativity::Right => lit_bytes("Right"),
            Associativity::Full => lit_bytes("Full"),
            Associativity::Non => lit_bytes("Non"),
        };
        let meaningful = if self.meaningful {
            lit_bytes("true")
        } else {
            lit_bytes("false")
        };
        let head = concat5(
            lit_bytes("<OpRecord{\n\tname: "),
            copy_bytes(&self.name),
            lit_bytes("\n\tassociativity: "),
            assoc,
            lit_bytes("\n\tprecedence: "),
        );
        let mid = concat5(
            u32_dec(self.precedence),
            lit_bytes("\n\tmeaningful: "),
            meaningful,
            lit_bytes("\n\tgrammar: "),
            self.syntax.render(),
        );
        let tail = concat5(
            lit_bytes("\n\tparse: "),
            self.parse.render(),
            lit_bytes("\n\tfullform: "),
            self.fullform.render(),
            lit_bytes("\n} >"),
        );
        concat3(head, mid, tail)
    }
}

/// Structurally equal trees render identically: the rendering is a
/// function of the tree's mathematical shape alone. (Rendering is not
/// required to be injective over all trees; the variants the test suite
/// exercises render distinguishably.)
pub proof fn lemma_equal_trees_render_equal(a: Syntax, b: Syntax)
    requires
        a@ == b@,
    ensures
        spec_render(a@) == spec_render(b@),
{
}

} // verus!
