//! End-to-end behavior of the parsers, the converters and the renderer.

use opgrammar::grammar::{
    parse_grammar_file, parse_syntax, parse_field_value, parse_number, parse_bool_option,
    parse_associativity,
};
use opgrammar::syntax::{
    Syntax, Associativity, FieldType, field_to_enum, enum_to_field, assoc_to_enum,
    enum_to_assoc, syntax_to_enum,
};
use opgrammar::errors::{EvaluationError, ParseErrorKind};
use opgrammar::symbol_table::SymbolRecord;

#[test]
fn single_name_entry_gets_defaults() {
    let input = b"name: Foo\n".to_vec();
    let records = parse_grammar_file(&input).expect("a single name field is a valid file");

    assert_eq!(records.len(), 1);
    assert_eq!(records[0].name, b"Foo".to_vec());
    assert_eq!(records[0].associativity, Associativity::Non);
    assert_eq!(records[0].precedence, 0);
    assert_eq!(records[0].meaningful, false);
    assert_eq!(records[0].syntax, Syntax::Empty);
    assert_eq!(records[0].parse, Syntax::Empty);
    assert_eq!(records[0].fullform, Syntax::Empty);
}

#[test]
fn name_keyword_is_case_insensitive() {
    let upper = parse_grammar_file(&b"NAME: Divide\n".to_vec()).expect("should parse");
    let lower = parse_grammar_file(&b"name: Divide\n".to_vec()).expect("should parse");

    assert_eq!(upper, lower);
    assert_eq!(upper[0].name, b"Divide".to_vec());
}

#[test]
fn single_token_field_collapses() {
    let input = b"expr1\n".to_vec();
    let (rest, tree) = parse_syntax(&input, 0).expect("should parse");

    assert_eq!(rest, input.len());
    assert_eq!(tree, Syntax::Expr1);
}

#[test]
fn adjacent_tokens_become_a_sequence() {
    let input = b"expr1 expr2\n".to_vec();
    let (rest, tree) = parse_syntax(&input, 0).expect("should parse");

    assert_eq!(rest, input.len());
    assert_eq!(tree, Syntax::Sequence(vec![Syntax::Expr1, Syntax::Expr2]));
}

#[test]
fn undelimited_one_plus() {
    let input = b"(expr1)+\n".to_vec();
    let (_, tree) = parse_syntax(&input, 0).expect("should parse");

    assert_eq!(tree, Syntax::OnePlus(Box::new(Syntax::Expr1)));
}

#[test]
fn delimited_one_plus() {
    let input = b"(expr1 \",\")+\n".to_vec();
    let (_, tree) = parse_syntax(&input, 0).expect("should parse");

    assert_eq!(
        tree,
        Syntax::OnePlusDelim(
            Box::new(Syntax::Expr1),
            Box::new(Syntax::Literal(b",".to_vec()))
        )
    );
}

#[test]
fn undelimited_zero_plus() {
    let input = b"(expr1)*\n".to_vec();
    let (_, tree) = parse_syntax(&input, 0).expect("should parse");

    assert_eq!(tree, Syntax::ZeroPlus(Box::new(Syntax::Expr1)));
}

#[test]
fn optional_form() {
    let input = b"(expr1)?\n".to_vec();
    let (_, tree) = parse_syntax(&input, 0).expect("should parse");

    assert_eq!(tree, Syntax::Optional(Box::new(Syntax::Expr1)));
}

#[test]
fn alternation_needs_two_alternatives() {
    let input = b"(expr1|expr2)\n".to_vec();
    let (_, tree) = parse_syntax(&input, 0).expect("should parse");

    assert_eq!(tree, Syntax::Alternative(vec![Syntax::Expr1, Syntax::Expr2]));
}

#[test]
fn application_form() {
    let input = b"SubsuperscriptBox[expr1, expr2, expr3]\n".to_vec();
    let (_, tree) = parse_syntax(&input, 0).expect("should parse");

    assert_eq!(
        tree,
        Syntax::Cons(
            Box::new(Syntax::Word(b"SubsuperscriptBox".to_vec())),
            vec![Syntax::Expr1, Syntax::Expr2, Syntax::Expr3]
        )
    );
}

#[test]
fn metavariable_tokens() {
    let cases: Vec<(&[u8], Syntax)> = vec![
        (b"nospace\n", Syntax::NoSpace),
        (b"symb\n", Syntax::Symbol),
        (b"n\n", Syntax::N),
        (b"-n\n", Syntax::NegN),
        (b",\n", Syntax::Comma),
        (b"Hello\n", Syntax::Word(b"Hello".to_vec())),
        (b"\"abc\"\n", Syntax::Literal(b"abc".to_vec())),
        (b"42\n", Syntax::Number(42)),
        (b"-3\n", Syntax::Number(-3)),
    ];
    for (text, expected) in cases {
        let input = text.to_vec();
        let (_, tree) = parse_syntax(&input, 0).expect("should parse");
        assert_eq!(tree, expected);
    }
}

#[test]
fn multi_field_entry_end_to_end() {
    let input = b"name: SubsuperscriptBox\n\
        associativity: right\n\
        meaningful: true\n\
        syntax: expr1 \"^\" expr2 \"%\" expr3\n\
        parse: SubsuperscriptBox[expr1, expr2, expr3]\n"
        .to_vec();
    let records = parse_grammar_file(&input).expect("should parse");

    assert_eq!(records.len(), 1);
    let r = &records[0];
    assert_eq!(r.name, b"SubsuperscriptBox".to_vec());
    assert_eq!(r.associativity, Associativity::Right);
    assert_eq!(r.meaningful, true);
    assert_eq!(r.precedence, 0);
    assert_eq!(
        r.syntax,
        Syntax::Sequence(vec![
            Syntax::Expr1,
            Syntax::Literal(b"^".to_vec()),
            Syntax::Expr2,
            Syntax::Literal(b"%".to_vec()),
            Syntax::Expr3,
        ])
    );
    assert_eq!(
        r.parse,
        Syntax::Cons(
            Box::new(Syntax::Word(b"SubsuperscriptBox".to_vec())),
            vec![Syntax::Expr1, Syntax::Expr2, Syntax::Expr3]
        )
    );
}

#[test]
fn two_entries_in_file_order() {
    let input = b"name: Alpha\nprecedence: 3\nname: Beta\n".to_vec();
    let records = parse_grammar_file(&input).expect("should parse");

    assert_eq!(records.len(), 2);
    assert_eq!(records[0].name, b"Alpha".to_vec());
    assert_eq!(records[0].precedence, 3);
    assert_eq!(records[1].name, b"Beta".to_vec());
    assert_eq!(records[1].precedence, 0);
}

#[test]
fn unrecognized_field_fails_the_file() {
    let input = b"name: Alpha\nbogus: true\n".to_vec();
    let err = parse_grammar_file(&input).expect_err("an unknown field must fail");

    assert_eq!(err.cause.kind, ParseErrorKind::UnrecognizedField);
    assert_eq!(err.cause.pos, 12);
}

#[test]
fn trailing_garbage_fails_the_file() {
    let input = b"name: Foo\n???\n".to_vec();
    let err = parse_grammar_file(&input).expect_err("stray text must fail");

    assert_eq!(err.cause.kind, ParseErrorKind::Syntax);
    assert_eq!(err.cause.pos, 10);
}

#[test]
fn trailing_trivia_is_accepted() {
    let input = b"name: Foo\n  # a remark\n\n".to_vec();
    let records = parse_grammar_file(&input).expect("trailing comments are fine");

    assert_eq!(records.len(), 1);
}

#[test]
fn comments_between_fields() {
    let input = b"# header\nname: Foo\n# between\nprecedence: 7 # inline\n".to_vec();
    let records = parse_grammar_file(&input).expect("comments are transparent");

    assert_eq!(records.len(), 1);
    assert_eq!(records[0].precedence, 7);
}

#[test]
fn empty_file_is_rejected() {
    assert!(parse_grammar_file(&b"".to_vec()).is_err());
    assert!(parse_grammar_file(&b"# only a comment\n".to_vec()).is_err());
}

#[test]
fn precedence_is_truncated_and_clamped() {
    let records = parse_grammar_file(&b"name: F\nprecedence: 3.7\n".to_vec()).unwrap();
    assert_eq!(records[0].precedence, 3);

    let records = parse_grammar_file(&b"name: F\nprecedence: -2\n".to_vec()).unwrap();
    assert_eq!(records[0].precedence, 0);

    let records = parse_grammar_file(&b"name: F\nprecedence: 99999999999\n".to_vec()).unwrap();
    assert_eq!(records[0].precedence, u32::MAX);
}

#[test]
fn meaningful_is_case_insensitive() {
    let records = parse_grammar_file(&b"name: F\nmeaningful: TRUE\n".to_vec()).unwrap();
    assert_eq!(records[0].meaningful, true);

    let records = parse_grammar_file(&b"name: F\nmeaningful: False\n".to_vec()).unwrap();
    assert_eq!(records[0].meaningful, false);
}

#[test]
fn associativity_keywords() {
    let cases: Vec<(&[u8], Associativity)> = vec![
        (b"name: F\nassociativity: left\n", Associativity::Left),
        (b"name: F\nassociativity: RIGHT\n", Associativity::Right),
        (b"name: F\nassociativity: full\n", Associativity::Full),
        (b"name: F\nassociativity: non\n", Associativity::Non),
        (b"name: F\nassociativity: none\n", Associativity::Non),
    ];
    for (text, expected) in cases {
        let records = parse_grammar_file(&text.to_vec()).expect("should parse");
        assert_eq!(records[0].associativity, expected);
    }
}

#[test]
fn repeated_field_last_write_wins() {
    let input = b"name: F\nprecedence: 1\nprecedence: 9\n".to_vec();
    let records = parse_grammar_file(&input).expect("should parse");

    assert_eq!(records[0].precedence, 9);
}

#[test]
fn fullform_field_holds_a_pattern() {
    let input = b"name: F\nfullform: (expr1)*\n".to_vec();
    let records = parse_grammar_file(&input).expect("should parse");

    assert_eq!(records[0].fullform, Syntax::ZeroPlus(Box::new(Syntax::Expr1)));
    assert_eq!(records[0].syntax, Syntax::Empty);
}

#[test]
fn grammar_is_an_alias_for_syntax() {
    let records = parse_grammar_file(&b"name: F\ngrammar: expr1\n".to_vec()).unwrap();
    assert_eq!(records[0].syntax, Syntax::Expr1);

    let records = parse_grammar_file(&b"name: F\nsyntax: expr1\n".to_vec()).unwrap();
    assert_eq!(records[0].syntax, Syntax::Expr1);
}

#[test]
fn scalar_value_parsers() {
    let input = b" hello\n".to_vec();
    assert_eq!(parse_field_value(&input, 0), Some((7, b"hello".to_vec())));

    let input = b" 12.9\n".to_vec();
    assert_eq!(parse_number(&input, 0), Some((6, 12)));

    let input = b" true\n".to_vec();
    assert_eq!(parse_bool_option(&input, 0), Some((6, true)));

    let input = b" left\n".to_vec();
    assert_eq!(parse_associativity(&input, 0), Some((6, Associativity::Left)));
}

#[test]
fn field_converters() {
    assert_eq!(field_to_enum(&b"SYNTAX".to_vec()), FieldType::Syntax);
    assert_eq!(field_to_enum(&b"grammar".to_vec()), FieldType::Syntax);
    assert_eq!(field_to_enum(&b"precedence".to_vec()), FieldType::Precedence);
    assert_eq!(field_to_enum(&b"name".to_vec()), FieldType::Name);
    assert_eq!(field_to_enum(&b"weird".to_vec()), FieldType::Error);

    assert_eq!(enum_to_field(FieldType::Syntax), "grammar");
    assert_eq!(enum_to_field(FieldType::Precedence), "precedence");
    assert_eq!(enum_to_field(FieldType::Name), "name");
    assert_eq!(enum_to_field(FieldType::Error), "Error");
}

#[test]
fn associativity_converters() {
    assert_eq!(assoc_to_enum(&b"LEFT".to_vec()), Associativity::Left);
    assert_eq!(assoc_to_enum(&b"full".to_vec()), Associativity::Full);
    assert_eq!(assoc_to_enum(&b"anything".to_vec()), Associativity::Non);

    assert_eq!(enum_to_assoc(&Associativity::Right), "Right");
    assert_eq!(enum_to_assoc(&Associativity::Non), "Non");
}

#[test]
fn word_converter() {
    assert_eq!(syntax_to_enum(&b"EXPR2".to_vec()), Syntax::Expr2);
    assert_eq!(syntax_to_enum(&b"nospace".to_vec()), Syntax::NoSpace);
    assert_eq!(syntax_to_enum(&b"Matrix".to_vec()), Syntax::Word(b"Matrix".to_vec()));
}

#[test]
fn rendering_is_stable_and_distinguishable() {
    assert_eq!(Syntax::Expr1.render(), b"<Expr1: expr1 >".to_vec());
    assert_eq!(Syntax::Number(-37).render(), b"<Number: -37 >".to_vec());
    assert_eq!(
        Syntax::OnePlusDelim(
            Box::new(Syntax::Expr1),
            Box::new(Syntax::Literal(b",".to_vec()))
        )
        .render(),
        b"<Plus Delim: (<Expr1: expr1 > <Literal: \",\" >)+ >".to_vec()
    );
    assert_eq!(
        Syntax::Cons(
            Box::new(Syntax::Word(b"F".to_vec())),
            vec![Syntax::Expr1, Syntax::Expr2]
        )
        .render(),
        b"<Cons: <Word: F >[<Expr1: expr1 >, <Expr2: expr2 >] >".to_vec()
    );

    // Equal trees render equally; the exercised variant pairs differ.
    let a = Syntax::OnePlus(Box::new(Syntax::Expr1));
    let b = Syntax::OnePlus(Box::new(Syntax::Expr1));
    assert_eq!(a.render(), b.render());

    let forms = vec![
        Syntax::Expr1,
        Syntax::OnePlus(Box::new(Syntax::Expr1)),
        Syntax::ZeroPlus(Box::new(Syntax::Expr1)),
        Syntax::Optional(Box::new(Syntax::Expr1)),
        Syntax::Sequence(vec![Syntax::Expr1, Syntax::Expr2]),
        Syntax::Alternative(vec![Syntax::Expr1, Syntax::Expr2]),
        Syntax::Literal(b"expr1".to_vec()),
        Syntax::Word(b"exprone".to_vec()),
        Syntax::Empty,
    ];
    for i in 0..forms.len() {
        for j in 0..forms.len() {
            if i != j {
                assert_ne!(forms[i].render(), forms[j].render());
            }
        }
    }
}

#[test]
fn record_rendering_has_stable_labels() {
    let records = parse_grammar_file(&b"name: Foo\n".to_vec()).unwrap();
    let out = records[0].render();

    let expected = b"<OpRecord{\n\tname: Foo\n\tassociativity: Non\n\tprecedence: 0\n\tmeaningful: false\n\tgrammar: <Empty >\n\tparse: <Empty >\n\tfullform: <Empty >\n} >".to_vec();
    assert_eq!(out, expected);
}

#[test]
fn evaluation_error_messages() {
    assert_eq!(EvaluationError::DivisionByZero.message(), "Division by zero");
    assert_eq!(EvaluationError::Underflow.message(), "Underflow");
    assert_eq!(EvaluationError::Overflow.message(), "Overflow");
    assert_eq!(
        EvaluationError::Message("custom".to_string()).message(),
        "custom"
    );
}

#[test]
fn symbol_record_keeps_its_name() {
    let record = SymbolRecord::new("plus".to_string());
    assert_eq!(record.name(), "plus");
}
