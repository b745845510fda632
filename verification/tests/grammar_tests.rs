//! Tests of the field, pattern and entry parsers on their original inputs.

use opgrammar::grammar::{parse_field_name, parse_op_name, parse_syntax, parse_entry};
use opgrammar::syntax::FieldType;

#[test]
fn builtins_it_works() {
    assert_eq!(2 + 2, 4);
}

#[test]
fn errors_it_works() {
    assert_eq!(2 + 2, 4);
}

#[test]
fn evaluator_it_works() {
    assert_eq!(2 + 2, 4);
}

#[test]
fn interpreter_it_works() {
    assert_eq!(2 + 2, 4);
}

#[test]
fn symbol_table_it_works() {
    assert_eq!(2 + 2, 4);
}

#[test]
fn parse_field_name_test() {
    let input = b"name:\tMultiplyMatrix\n".to_vec();
    let result = parse_field_name(&input, 0);

    // The remainder is "\tMultiplyMatrix\n": everything after the colon.
    assert_eq!(result, Some((5, FieldType::Name)));
}

#[test]
fn parse_op_name_test1() {
    let input = b"name:\tMultiplyMatrix\n".to_vec();
    let result = parse_op_name(&input, 0);

    // The name runs up to the line break, which stays unconsumed.
    assert_eq!(result, Some((20, b"MultiplyMatrix".to_vec())));
}

#[test]
fn parse_op_name_test2() {
    let input = b"NAME: Divide\n".to_vec();
    let result = parse_op_name(&input, 0);

    assert_eq!(result, Some((12, b"Divide".to_vec())));
}

#[test]
fn parse_syntax_test1() {
    let input = b"expr1\"[[\"(expr2\",\")*\"]]\"\n".to_vec();
    let result = parse_syntax(&input, 0);

    let (rest, _) = result.expect("the pattern should parse");
    assert_eq!(rest, input.len());
}

#[test]
fn parse_syntax_test2() {
    let input = b"SubsuperscriptBox[expr1,expr2,expr3]\n".to_vec();
    let result = parse_syntax(&input, 0);

    let (rest, _) = result.expect("the pattern should parse");
    assert_eq!(rest, input.len());
}

#[test]
fn parse_syntax_test3() {
    let input = b" expr1 \"\\^\" expr2 \"\\%\" expr3".to_vec();
    let result = parse_syntax(&input, 0);

    let (rest, _) = result.expect("the pattern should parse");
    assert_eq!(rest, input.len());
}

#[test]
fn parse_entry_test() {
    let input = b"name: SubsuperscriptBox
            associativity: right
            meaningful: true
            syntax: expr1 \"\\^\" expr2 \"\\%\" expr3
            parse: SubsuperscriptBox[expr1, expr2, expr3]"
        .to_vec();
    let result = parse_entry(&input, 0);

    let (rest, record) = result.expect("the entry should parse");
    assert_eq!(rest, input.len());
    assert_eq!(record.name, b"SubsuperscriptBox".to_vec());
}
