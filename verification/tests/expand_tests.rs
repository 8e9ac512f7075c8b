use m_o::expand::{
    display_value, indent, write_comma_seq, write_constructor, write_dict, write_dict_key_value,
    write_kwarg,
};
use m_o::options::PrintOptions;
use m_o::parse::parse_value;
use m_o::value::Value;

fn options(indent: usize) -> PrintOptions {
    PrintOptions {
        indent,
        columns: 80,
    }
}

fn parsed(input: &str) -> Value {
    parse_value(input).unwrap().1
}

#[test]
fn indentation_is_the_level_times_the_step() {
    let mut out = String::from("x");
    indent(&mut out, 3, &options(2));
    assert_eq!(out, "x      ");
    indent(&mut out, 0, &options(2));
    assert_eq!(out, "x      ");
    indent(&mut out, 5, &options(0));
    assert_eq!(out, "x      ");
    indent(&mut out, 1, &options(4));
    assert_eq!(out, "x          ");
}

#[test]
fn scalars_are_expanded_to_themselves() {
    for input in ["True", "False", "-12", "1.5", "'a'", "abc"] {
        assert_eq!(parsed(input).expanded(&options(4)), input);
    }
}

#[test]
fn empty_sequences_are_expanded_to_their_delimiters() {
    for input in ["[]", "()", "{}", "A()"] {
        assert_eq!(parsed(input).expanded(&options(4)), input);
    }
    assert_eq!(Value::SetOf(vec![]).expanded(&options(4)), "{}");
}

#[test]
fn every_item_stands_on_a_line_with_a_comma() {
    assert_eq!(
        parsed("[1, 2]").expanded(&options(4)),
        "[\n    1,\n    2,\n]"
    );
    assert_eq!(parsed("(1)").expanded(&options(2)), "(\n  1,\n)");
    assert_eq!(parsed("{a}").expanded(&options(0)), "{\na,\n}");
}

#[test]
fn nested_values_are_indented_by_their_depth() {
    let value = parsed("[123, \"abc\", {True: [], 1: (2, x)}, Dog(name='Pip', age=7)]");
    let expected = r#"[
   123,
   "abc",
   {
      True: [],
      1: (
         2,
         x,
      ),
   },
   Dog(
      name='Pip',
      age=7,
   ),
]"#;
    assert_eq!(value.expanded(&options(3)), expected);
}

#[test]
fn the_writers_append_to_what_is_written() {
    let four = options(4);
    let mut out = String::from(">");
    write_comma_seq(&mut out, &vec![Value::Int(1)], '<', '>', 1, &four);
    assert_eq!(out, "><\n        1,\n    >");

    let mut out = String::from(">");
    write_comma_seq(&mut out, &vec![], '<', '>', 1, &four);
    assert_eq!(out, "><>");

    let mut out = String::from(">");
    write_kwarg(&mut out, &("k".to_string(), Value::Bool(true)), 0, &four);
    assert_eq!(out, ">k=True");

    let mut out = String::from(">");
    write_dict_key_value(&mut out, &(Value::Int(1), Value::List(vec![Value::Int(2)])), 1, &four);
    assert_eq!(out, ">1: [\n        2,\n    ]");

    let mut out = String::from(">");
    write_dict(&mut out, &vec![(Value::Int(1), Value::Int(2))], 0, &four);
    assert_eq!(out, ">{\n    1: 2,\n}");

    let mut out = String::from(">");
    write_constructor(
        &mut out,
        &"A".to_string(),
        &vec![("k".to_string(), Value::Int(2))],
        2,
        &four,
    );
    assert_eq!(out, ">A(\n            k=2,\n        )");

    let mut out = String::from(">");
    display_value(&mut out, &Value::Float(0.25f64.to_bits()), 7, &four);
    assert_eq!(out, ">0.25");
}

#[test]
fn levels_beyond_the_count_are_not_expanded() {
    let flat = parsed("[1, [2]]");
    assert!(flat.can_expand(0));
    assert!(flat.can_expand(usize::MAX - 2));
    assert!(!flat.can_expand(usize::MAX - 1));
    assert!(!flat.can_expand(usize::MAX));
    assert!(Value::Int(1).can_expand(usize::MAX));
    assert!(Value::List(vec![]).can_expand(usize::MAX));
    assert!(parsed("{1: A(k=2)}").can_expand(usize::MAX - 2));
    assert!(!parsed("{1: A(k=2)}").can_expand(usize::MAX - 1));
    assert!(!parsed("{(1): 2}").can_expand(usize::MAX - 1));
    assert_eq!(
        flat.try_expanded(&options(1)),
        Some("[\n 1,\n [\n  2,\n ],\n]".to_string())
    );
}
