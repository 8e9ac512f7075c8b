use m_o::error::{ErrorKind, ParseError};
use m_o::parse::{
    parse_bool, parse_constructor, parse_dict, parse_float, parse_int, parse_list, parse_set,
    parse_str, parse_symbol, parse_tuple, parse_value,
};
use m_o::value::Value;

fn error(kind: ErrorKind, position: usize) -> ParseError {
    ParseError { kind, position }
}

fn float(x: f64) -> Value {
    Value::Float(x.to_bits())
}

fn text(s: &str) -> Value {
    Value::Str(s.to_string())
}

fn symbol(s: &str) -> Value {
    Value::Symbol(s.to_string())
}

#[test]
fn empty_braces_are_a_dictionary() {
    assert_eq!(parse_value("{}"), Ok(("", Value::Dict(vec![]))));
    assert_eq!(parse_dict("{}"), Ok(("", Value::Dict(vec![]))));
    assert_eq!(parse_set("{}"), Ok(("", Value::SetOf(vec![]))));
}

#[test]
fn numbers_are_integers_unless_they_have_a_fraction_or_an_exponent() {
    assert_eq!(Value::try_from("123"), Ok(Value::Int(123)));
    assert_eq!(Value::try_from("-123"), Ok(Value::Int(-123)));
    assert_eq!(Value::try_from("123.0"), Ok(float(123.0)));
    assert_eq!(Value::try_from("123."), Ok(float(123.0)));
    assert_eq!(Value::try_from("1e5"), Ok(float(100000.0)));
    assert_eq!(Value::try_from("1E+2"), Ok(float(100.0)));
    assert_eq!(Value::try_from("-1.5e-3"), Ok(float(-0.0015)));
    assert_eq!(Value::try_from("-0"), Ok(Value::Int(0)));
    assert_eq!(Value::try_from("007"), Ok(Value::Int(7)));
}

#[test]
fn an_exponent_needs_digits() {
    assert_eq!(parse_value("1e"), Ok(("e", Value::Int(1))));
    assert_eq!(parse_value("1e+"), Ok(("e+", Value::Int(1))));
    assert_eq!(parse_value("2.5E-x"), Ok(("E-x", float(2.5))));
}

#[test]
fn integers_reach_the_ends_of_their_range() {
    assert_eq!(
        Value::try_from("9223372036854775807"),
        Ok(Value::Int(i64::MAX))
    );
    assert_eq!(
        Value::try_from("-9223372036854775808"),
        Ok(Value::Int(i64::MIN))
    );
}

#[test]
fn integers_beyond_their_range_are_floats() {
    assert_eq!(
        Value::try_from("9223372036854775808"),
        Ok(float(9223372036854775808.0))
    );
    assert_eq!(
        Value::try_from("-9223372036854775809"),
        Ok(float(-9223372036854775809.0))
    );
    assert_eq!(
        Value::try_from("100000000000000000000"),
        Ok(float(1e20))
    );
}

#[test]
fn parse_int_takes_no_fraction() {
    assert_eq!(parse_int("12"), Ok(("", Value::Int(12))));
    assert_eq!(parse_int("12abc"), Ok(("abc", Value::Int(12))));
    assert_eq!(
        parse_int("12.5"),
        Err(error(ErrorKind::UnexpectedCharacter, 2))
    );
    assert_eq!(
        parse_int("12e3"),
        Err(error(ErrorKind::UnexpectedCharacter, 2))
    );
    assert_eq!(
        parse_int("9223372036854775808"),
        Err(error(ErrorKind::UnexpectedCharacter, 0))
    );
    assert_eq!(parse_int("x"), Err(error(ErrorKind::UnexpectedCharacter, 0)));
    assert_eq!(parse_int("-"), Err(error(ErrorKind::UnexpectedCharacter, 0)));
}

#[test]
fn parse_float_reads_every_number_as_a_float() {
    assert_eq!(parse_float("12"), Ok(("", float(12.0))));
    assert_eq!(parse_float("0.25,"), Ok((",", float(0.25))));
    assert_eq!(
        parse_float(".5"),
        Err(error(ErrorKind::UnexpectedCharacter, 0))
    );
    assert_eq!(
        parse_float("inf"),
        Err(error(ErrorKind::UnexpectedCharacter, 0))
    );
    assert_eq!(
        parse_float("+1"),
        Err(error(ErrorKind::UnexpectedCharacter, 0))
    );
}

#[test]
fn words_that_only_look_like_numbers_are_symbols() {
    assert_eq!(Value::try_from("inf"), Ok(symbol("inf")));
    assert_eq!(Value::try_from("NaN"), Ok(symbol("NaN")));
    assert_eq!(Value::try_from("None"), Ok(symbol("None")));
}

#[test]
fn booleans_are_whole_words() {
    assert_eq!(parse_bool("True"), Ok(("", Value::Bool(true))));
    assert_eq!(parse_bool("False"), Ok(("", Value::Bool(false))));
    assert_eq!(parse_bool("True, 1"), Ok((", 1", Value::Bool(true))));
    assert_eq!(parse_value("False]"), Ok(("]", Value::Bool(false))));
    assert_eq!(parse_value("True(x=1)"), Ok(("(x=1)", Value::Bool(true))));
    assert_eq!(parse_value("True é"), Ok((" é", Value::Bool(true))));
    assert_eq!(
        parse_bool("Falsehood"),
        Err(error(ErrorKind::UnexpectedCharacter, 0))
    );
    assert_eq!(
        parse_bool("True_"),
        Err(error(ErrorKind::UnexpectedCharacter, 0))
    );
    assert_eq!(
        parse_bool("True1"),
        Err(error(ErrorKind::UnexpectedCharacter, 0))
    );
    assert_eq!(
        parse_bool("Trueé"),
        Err(error(ErrorKind::UnexpectedCharacter, 0))
    );
    assert_eq!(
        parse_bool("true"),
        Err(error(ErrorKind::UnexpectedCharacter, 0))
    );
    assert_eq!(
        parse_bool("Tru"),
        Err(error(ErrorKind::UnexpectedCharacter, 0))
    );
}

#[test]
fn a_word_that_goes_on_behind_a_boolean_is_a_symbol() {
    assert_eq!(parse_value("Truest"), Ok(("", symbol("Truest"))));
    assert_eq!(parse_value("Falsehood"), Ok(("", symbol("Falsehood"))));
    assert_eq!(parse_value("True_"), Ok(("", symbol("True_"))));
    assert_eq!(parse_value("False0"), Ok(("", symbol("False0"))));
    assert_eq!(
        parse_value("[Truest, True, Falsehood]"),
        Ok((
            "",
            Value::List(vec![symbol("Truest"), Value::Bool(true), symbol("Falsehood")])
        ))
    );
    assert_eq!(
        parse_value("TrueDivision(x=1)"),
        Ok((
            "",
            Value::Constructor(
                "TrueDivision".to_string(),
                vec![("x".to_string(), Value::Int(1))]
            )
        ))
    );
}

#[test]
fn a_keyword_is_no_name() {
    assert_eq!(
        parse_symbol("True"),
        Err(error(ErrorKind::UnexpectedCharacter, 0))
    );
    assert_eq!(
        parse_symbol("False, x"),
        Err(error(ErrorKind::UnexpectedCharacter, 0))
    );
    assert_eq!(
        parse_constructor("True(x=1)"),
        Err(error(ErrorKind::UnexpectedCharacter, 0))
    );
    assert_eq!(parse_symbol("Truest"), Ok(("", symbol("Truest"))));
    assert_eq!(parse_symbol("true"), Ok(("", symbol("true"))));
    assert_eq!(
        parse_constructor("A(True=1, False=True)"),
        Ok((
            "",
            Value::Constructor(
                "A".to_string(),
                vec![
                    ("True".to_string(), Value::Int(1)),
                    ("False".to_string(), Value::Bool(true))
                ]
            )
        ))
    );
}

#[test]
fn strings_keep_their_quotes_and_escapes() {
    let literal = r#"'I hadn\'t seen it.'"#;
    assert_eq!(parse_value(literal), Ok(("", text(literal))));
    assert_eq!(parse_str("''"), Ok(("", text("''"))));
    assert_eq!(parse_str(r#""a\"b" rest"#), Ok((" rest", text(r#""a\"b""#))));
    assert_eq!(parse_str(r#"'a\"b'"#), Ok(("", text(r#"'a\"b'"#))));
    assert_eq!(parse_str("'é€'"), Ok(("", text("'é€'"))));
}

#[test]
fn a_string_that_does_not_end_is_unterminated() {
    assert_eq!(
        Value::try_from("'abc"),
        Err(error(ErrorKind::UnterminatedLiteral, 4))
    );
    assert_eq!(
        parse_str("\"abc'"),
        Err(error(ErrorKind::UnterminatedLiteral, 5))
    );
    assert_eq!(
        parse_str("'abc\\"),
        Err(error(ErrorKind::UnterminatedLiteral, 5))
    );
    assert_eq!(parse_str("'"), Err(error(ErrorKind::UnterminatedLiteral, 1)));
}

#[test]
fn a_backslash_escapes_only_what_can_be_escaped() {
    assert_eq!(
        parse_str(r#"'a\qb'"#),
        Err(error(ErrorKind::InvalidEscapeSequence, 2))
    );
    assert_eq!(
        Value::try_from(r#"["x", "\8"]"#),
        Err(error(ErrorKind::InvalidEscapeSequence, 7))
    );
    assert_eq!(parse_str(r#"'\x41\101\\'"#), Ok(("", text(r#"'\x41\101\\'"#))));
}

#[test]
fn parse_str_wants_a_quote() {
    assert_eq!(
        parse_str("abc"),
        Err(error(ErrorKind::UnexpectedCharacter, 0))
    );
    assert_eq!(parse_str(""), Err(error(ErrorKind::UnexpectedCharacter, 0)));
}

#[test]
fn identifiers_start_with_a_letter_or_an_underscore() {
    assert_eq!(parse_symbol("abc def"), Ok((" def", symbol("abc"))));
    assert_eq!(parse_symbol("_x1"), Ok(("", symbol("_x1"))));
    assert_eq!(
        parse_symbol("3d_movie"),
        Err(error(ErrorKind::EmptyIdentifier, 0))
    );
    assert_eq!(parse_symbol(""), Err(error(ErrorKind::EmptyIdentifier, 0)));
    assert_eq!(
        parse_symbol("-a"),
        Err(error(ErrorKind::EmptyIdentifier, 0))
    );
}

#[test]
fn identifiers_take_letters_and_digits_beyond_ascii() {
    assert_eq!(parse_symbol("été"), Ok(("", symbol("été"))));
    assert_eq!(parse_symbol("a٣b"), Ok(("", symbol("a٣b"))));
    assert_eq!(parse_symbol("a€b"), Ok(("€b", symbol("a"))));
    assert_eq!(
        parse_symbol("€"),
        Err(error(ErrorKind::EmptyIdentifier, 0))
    );
    assert_eq!(
        parse_symbol("٣a"),
        Err(error(ErrorKind::EmptyIdentifier, 0))
    );
    assert_eq!(Value::try_from("京"), Ok(symbol("京")));
}

#[test]
fn a_symbol_is_followed_by_no_parenthesis() {
    assert_eq!(
        parse_symbol("f(x=1)"),
        Err(error(ErrorKind::UnexpectedCharacter, 1))
    );
    assert_eq!(
        parse_value("f(1)"),
        Err(error(ErrorKind::EmptyIdentifier, 2))
    );
}

#[test]
fn sequences_may_be_empty_or_nested() {
    assert_eq!(parse_list("[]"), Ok(("", Value::List(vec![]))));
    assert_eq!(parse_tuple("()"), Ok(("", Value::Tuple(vec![]))));
    assert_eq!(
        parse_value("[(), [[]], {1}]x"),
        Ok((
            "x",
            Value::List(vec![
                Value::Tuple(vec![]),
                Value::List(vec![Value::List(vec![])]),
                Value::SetOf(vec![Value::Int(1)]),
            ])
        ))
    );
    assert_eq!(
        parse_tuple("(1)"),
        Ok(("", Value::Tuple(vec![Value::Int(1)])))
    );
}

#[test]
fn blanks_may_follow_a_comma_and_a_colon_and_stand_nowhere_else() {
    assert_eq!(
        parse_list("[1,2,\t 3,\r\n4]"),
        Ok((
            "",
            Value::List(vec![
                Value::Int(1),
                Value::Int(2),
                Value::Int(3),
                Value::Int(4)
            ])
        ))
    );
    assert_eq!(
        parse_dict("{1:2, 3:\n 4}"),
        Ok((
            "",
            Value::Dict(vec![
                (Value::Int(1), Value::Int(2)),
                (Value::Int(3), Value::Int(4))
            ])
        ))
    );
    assert_eq!(
        parse_list("[ 1]"),
        Err(error(ErrorKind::UnexpectedCharacter, 1))
    );
    assert_eq!(
        parse_list("[1 ]"),
        Err(error(ErrorKind::UnexpectedCharacter, 2))
    );
    assert_eq!(
        parse_dict("{1 : 2}"),
        Err(error(ErrorKind::UnexpectedCharacter, 2))
    );
    assert_eq!(
        parse_value(" 1"),
        Err(error(ErrorKind::UnexpectedCharacter, 0))
    );
}

#[test]
fn a_sequence_that_does_not_close_is_unterminated() {
    assert_eq!(
        parse_list("[1, 2"),
        Err(error(ErrorKind::UnterminatedLiteral, 5))
    );
    assert_eq!(
        parse_value("{1: 2"),
        Err(error(ErrorKind::UnterminatedLiteral, 5))
    );
    assert_eq!(
        parse_value("{1"),
        Err(error(ErrorKind::UnterminatedLiteral, 2))
    );
    assert_eq!(
        parse_constructor("A(x=1"),
        Err(error(ErrorKind::UnterminatedLiteral, 5))
    );
    assert_eq!(
        parse_constructor("A"),
        Err(error(ErrorKind::UnterminatedLiteral, 1))
    );
}

#[test]
fn a_comma_wants_an_item_behind_it() {
    assert_eq!(
        parse_list("[1, ]"),
        Err(error(ErrorKind::UnexpectedCharacter, 4))
    );
    assert_eq!(
        parse_list("[1,"),
        Err(error(ErrorKind::UnterminatedLiteral, 3))
    );
    assert_eq!(
        parse_list("[,]"),
        Err(error(ErrorKind::UnexpectedCharacter, 1))
    );
}

#[test]
fn the_first_item_decides_between_set_and_dictionary() {
    assert_eq!(
        parse_value("{1, 2}"),
        Ok(("", Value::SetOf(vec![Value::Int(1), Value::Int(2)])))
    );
    assert_eq!(
        parse_value("{1: 2}"),
        Ok(("", Value::Dict(vec![(Value::Int(1), Value::Int(2))])))
    );
    assert_eq!(
        parse_value("{1: 2, 3}"),
        Err(error(ErrorKind::UnexpectedCharacter, 8))
    );
    assert_eq!(
        parse_value("{1, 2: 3}"),
        Err(error(ErrorKind::UnexpectedCharacter, 5))
    );
    assert_eq!(
        parse_set("{1: 2}"),
        Err(error(ErrorKind::UnexpectedCharacter, 2))
    );
    assert_eq!(
        parse_dict("{1, 2}"),
        Err(error(ErrorKind::UnexpectedCharacter, 2))
    );
}

#[test]
fn a_failure_inside_is_the_failure_of_the_whole() {
    assert_eq!(
        parse_value("{1: 2, 3: [4 5]}"),
        Err(error(ErrorKind::UnexpectedCharacter, 12))
    );
    assert_eq!(
        parse_value("A(x=[1, 'b)"),
        Err(error(ErrorKind::UnterminatedLiteral, 11))
    );
}

#[test]
fn constructors_take_keyword_arguments() {
    assert_eq!(
        parse_constructor("A()"),
        Ok(("", Value::Constructor("A".to_string(), vec![])))
    );
    assert_eq!(
        parse_value("Point(x=1,\n      y=-2.5)"),
        Ok((
            "",
            Value::Constructor(
                "Point".to_string(),
                vec![
                    ("x".to_string(), Value::Int(1)),
                    ("y".to_string(), float(-2.5))
                ]
            )
        ))
    );
    assert_eq!(
        parse_constructor("A(1)"),
        Err(error(ErrorKind::EmptyIdentifier, 2))
    );
    assert_eq!(
        parse_constructor("A(x 1)"),
        Err(error(ErrorKind::UnexpectedCharacter, 3))
    );
    assert_eq!(
        parse_constructor("A(x= 1)"),
        Err(error(ErrorKind::UnexpectedCharacter, 4))
    );
    assert_eq!(
        parse_constructor("(x=1)"),
        Err(error(ErrorKind::EmptyIdentifier, 0))
    );
    assert_eq!(
        parse_constructor("A[x=1]"),
        Err(error(ErrorKind::UnexpectedCharacter, 1))
    );
}

#[test]
fn nothing_that_starts_no_value_is_a_value() {
    assert_eq!(parse_value(""), Err(error(ErrorKind::UnexpectedCharacter, 0)));
    assert_eq!(
        parse_value("?"),
        Err(error(ErrorKind::UnexpectedCharacter, 0))
    );
    assert_eq!(
        parse_value("-x"),
        Err(error(ErrorKind::UnexpectedCharacter, 0))
    );
    assert_eq!(
        parse_value("[1, ?]"),
        Err(error(ErrorKind::UnexpectedCharacter, 4))
    );
    assert_eq!(
        parse_list("(1)"),
        Err(error(ErrorKind::UnexpectedCharacter, 0))
    );
}

#[test]
fn positions_count_characters() {
    assert_eq!(
        parse_value("['é€', ?]"),
        Err(error(ErrorKind::UnexpectedCharacter, 7))
    );
    assert_eq!(parse_value("'é€'é"), Ok(("é", text("'é€'"))));
}

#[test]
fn the_text_behind_a_value_is_handed_back() {
    assert_eq!(parse_value("[1] and more"), Ok((" and more", Value::List(vec![Value::Int(1)]))));
    assert_eq!(Value::try_from("12 13"), Ok(Value::Int(12)));
}

#[test]
fn values_are_the_same_where_their_contents_are() {
    let a = Value::try_from("A(x=[1, 2.5, 'c', {d: (True,)}])");
    assert!(a.is_err());
    let a = Value::try_from("A(x=[1, 2.5, 'c', {d: (True, e)}])").unwrap();
    let b = Value::try_from("A(x=[1,2.5,'c',{d:(True,e)}])").unwrap();
    assert!(a.same(&b));
    assert_eq!(a, b);
    let c = Value::try_from("A(x=[1, 2.5, 'c', {d: (True, f)}])").unwrap();
    assert!(!a.same(&c));
    assert_ne!(a, c);
    assert_ne!(Value::Int(1), float(1.0));
    assert_ne!(Value::List(vec![]), Value::Tuple(vec![]));
    assert_ne!(
        Value::List(vec![Value::Int(1)]),
        Value::List(vec![Value::Int(1), Value::Int(1)])
    );
    assert_ne!(text("'a'"), symbol("'a'"));
    assert_eq!(float(0.5), float(0.5));
}

#[test]
fn a_copy_of_a_value_is_the_same_value() {
    let value = Value::try_from("A(x=[1, 2.5, 'c', {d: (True, e)}, {f}])").unwrap();
    let copy = value.clone();
    assert_eq!(copy, value);
    assert!(copy.same(&value));
    assert_eq!(format!("{:?}", copy), format!("{:?}", value));
}

#[test]
fn the_end_of_the_text_within_brackets_is_unterminated() {
    let inputs = [
        ("[", 1),
        ("(", 1),
        ("{", 1),
        ("[1,", 3),
        ("[1, ", 4),
        ("{1:", 3),
        ("{1: ", 4),
        ("{1: 2,", 6),
        ("{1,", 3),
        ("A(", 2),
        ("A(x=", 4),
        ("A(x=1, ", 7),
        ("A(x", 3),
        ("[[", 2),
        ("[A(x=(", 6),
    ];
    for (input, position) in inputs {
        assert_eq!(
            parse_value(input),
            Err(error(ErrorKind::UnterminatedLiteral, position)),
            "{}",
            input
        );
    }
    assert_eq!(
        parse_value(""),
        Err(error(ErrorKind::UnexpectedCharacter, 0))
    );
    assert_eq!(
        parse_list(""),
        Err(error(ErrorKind::UnexpectedCharacter, 0))
    );
    assert_eq!(
        parse_value("[1, ?"),
        Err(error(ErrorKind::UnexpectedCharacter, 4))
    );
    assert_eq!(
        parse_value("A(1"),
        Err(error(ErrorKind::EmptyIdentifier, 2))
    );
}
