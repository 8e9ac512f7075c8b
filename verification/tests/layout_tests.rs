use m_o::document::Document;
use m_o::options::PrintOptions;
use m_o::parse::parse_value;
use m_o::print::{render, try_render};
use m_o::value::Value;

fn options(indent: usize, columns: usize) -> PrintOptions {
    PrintOptions { indent, columns }
}

fn parsed(input: &str) -> Value {
    let (rest, value) = parse_value(input).unwrap();
    assert_eq!(rest, "");
    value
}

fn text(s: &str) -> Document {
    Document::text(s.to_string())
}

#[test]
fn scalars_are_printed_as_they_are_written() {
    let wide = options(4, 80);
    assert_eq!(render(&Value::Bool(true), &wide), "True");
    assert_eq!(render(&Value::Bool(false), &wide), "False");
    assert_eq!(render(&Value::Int(0), &wide), "0");
    assert_eq!(render(&Value::Int(-7), &wide), "-7");
    assert_eq!(render(&Value::Int(1234567890), &wide), "1234567890");
    assert_eq!(
        render(&Value::Int(i64::MAX), &wide),
        "9223372036854775807"
    );
    assert_eq!(
        render(&Value::Int(i64::MIN), &wide),
        "-9223372036854775808"
    );
    assert_eq!(render(&Value::Str("'a b'".to_string()), &wide), "'a b'");
    assert_eq!(render(&Value::Symbol("abc".to_string()), &wide), "abc");
}

#[test]
fn floats_are_printed_as_floats_are() {
    let wide = options(4, 80);
    assert_eq!(render(&Value::Float(3.14f64.to_bits()), &wide), "3.14");
    assert_eq!(render(&Value::Float(0.5f64.to_bits()), &wide), "0.5");
    assert_eq!(render(&Value::Float(1e-7f64.to_bits()), &wide), "0.0000001");
    assert_eq!(render(&Value::Float(f64::INFINITY.to_bits()), &wide), "inf");
    assert_eq!(render(&Value::Float(f64::NEG_INFINITY.to_bits()), &wide), "-inf");
    assert_eq!(render(&Value::Float(f64::NAN.to_bits()), &wide), "NaN");
    assert_eq!(
        render(&Value::Float(0x4009_21FB_5444_2D18), &wide),
        "3.141592653589793"
    );
}

#[test]
fn empty_sequences_are_their_delimiters_at_any_width() {
    for columns in [0, 1, 80] {
        let narrow = options(4, columns);
        assert_eq!(render(&Value::List(vec![]), &narrow), "[]");
        assert_eq!(render(&Value::Tuple(vec![]), &narrow), "()");
        assert_eq!(render(&Value::SetOf(vec![]), &narrow), "{}");
        assert_eq!(render(&Value::Dict(vec![]), &narrow), "{}");
        assert_eq!(
            render(&Value::Constructor("A".to_string(), vec![]), &narrow),
            "A()"
        );
    }
    assert_eq!(
        render(&parsed("{'a long key': []}"), &options(4, 10)),
        "{\n    'a long key': []\n}"
    );
}

#[test]
fn a_sequence_stays_on_one_line_as_long_as_it_fits() {
    let value = parsed("[1, 2, 3]");
    assert_eq!(render(&value, &options(4, 9)), "[1, 2, 3]");
    assert_eq!(render(&value, &options(4, 8)), "[\n    1,\n    2,\n    3\n]");
    assert_eq!(render(&value, &options(2, 8)), "[\n  1,\n  2,\n  3\n]");
    assert_eq!(render(&value, &options(0, 8)), "[\n1,\n2,\n3\n]");
}

#[test]
fn an_inner_sequence_may_fit_where_the_outer_does_not() {
    let value = parsed("{'k': (1, 2), 'l': [3, 4]}");
    assert_eq!(
        render(&value, &options(4, 18)),
        "{\n    'k': (1, 2),\n    'l': [3, 4]\n}"
    );
    assert_eq!(
        render(&value, &options(1, 10)),
        "{\n 'k': (\n  1,\n  2\n ),\n 'l': [\n  3,\n  4\n ]\n}"
    );
}

#[test]
fn what_is_printed_wide_is_read_as_the_same_value() {
    let inputs = [
        "True",
        "-12",
        "1.5",
        "'it\\'s'",
        "name",
        "[]",
        "(1)",
        "{1, 2}",
        "{}",
        "{1: {2: [3, (4, 5)]}, 'k': v}",
        "Dog(name='Pip', age=7, tags=[a, b], owner=Person(name=\"Al\"))",
        "A()",
        "[[[[[[1]]]]]]",
    ];
    let wide = options(4, 10000);
    for input in inputs {
        let value = parsed(input);
        let printed = render(&value, &wide);
        assert_eq!(printed, input);
        assert_eq!(parse_value(&printed), Ok(("", value)));
    }
}

#[test]
fn what_is_printed_narrow_is_read_as_no_value() {
    let value = parsed("[1, 2]");
    let printed = render(&value, &options(4, 2));
    assert_eq!(printed, "[\n    1,\n    2\n]");
    assert!(parse_value(&printed).is_err());
}

#[test]
fn whole_floats_are_printed_with_a_fraction() {
    let wide = options(4, 80);
    let floats: [(f64, &str); 8] = [
        (3.0, "3.0"),
        (-2.0, "-2.0"),
        (0.0, "0.0"),
        (-0.0, "-0.0"),
        (1e21, "1000000000000000000000.0"),
        (-1e16, "-10000000000000000.0"),
        (9007199254740992.0, "9007199254740992.0"),
        (1.0, "1.0"),
    ];
    for (x, text) in floats {
        let value = Value::Float(x.to_bits());
        assert_eq!(render(&value, &wide), text);
        assert_eq!(value.expanded(&wide), text);
        let (rest, read) = parse_value(text).unwrap();
        assert_eq!(rest, "");
        assert_eq!(format!("{:?}", read), format!("{:?}", value));
    }
    assert_eq!(
        render(&parsed("[1.0, 2, 3e0, {4.: 5.50}]"), &wide),
        "[1.0, 2, 3.0, {4.0: 5.5}]"
    );
}

#[test]
fn some_values_are_not_read_as_they_are_printed() {
    let wide = options(4, 10000);
    let endless = Value::Float(f64::INFINITY.to_bits());
    assert_eq!(
        parse_value(&render(&endless, &wide)),
        Ok(("", Value::Symbol("inf".to_string())))
    );
    let empty = Value::SetOf(vec![]);
    assert_eq!(parse_value(&render(&empty, &wide)), Ok(("", Value::Dict(vec![]))));
    let word = Value::Symbol("True".to_string());
    assert_eq!(parse_value(&render(&word, &wide)), Ok(("", Value::Bool(true))));
    let bare = Value::Str("abc".to_string());
    assert_eq!(
        parse_value(&render(&bare, &wide)),
        Ok(("", Value::Symbol("abc".to_string())))
    );
}

#[test]
fn printing_twice_gives_the_same_text() {
    let value = parsed("Dog(name='Pip', age=7, tags=[a, b], owner={1: 2.5})");
    for columns in [0, 5, 20, 40, 1000] {
        let options = options(3, columns);
        assert_eq!(render(&value, &options), render(&value, &options));
        let again = parsed("Dog(name='Pip',age=7,tags=[a,b],owner={1:2.5})");
        assert_eq!(render(&value, &options), render(&again, &options));
    }
}

#[test]
fn the_document_of_a_list_is_a_group_around_its_parts() {
    let value = Value::List(vec![Value::Int(1), Value::Bool(true)]);
    let doc = value.to_doc(&options(2, 80));
    let expected = text("[")
        .append(Document::soft_break())
        .nest(2)
        .append(
            text("1")
                .append(text(",").append(Document::Space))
                .append(text("True"))
                .nest(2),
        )
        .append(Document::soft_break())
        .append(text("]"))
        .group();
    assert_eq!(format!("{:?}", doc), format!("{:?}", expected));
    assert_eq!(
        format!("{:?}", Value::List(vec![]).to_doc(&options(2, 80))),
        format!("{:?}", text("[").append(text("]")).group())
    );
}

#[test]
fn documents_are_put_together_without_what_is_nothing() {
    assert_eq!(
        format!("{:?}", Document::Nil.append(text("a"))),
        format!("{:?}", text("a"))
    );
    assert_eq!(
        format!("{:?}", text("a").append(Document::Nil)),
        format!("{:?}", text("a"))
    );
    assert_eq!(
        format!("{:?}", text("a").nest(0)),
        format!("{:?}", text("a"))
    );
    assert_eq!(
        format!("{:?}", Document::Nil.nest(3)),
        format!("{:?}", Document::Nil)
    );
    assert_eq!(
        format!("{:?}", text("a").nest(3)),
        "Nest(3, Text(\"a\"))"
    );
    assert_eq!(
        format!("{:?}", Document::soft_break()),
        "FlatAlt(Newline, Nil)"
    );
}

#[test]
fn a_document_is_laid_out_flat_or_broken() {
    let doc = text("a")
        .append(Document::Space)
        .append(text("b"))
        .nest(2)
        .group();
    assert_eq!(doc.pretty(3), "a b");
    assert_eq!(doc.pretty(2), "a\n  b");
    assert_eq!(text("abc").pretty(0), "abc");
    assert_eq!(Document::Nil.pretty(10), "");
    let forced = text("a").append(Document::Newline).append(text("b")).group();
    assert_eq!(forced.pretty(100), "a\nb");
}

#[test]
fn the_extent_of_a_document_is_its_depth_and_its_bytes() {
    let doc = text("ab")
        .append(Document::Space)
        .append(text("é").nest(3))
        .nest(2)
        .group();
    assert_eq!(doc.depth(), Some(5));
    assert_eq!(doc.bytes(), Some(5));
    assert!(doc.fits_machine(80));
    assert!(!doc.fits_machine(usize::MAX));
    assert!(doc.fits_machine(isize::MAX as usize));
    assert_eq!(Document::soft_break().depth(), Some(0));
    assert_eq!(Document::soft_break().bytes(), Some(0));
}

#[test]
fn what_cannot_be_counted_is_not_laid_out() {
    let deep = text("a").nest(usize::MAX).nest(1);
    assert_eq!(deep.depth(), None);
    assert!(!deep.fits_machine(80));
    assert_eq!(deep.try_pretty(80), None);
    let far = text("a").nest(isize::MAX as usize);
    assert_eq!(far.depth(), Some(isize::MAX as usize));
    assert!(!far.fits_machine(80));
    let near = text("a").nest(isize::MAX as usize - 1);
    assert!(near.fits_machine(80));
    assert_eq!(near.try_pretty(80), Some("a".to_string()));

    let value = parsed("[[1]]");
    assert_eq!(try_render(&value, &options(usize::MAX, 80)), None);
    assert_eq!(try_render(&value, &options(4, usize::MAX)), None);
    assert_eq!(
        try_render(&value, &options(4, 80)),
        Some("[[1]]".to_string())
    );
    assert_eq!(
        try_render(&Value::Int(1), &options(usize::MAX, 80)),
        Some("1".to_string())
    );
}

#[test]
fn a_scalar_is_printed_on_one_line_at_any_width() {
    for columns in [0, 1, 3] {
        let narrow = options(4, columns);
        assert_eq!(
            render(&Value::Symbol("a_long_name".to_string()), &narrow),
            "a_long_name"
        );
        assert_eq!(render(&Value::Int(-123456789), &narrow), "-123456789");
        assert_eq!(render(&Value::Str("'a long text'".to_string()), &narrow), "'a long text'");
        assert_eq!(render(&Value::Float(0.125f64.to_bits()), &narrow), "0.125");
        let printed = render(&Value::Float(0.125f64.to_bits()), &narrow);
        assert_eq!(parse_value(&printed), Ok(("", Value::Float(0.125f64.to_bits()))));
    }
}

#[test]
fn a_value_is_laid_out_with_the_default_options() {
    let short = parsed("[1, 2, 3]");
    assert_eq!(short.to_text(), Some("[1, 2, 3]".to_string()));
    assert_eq!(short.to_text(), try_render(&short, &PrintOptions::default()));
    let exact = parsed(
        "[aaaaaaaaaaaaaaaaaaaaaaaaaaaaaaaaaaaaaa, bbbbbbbbbbbbbbbbbbbbbbbbbbbbbbbbbbbbbb]",
    );
    assert_eq!(
        exact.to_text(),
        Some(
            "[aaaaaaaaaaaaaaaaaaaaaaaaaaaaaaaaaaaaaa, bbbbbbbbbbbbbbbbbbbbbbbbbbbbbbbbbbbbbb]"
                .to_string()
        )
    );
    let long = parsed(
        "[aaaaaaaaaaaaaaaaaaaaaaaaaaaaaaaaaaaaaa, bbbbbbbbbbbbbbbbbbbbbbbbbbbbbbbbbbbbbbb]",
    );
    assert_eq!(
        long.to_text(),
        Some(
            [
                "[",
                "    aaaaaaaaaaaaaaaaaaaaaaaaaaaaaaaaaaaaaa,",
                "    bbbbbbbbbbbbbbbbbbbbbbbbbbbbbbbbbbbbbbb",
                "]",
            ]
            .join("\n")
        )
    );
    assert_eq!(Value::Dict(vec![]).to_text(), Some("{}".to_string()));
}
