use m_o::document::Document;
use m_o::options::PrintOptions;
use m_o::parse::parse_value;
use m_o::print::render;
use m_o::value::Value;

/// A small generator of numbers, the same on every run.
struct Numbers(u64);

impl Numbers {
    fn next(&mut self) -> u64 {
        self.0 ^= self.0 << 13;
        self.0 ^= self.0 >> 7;
        self.0 ^= self.0 << 17;
        self.0
    }

    fn below(&mut self, bound: u64) -> u64 {
        self.next() % bound
    }
}

fn flat_text(doc: &Document, out: &mut String) {
    match doc {
        Document::Nil => {}
        Document::Text(s) => out.push_str(s),
        Document::Space => out.push(' '),
        Document::Newline => out.push('\n'),
        Document::Append(a, b) => {
            flat_text(a, out);
            flat_text(b, out);
        }
        Document::FlatAlt(_, b) => flat_text(b, out),
        Document::Nest(_, d) => flat_text(d, out),
        Document::Group(d) => flat_text(d, out),
    }
}

fn breaks_when_flat(doc: &Document) -> bool {
    match doc {
        Document::Newline => true,
        Document::Append(a, b) => breaks_when_flat(a) || breaks_when_flat(b),
        Document::FlatAlt(_, b) => breaks_when_flat(b),
        Document::Nest(_, d) => breaks_when_flat(d),
        Document::Group(d) => breaks_when_flat(d),
        _ => false,
    }
}

fn some_document(numbers: &mut Numbers, depth: u32) -> Document {
    let kinds = if depth == 0 { 4 } else { 8 };
    match numbers.below(kinds) {
        0 => Document::Nil,
        1 => {
            let texts = ["a", "bc", "é", "", "x y", "€uro"];
            Document::Text(texts[numbers.below(6) as usize].to_string())
        }
        2 => Document::Space,
        3 => Document::Newline,
        4 => Document::Append(
            Box::new(some_document(numbers, depth - 1)),
            Box::new(some_document(numbers, depth - 1)),
        ),
        5 => Document::FlatAlt(
            Box::new(some_document(numbers, depth - 1)),
            Box::new(some_document(numbers, depth - 1)),
        ),
        6 => Document::Nest(
            numbers.below(5) as usize,
            Box::new(some_document(numbers, depth - 1)),
        ),
        _ => Document::Group(Box::new(some_document(numbers, depth - 1))),
    }
}

#[test]
fn a_group_that_fits_is_laid_out_on_its_single_line() {
    let mut numbers = Numbers(0x2545F4914F6CDD1D);
    let mut met = 0;
    for _ in 0..20000 {
        let inner = some_document(&mut numbers, 4);
        let mut line = String::new();
        flat_text(&inner, &mut line);
        let forced = breaks_when_flat(&inner);
        let doc = Document::Group(Box::new(inner));
        for width in [line.len(), line.len() + 1, line.len() + 7, 1000] {
            if !forced {
                assert_eq!(doc.pretty(width), line);
                met += 1;
            }
        }
        assert_eq!(doc.pretty(width_of(&doc)), doc.pretty(width_of(&doc)));
    }
    assert!(met > 1000);
}

fn width_of(doc: &Document) -> usize {
    let mut line = String::new();
    flat_text(doc, &mut line);
    line.len() / 2
}

fn some_rigid_document(numbers: &mut Numbers, depth: u32) -> Document {
    let kinds = if depth == 0 { 2 } else { 5 };
    match numbers.below(kinds) {
        0 => Document::Nil,
        1 => {
            let texts = ["a", "bc", "é", "", "x y", "€uro"];
            Document::Text(texts[numbers.below(6) as usize].to_string())
        }
        2 => Document::Append(
            Box::new(some_rigid_document(numbers, depth - 1)),
            Box::new(some_rigid_document(numbers, depth - 1)),
        ),
        3 => Document::Nest(
            numbers.below(5) as usize,
            Box::new(some_rigid_document(numbers, depth - 1)),
        ),
        _ => Document::Group(Box::new(some_rigid_document(numbers, depth - 1))),
    }
}

#[test]
fn a_document_that_cannot_be_broken_is_laid_out_as_its_texts() {
    let mut numbers = Numbers(0xD1B54A32D192ED03);
    for _ in 0..20000 {
        let doc = some_rigid_document(&mut numbers, 5);
        let mut line = String::new();
        flat_text(&doc, &mut line);
        for width in [0, 1, line.len() / 2, line.len(), 1000] {
            assert_eq!(doc.pretty(width), line);
        }
    }
}

#[test]
fn a_text_is_laid_out_as_it_is() {
    for text in ["", "a", "a b", "line\nbreak", "é€"] {
        for width in [0, 1, 80] {
            assert_eq!(Document::Text(text.to_string()).pretty(width), text);
        }
    }
}

fn some_name(numbers: &mut Numbers) -> String {
    let names = [
        "a", "_", "x1", "name", "Dog", "été", "T", "Fal", "tRUE", "_9", "Truest", "Falsehood",
        "True_", "False1",
    ];
    names[numbers.below(14) as usize].to_string()
}

fn some_value(numbers: &mut Numbers, depth: u32) -> Value {
    let kinds = if depth == 0 { 5 } else { 10 };
    let count = numbers.below(4) as usize;
    match numbers.below(kinds) {
        0 => Value::Bool(numbers.below(2) == 0),
        1 => Value::Int(numbers.next() as i64 >> numbers.below(64)),
        2 => {
            let floats: [f64; 12] = [
                0.5, -1.25, 3.14, 1e-7, 123456.789, -0.001, 2.5e300, 3.0, -2.0, 0.0, -0.0, 1e21,
            ];
            Value::Float(floats[numbers.below(12) as usize].to_bits())
        }
        3 => {
            let texts = ["''", "\"\"", "'a b'", "\"it's\"", "'\\n\\''", "'é'", "\"[1, 2]\""];
            Value::Str(texts[numbers.below(7) as usize].to_string())
        }
        4 => Value::Symbol(some_name(numbers)),
        5 => Value::List((0..count).map(|_| some_value(numbers, depth - 1)).collect()),
        6 => Value::Tuple((0..count).map(|_| some_value(numbers, depth - 1)).collect()),
        7 => Value::SetOf((0..count + 1).map(|_| some_value(numbers, depth - 1)).collect()),
        8 => Value::Dict(
            (0..count)
                .map(|_| (some_value(numbers, depth - 1), some_value(numbers, depth - 1)))
                .collect(),
        ),
        _ => Value::Constructor(
            some_name(numbers),
            (0..count)
                .map(|_| (some_name(numbers), some_value(numbers, depth - 1)))
                .collect(),
        ),
    }
}

#[test]
fn what_is_printed_on_one_line_is_read_as_the_same_value() {
    let mut numbers = Numbers(0x9E3779B97F4A7C15);
    let wide = PrintOptions {
        indent: 4,
        columns: 1_000_000,
    };
    for _ in 0..3000 {
        let value = some_value(&mut numbers, 4);
        let printed = render(&value, &wide);
        assert!(!printed.contains('\n') || printed.contains("\\n"));
        let (rest, read) = parse_value(&printed).unwrap();
        assert_eq!(rest, "");
        assert_eq!(format!("{:?}", read), format!("{:?}", value));
        assert_eq!(render(&value.clone(), &wide), printed);
    }
}
