use m_o::floats::{finite, floats_close, EPSILON_BITS};
use m_o::value::Value;

fn float(x: f64) -> Value {
    Value::Float(x.to_bits())
}

#[test]
fn floats_are_equal_within_the_machine_epsilon() {
    assert_eq!(float(0.1 + 0.2), float(0.3));
    assert_ne!((0.1f64 + 0.2).to_bits(), 0.3f64.to_bits());
    assert_eq!(float(1.0), float(1.0 + f64::EPSILON));
    assert_ne!(float(1.0), float(1.0 + 2.0 * f64::EPSILON));
    assert_eq!(float(0.0), float(-0.0));
    assert_eq!(float(0.0), float(f64::EPSILON));
    assert_eq!(float(-f64::EPSILON / 2.0), float(f64::EPSILON / 2.0));
    assert_ne!(float(-f64::EPSILON), float(f64::EPSILON));
    assert_ne!(float(1.0), float(2.0));
    assert_eq!(float(1e300), float(1e300));
    assert_ne!(float(f64::MAX), float(-f64::MAX));
}

#[test]
fn what_is_not_finite_is_equal_to_nothing() {
    assert_ne!(float(f64::INFINITY), float(f64::INFINITY));
    assert_ne!(float(f64::NEG_INFINITY), float(f64::INFINITY));
    assert_ne!(float(f64::NAN), float(f64::NAN));
    assert_ne!(float(f64::NAN), float(0.0));
    assert_ne!(float(f64::INFINITY), float(f64::MAX));
    assert!(finite(f64::MAX.to_bits()));
    assert!(finite(0));
    assert!(finite((-f64::MIN_POSITIVE).to_bits()));
    assert!(!finite(f64::INFINITY.to_bits()));
    assert!(!finite(f64::NEG_INFINITY.to_bits()));
    assert!(!finite(f64::NAN.to_bits()));
}

#[test]
fn the_bits_of_the_machine_epsilon_are_its_bits() {
    assert_eq!(EPSILON_BITS, f64::EPSILON.to_bits());
}

#[test]
fn closeness_is_that_of_the_difference() {
    let samples: [f64; 24] = [
        0.0,
        -0.0,
        f64::EPSILON,
        -f64::EPSILON,
        f64::EPSILON / 2.0,
        f64::EPSILON * 1.5,
        f64::EPSILON * 2.0,
        f64::MIN_POSITIVE,
        5e-324,
        0.1,
        0.2,
        0.3,
        0.1 + 0.2,
        1.0,
        1.0 + f64::EPSILON,
        1.0 - f64::EPSILON,
        -1.0,
        123.456,
        1e300,
        f64::MAX,
        -f64::MAX,
        f64::INFINITY,
        f64::NEG_INFINITY,
        f64::NAN,
    ];
    for x in samples {
        for y in samples {
            let expected = (x - y).abs() <= f64::EPSILON;
            assert_eq!(floats_close(x.to_bits(), y.to_bits()), expected, "{} {}", x, y);
            assert_eq!(float(x) == float(y), expected, "{} {}", x, y);
        }
    }
    let mut state: u64 = 0x2545F4914F6CDD1D;
    for _ in 0..200000 {
        state ^= state << 13;
        state ^= state >> 7;
        state ^= state << 17;
        let a = state;
        state ^= state << 13;
        state ^= state >> 7;
        state ^= state << 17;
        let b = if state % 3 == 0 { a ^ (state >> 60) } else { state };
        let (x, y) = (f64::from_bits(a), f64::from_bits(b));
        assert_eq!(floats_close(a, b), (x - y).abs() <= f64::EPSILON);
    }
}

#[test]
fn values_are_equal_where_their_parts_are() {
    let a = Value::List(vec![
        float(0.1 + 0.2),
        Value::Dict(vec![(float(1.0), Value::Tuple(vec![float(0.3)]))]),
        Value::Constructor("P".to_string(), vec![("x".to_string(), float(0.3))]),
    ]);
    let b = Value::List(vec![
        float(0.3),
        Value::Dict(vec![(float(1.0 + f64::EPSILON), Value::Tuple(vec![float(0.1 + 0.2)]))]),
        Value::Constructor("P".to_string(), vec![("x".to_string(), float(0.1 + 0.2))]),
    ]);
    assert_eq!(a, b);
    assert!(a.same(&b));
    let c = Value::List(vec![
        float(0.3),
        Value::Dict(vec![(float(1.5), Value::Tuple(vec![float(0.3)]))]),
        Value::Constructor("P".to_string(), vec![("x".to_string(), float(0.3))]),
    ]);
    assert_ne!(a, c);
    let d = Value::List(vec![
        float(0.3),
        Value::Dict(vec![(float(1.0), Value::Tuple(vec![float(0.3)]))]),
        Value::Constructor("P".to_string(), vec![("y".to_string(), float(0.3))]),
    ]);
    assert_ne!(a, d);
    assert_ne!(Value::Int(1), float(1.0));
    assert_ne!(Value::SetOf(vec![float(1.0)]), Value::List(vec![float(1.0)]));
}
