use ray1week::error::ParseCause;
use ray1week::number::{check_float, parse_int, FloatError, IntError, Number};
use ray1week::text::chars_of;
use std::num::IntErrorKind;

fn std_int(s: &str) -> Result<isize, IntError> {
    s.parse::<isize>().map_err(|e| match e.kind() {
        IntErrorKind::Empty => IntError::Empty,
        IntErrorKind::InvalidDigit => IntError::InvalidDigit,
        IntErrorKind::PosOverflow => IntError::PosOverflow,
        IntErrorKind::NegOverflow => IntError::NegOverflow,
        other => panic!("unexpected kind {:?}", other),
    })
}

const INDEX_SAMPLES: [&str; 34] = [
    "",
    "0",
    "1",
    "-1",
    "+1",
    "+",
    "-",
    "+-1",
    "--1",
    "12",
    "0012",
    "-0",
    "1 ",
    " 1",
    "1.0",
    "1e3",
    "x",
    "12x",
    "\u{661}",
    "9223372036854775807",
    "9223372036854775808",
    "-9223372036854775808",
    "-9223372036854775809",
    "99999999999999999999",
    "-99999999999999999999",
    "99999999999999999999x",
    "9999999999999999999x9",
    "x99999999999999999999",
    "00000000000000000000000000000000007",
    "2147483647",
    "2147483648",
    "-2147483648",
    "-2147483649",
    "1/2",
];

#[test]
fn index_tokens_agree_with_the_standard_library() {
    for s in INDEX_SAMPLES {
        assert_eq!(parse_int(&chars_of(s)), std_int(s), "{:?}", s);
    }
}

#[test]
fn index_token_values() {
    assert_eq!(parse_int(&chars_of("42")), Ok(42));
    assert_eq!(parse_int(&chars_of("-7")), Ok(-7));
    assert_eq!(parse_int(&chars_of("+7")), Ok(7));
    assert_eq!(parse_int(&chars_of("")), Err(IntError::Empty));
    assert_eq!(parse_int(&chars_of("-")), Err(IntError::InvalidDigit));
    assert_eq!(parse_int(&chars_of("4a")), Err(IntError::InvalidDigit));
    assert_eq!(
        parse_int(&chars_of("99999999999999999999999")),
        Err(IntError::PosOverflow)
    );
    assert_eq!(
        parse_int(&chars_of("-99999999999999999999999")),
        Err(IntError::NegOverflow)
    );
}

const REAL_SAMPLES: [&str; 70] = [
    "", "0", "1", "-1", "+1", "1.5", "-1.5", "+1.5", ".5", "5.", ".", "+", "-", "+.", "-.5", "+5.",
    "1e5", "1E5", "1e+5", "1e-5", "1e", "1e+", "1e-", "e5", ".e5", "1.e5", ".5e5", "1.5e5x",
    "1e5.0", "1e 5", " 1", "1 ", "1\r", "1_000", "0x10", "1f", "1.5.5", "--1", "+-1", "inf",
    "INF", "Inf", "+inf", "-inf", "infinity", "Infinity", "-INFINITY", "infinit", "infinityy",
    "in", "nan", "NaN", "NAN", "-nan", "+NaN", "na", "nann", "1e400", "1e-400",
    "0.000000000000000000000000000000000001", "123456789012345678901234567890", "00.5", "1e05",
    "1E+05", "\u{661}", "1\u{2e}5", "\u{130}nf", "e", "E", "1ee5",
];

#[test]
fn real_literals_agree_with_the_standard_library() {
    for s in REAL_SAMPLES {
        let ours = check_float(&chars_of(s)).is_ok();
        let theirs = s.parse::<f64>().is_ok();
        assert_eq!(ours, theirs, "{:?}", s);
    }
}

#[test]
fn real_literal_errors() {
    assert_eq!(check_float(&chars_of("")), Err(FloatError::Empty));
    assert_eq!(check_float(&chars_of("abc")), Err(FloatError::Invalid));
    assert_eq!(check_float(&chars_of("1.0")), Ok(()));
}

#[test]
fn error_texts_agree_with_the_standard_library() {
    let empty = "".parse::<f64>().unwrap_err().to_string();
    let invalid = "x".parse::<f64>().unwrap_err().to_string();
    assert_eq!(ParseCause::Float(FloatError::Empty).message(), empty);
    assert_eq!(ParseCause::Float(FloatError::Invalid).message(), invalid);
    let cases = [
        ("", IntError::Empty),
        ("x", IntError::InvalidDigit),
        ("99999999999999999999", IntError::PosOverflow),
        ("-99999999999999999999", IntError::NegOverflow),
    ];
    for (text, kind) in cases {
        let theirs = text.parse::<isize>().unwrap_err().to_string();
        assert_eq!(ParseCause::Int(kind).message(), theirs);
    }
}

#[test]
fn numbers_keep_their_text() {
    let n = Number::parse(&chars_of("-12.5e-3")).unwrap();
    assert_eq!(n.text, "-12.5e-3");
    assert_eq!(n.text.parse::<f64>().unwrap(), -12.5e-3);
    assert_eq!(n.clone().text, "-12.5e-3");
    assert_eq!(Number::zero().text.parse::<f64>().unwrap(), 0.0);
    assert_eq!(Number::one().text.parse::<f64>().unwrap(), 1.0);
    assert_eq!(Number::parse(&chars_of("1,5")).unwrap_err(), FloatError::Invalid);
}
