use qemu_sbi::lexer::{lexer, Word};

fn all_words(s: &str) -> Vec<Word> {
    let mut lx = lexer(s);
    let mut out = Vec::new();
    while let Some(w) = lx.next() {
        out.push(w);
    }
    out
}

#[test]
fn zero_is_zero() {
    assert_eq!(all_words("0"), vec![Word::Integer(0)]);
}

#[test]
fn hex_literal() {
    assert_eq!(all_words("0x1F"), vec![Word::Integer(31)]);
}

#[test]
fn zero_then_digit_is_error() {
    assert_eq!(all_words("09")[0], Word::Other);
}

#[test]
fn zero_then_letter_is_error() {
    assert_eq!(all_words("0g")[0], Word::Other);
}

#[test]
fn decimal_literal() {
    assert_eq!(all_words("1234"), vec![Word::Integer(1234)]);
}

#[test]
fn decimal_overflow_is_error() {
    assert_eq!(all_words("18446744073709551616"), vec![Word::Other]);
    assert_eq!(all_words("18446744073709551615"), vec![Word::Integer(usize::MAX)]);
}

#[test]
fn hex_without_digits_is_error() {
    assert_eq!(all_words("0x"), vec![Word::Other]);
}

#[test]
fn whitespace_runs_collapse() {
    assert_eq!(
        all_words("x \t  5"),
        vec![Word::Character('x'), Word::Space, Word::Integer(5)]
    );
}

#[test]
fn punctuation_tokens() {
    assert_eq!(
        all_words("/[];#"),
        vec![
            Word::Backslash,
            Word::LeftSquareBracket,
            Word::RightSquareBracket,
            Word::Semicolon,
            Word::Other
        ]
    );
}

#[test]
fn empty_line_has_no_tokens() {
    assert_eq!(all_words(""), vec![]);
}
