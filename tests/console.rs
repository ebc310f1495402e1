use qemu_sbi::console::{
    execute_command, get_command, ControlFlow, InputLine, Outcome, ParseError, INPUT_LIMIT,
};
use qemu_sbi::parser::{BasicType, Metadata, PrintMode};
use qemu_sbi::render::{hex_text, value_text_of};

fn text(v: Vec<u8>) -> String {
    String::from_utf8(v).unwrap()
}

#[test]
fn backspace_on_empty_line_does_nothing() {
    let mut line = InputLine::new();
    let e = line.feed(8);
    assert!(e.echo.is_empty());
    assert!(!e.done);
    assert!(line.buf.is_empty());
}

#[test]
fn backspace_erases_last_byte() {
    let mut line = InputLine::new();
    line.feed(b'x');
    line.feed(b'y');
    let e = line.feed(8);
    assert_eq!(e.echo, vec![8, b' ', 8]);
    assert_eq!(line.buf, vec![b'x']);
}

#[test]
fn line_caps_at_limit_and_drops_silently() {
    let mut line = InputLine::new();
    for _ in 0..INPUT_LIMIT {
        let e = line.feed(b'a');
        assert_eq!(e.echo, vec![b'a']);
    }
    let e = line.feed(b'b');
    assert!(e.echo.is_empty());
    assert!(!e.done);
    assert_eq!(line.buf.len(), 256);
    assert!(line.buf.iter().all(|&b| b == b'a'));
}

#[test]
fn carriage_return_ends_line() {
    let mut line = InputLine::new();
    line.feed(b'c');
    let e = line.feed(13);
    assert!(e.done);
    assert_eq!(e.echo, vec![10, 13]);
    assert_eq!(line.buf, vec![b'c']);
}

#[test]
fn other_control_byte_ends_line() {
    let mut line = InputLine::new();
    line.feed(b'x');
    let e = line.feed(3);
    assert!(e.done);
    assert_eq!(e.echo, vec![13, 10]);
    assert_eq!(line.buf, vec![b'x']);
}

#[test]
fn continue_ends_console_loop() {
    let r = get_command(b"c".to_vec()).unwrap();
    assert_eq!(r, Outcome::Resume);
    assert_eq!(r.control_flow(), ControlFlow::Break);
}

#[test]
fn continue_ignores_trailing_garbage() {
    for line in ["cxyz", "c 12", "c/[;", "cc"] {
        let r = get_command(line.as_bytes().to_vec()).unwrap();
        assert_eq!(r.control_flow(), ControlFlow::Break);
    }
}

#[test]
fn missing_address_is_reported() {
    let r = get_command(b"xm/u64d".to_vec()).unwrap();
    assert_eq!(r, Outcome::MissingAddress);
    assert_eq!(r.control_flow(), ControlFlow::Continue);
}

#[test]
fn examine_defaults() {
    let r = get_command(b"x 0x1000".to_vec()).unwrap();
    assert_eq!(
        r,
        Outcome::Examine {
            address: 0x1000,
            basic: BasicType { signed: true, width: 64 },
            print: PrintMode::Hex
        }
    );
}

#[test]
fn examine_array_is_reserved() {
    assert_eq!(get_command(b"x/[u8; 2] 16".to_vec()), Ok(Outcome::Reserved));
    assert_eq!(get_command(b"x/z 16".to_vec()), Ok(Outcome::Reserved));
}

#[test]
fn invalid_utf8_is_reported() {
    assert_eq!(get_command(vec![b'x', 0xff, 0xfe]), Err(ParseError::InvalidUtf8));
}

#[test]
fn syntax_error_is_reported() {
    assert_eq!(get_command(b"help".to_vec()), Err(ParseError::SyntaxError));
}

#[test]
fn empty_metadata_does_nothing() {
    assert_eq!(execute_command(&Metadata::new()), Outcome::Nothing);
}

#[test]
fn address_shown_in_hex() {
    assert_eq!(text(hex_text(0x8020_0000)), "0x80200000");
    assert_eq!(text(hex_text(0)), "0x0");
}

fn pattern(n: usize) -> Vec<u8> {
    (0..n).map(|i| 0x81u8.wrapping_add((i as u8).wrapping_mul(0x11))).collect()
}

fn expected(bytes: &[u8], signed: bool, decimal: bool) -> String {
    let mut wide = [0u8; 16];
    wide[..bytes.len()].copy_from_slice(bytes);
    let u = u128::from_le_bytes(wide);
    let v: i128 = match (signed, bytes.len()) {
        (true, 1) => i8::from_le_bytes([bytes[0]]) as i128,
        (true, 2) => i16::from_le_bytes(bytes.try_into().unwrap()) as i128,
        (true, 4) => i32::from_le_bytes(bytes.try_into().unwrap()) as i128,
        (true, 8) => i64::from_le_bytes(bytes.try_into().unwrap()) as i128,
        (true, 16) => i128::from_le_bytes(bytes.try_into().unwrap()),
        _ => 0,
    };
    match (signed, decimal) {
        (true, true) => format!("{}", v),
        (true, false) => format!("{:#x}", v),
        (false, true) => format!("{}", u),
        (false, false) => format!("{:#x}", u),
    }
}

#[test]
fn examined_values_match_bytes() {
    for signed in [true, false] {
        for width in [8u8, 16, 32, 64, 128] {
            let bytes = pattern(width as usize / 8);
            for (print, decimal) in [(PrintMode::Hex, false), (PrintMode::Decimal, true)] {
                let shown = text(value_text_of(&bytes, BasicType { signed, width }, print));
                assert_eq!(shown, expected(&bytes, signed, decimal), "{} {}", signed, width);
            }
        }
    }
}

#[test]
fn examined_positive_values() {
    let b = BasicType { signed: true, width: 16 };
    assert_eq!(text(value_text_of(&vec![0x34, 0x12], b, PrintMode::Hex)), "0x1234");
    assert_eq!(text(value_text_of(&vec![0x34, 0x12], b, PrintMode::Decimal)), "4660");
    let b = BasicType { signed: true, width: 8 };
    assert_eq!(text(value_text_of(&vec![0xff], b, PrintMode::Decimal)), "-1");
    assert_eq!(
        text(value_text_of(&vec![0xff], b, PrintMode::Hex)),
        "0xffffffffffffffffffffffffffffffff"
    );
    let b = BasicType { signed: false, width: 8 };
    assert_eq!(text(value_text_of(&vec![0xff], b, PrintMode::Decimal)), "255");
    assert_eq!(text(value_text_of(&vec![0], b, PrintMode::Decimal)), "0");
}
