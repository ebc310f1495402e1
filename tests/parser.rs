use qemu_sbi::lexer::lexer;
use qemu_sbi::parser::{
    command, parse_line, BasicType, CommandType, DataType, Metadata, PrintMode, PrivilegeMode,
};

fn examine(
    privilege: PrivilegeMode,
    data_type: Option<DataType>,
    print: Option<PrintMode>,
    address: Option<usize>,
) -> Metadata {
    Metadata {
        command_type: Some(CommandType::X),
        privileged_mode: Some(privilege),
        data_type,
        address_number: address,
        print_mode: print,
    }
}

#[test]
fn continue_command() {
    let m = parse_line("c").unwrap();
    assert_eq!(m.command_type, Some(CommandType::C));
    assert_eq!(m.address_number, None);
}

#[test]
fn plain_examine() {
    assert_eq!(
        parse_line("x 0x80200000"),
        Some(examine(PrivilegeMode::Current, None, None, Some(0x8020_0000)))
    );
}

#[test]
fn examine_with_every_facet() {
    assert_eq!(
        parse_line("xm/u32d 4096"),
        Some(examine(
            PrivilegeMode::Machine,
            Some(DataType::Basic(BasicType { signed: false, width: 32 })),
            Some(PrintMode::Decimal),
            Some(4096)
        ))
    );
}

#[test]
fn examine_supervisor_signed_hex() {
    assert_eq!(
        parse_line("xs/i8 16"),
        Some(examine(
            PrivilegeMode::Supervisor,
            Some(DataType::Basic(BasicType { signed: true, width: 8 })),
            Some(PrintMode::Hex),
            Some(16)
        ))
    );
}

#[test]
fn examine_array_facet() {
    assert_eq!(
        parse_line("xu/[u64; 4] 0x10"),
        Some(examine(
            PrivilegeMode::User,
            Some(DataType::Array(BasicType { signed: false, width: 64 }, 4)),
            Some(PrintMode::Hex),
            Some(16)
        ))
    );
}

#[test]
fn examine_instruction_facet() {
    assert_eq!(
        parse_line("x/z 8"),
        Some(examine(
            PrivilegeMode::Current,
            Some(DataType::Instruction),
            Some(PrintMode::Hex),
            Some(8)
        ))
    );
}

#[test]
fn examine_default_type_decimal() {
    assert_eq!(
        parse_line("x/d 8"),
        Some(examine(PrivilegeMode::Current, None, Some(PrintMode::Decimal), Some(8)))
    );
}

#[test]
fn invalid_width_is_syntax_error() {
    assert_eq!(parse_line("x/u7 8"), None);
}

#[test]
fn unknown_command_is_syntax_error() {
    assert_eq!(parse_line("q"), None);
    assert_eq!(parse_line(""), None);
    assert_eq!(parse_line(" c"), None);
}

#[test]
fn bad_address_is_syntax_error() {
    assert_eq!(parse_line("x 09"), None);
    assert_eq!(parse_line("x zz"), None);
}

#[test]
fn unclosed_array_is_syntax_error() {
    assert_eq!(parse_line("x/[u8; 4 8"), None);
}

#[test]
fn examine_without_address_parses() {
    assert_eq!(
        parse_line("xm/i16d"),
        Some(examine(
            PrivilegeMode::Machine,
            Some(DataType::Basic(BasicType { signed: true, width: 16 })),
            Some(PrintMode::Decimal),
            None
        ))
    );
}

#[test]
fn type_letter_without_width_is_syntax_error() {
    assert_eq!(parse_line("x/u 5"), None);
    assert_eq!(parse_line("x/id 8"), None);
    assert_eq!(parse_line("x/[u; 2] 8"), None);
}

#[test]
fn failed_command_leaves_metadata_unchanged() {
    let mut lx = lexer("xs/u7 16");
    let mut sym = lx.next();
    let mut m = Metadata::new();
    m.print_mode = Some(PrintMode::Decimal);
    let before = m;
    assert_eq!(command(&mut lx, &mut sym, &mut m), Err(()));
    assert_eq!(m, before);
}

#[test]
fn failed_address_leaves_metadata_unchanged() {
    let mut lx = lexer("xm/u8d zz");
    let mut sym = lx.next();
    let mut m = Metadata::new();
    assert_eq!(command(&mut lx, &mut sym, &mut m), Err(()));
    assert_eq!(m, Metadata::new());
}

#[test]
fn successful_command_writes_metadata() {
    let mut lx = lexer("xs/u8 16");
    let mut sym = lx.next();
    let mut m = Metadata::new();
    assert_eq!(command(&mut lx, &mut sym, &mut m), Ok(()));
    assert_eq!(
        m,
        examine(
            PrivilegeMode::Supervisor,
            Some(DataType::Basic(BasicType { signed: false, width: 8 })),
            Some(PrintMode::Hex),
            Some(16)
        )
    );
}
