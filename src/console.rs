use vstd::prelude::*;
use crate::lexer::{tokens, tokens_from, Word};
use crate::parser::{
    empty_metadata, first, lemma_parse_keeps_widths, parse_line, parse_line_spec, spec_x,
    BasicType, CommandType, DataType, Metadata, PrintMode,
};
use crate::render::width_ok;

verus! {

/// The most bytes one command line holds.
pub const INPUT_LIMIT: usize = 256;

pub const BACKSPACE: u8 = 8;

pub const CARRIAGE_RETURN: u8 = 13;

/// Whether the value examined is signed when a command names no type.
pub const DEFAULT_SIGNED: bool = true;

/// The width in bits of the value examined when a command names no type: a
/// machine word of the 64-bit harts this firmware runs on.
pub const DEFAULT_WIDTH: u8 = 64;

pub open spec fn default_basic_type() -> BasicType {
    BasicType { signed: DEFAULT_SIGNED, width: DEFAULT_WIDTH }
}

/// The bytes of a command line being typed.
pub struct InputLine {
    pub buf: Vec<u8>,
}

/// What one typed byte does: the bytes to echo, and whether the line is over.
pub struct KeyEffect {
    pub echo: Vec<u8>,
    pub done: bool,
}

/// The line, the echo and the end-of-line flag after byte `b` is typed on `buf`.
pub open spec fn key_spec(buf: Seq<u8>, b: u8) -> (Seq<u8>, Seq<u8>, bool) {
    if b == BACKSPACE {
        if buf.len() > 0 {
            (buf.drop_last(), seq![BACKSPACE, 32u8, BACKSPACE], false)
        } else {
            (buf, Seq::empty(), false)
        }
    } else if b == CARRIAGE_RETURN {
        (buf, seq![10u8, 13u8], true)
    } else if b < 32 {
        (buf, seq![13u8, 10u8], true)
    } else if buf.len() < INPUT_LIMIT {
        (buf.push(b), seq![b], false)
    } else {
        (buf, Seq::empty(), false)
    }
}

impl InputLine {
    pub fn new() -> (r: InputLine)
        ensures
            r.buf@.len() == 0,
    {
        InputLine { buf: Vec::new() }
    }

    /// Takes one typed byte.
    pub fn feed(&mut self, b: u8) -> (r: KeyEffect)
        requires
            old(self).buf@.len() <= INPUT_LIMIT,
        ensures
            final(self).buf@.len() <= INPUT_LIMIT,
            (final(self).buf@, r.echo@, r.done) == key_spec(old(self).buf@, b),
    {
        let mut echo: Vec<u8> = Vec::new();
        if b == BACKSPACE {
            if self.buf.pop().is_some() {
                echo.push(BACKSPACE);
                echo.push(32u8);
                echo.push(BACKSPACE);
            }
            proof {
                assert(echo@ =~= key_spec(old(self).buf@, b).1);
            }
            KeyEffect { echo, done: false }
        } else if b == CARRIAGE_RETURN {
            echo.push(10u8);
            echo.push(13u8);
            proof {
                assert(echo@ =~= key_spec(old(self).buf@, b).1);
            }
            KeyEffect { echo, done: true }
        } else if b < 32 {
            echo.push(13u8);
            echo.push(10u8);
            proof {
                assert(echo@ =~= key_spec(old(self).buf@, b).1);
            }
            KeyEffect { echo, done: true }
        } else {
            if self.buf.len() < INPUT_LIMIT {
                self.buf.push(b);
                echo.push(b);
            }
            proof {
                assert(echo@ =~= key_spec(old(self).buf@, b).1);
            }
            KeyEffect { echo, done: false }
        }
    }
}

/// Editing a line: a backspace on an empty line changes nothing and echoes
/// nothing, the line never grows past its limit, and a printable byte typed
/// on a full line is dropped without an echo.
pub proof fn lemma_line_editing(buf: Seq<u8>, b: u8)
    requires
        buf.len() <= INPUT_LIMIT,
    ensures
        buf.len() == 0 && b == BACKSPACE ==> key_spec(buf, b) == (buf, Seq::<u8>::empty(), false),
        key_spec(buf, b).0.len() <= INPUT_LIMIT,
        buf.len() == INPUT_LIMIT && b >= 32 ==> key_spec(buf, b) == (
            buf,
            Seq::<u8>::empty(),
            false,
        ),
{
}

/// Whether the console keeps reading commands or hands the hart back to the guest.
#[derive(Clone, Copy, Debug, PartialEq, Eq, Structural)]
pub enum ControlFlow {
    Break,
    Continue,
}

#[derive(Clone, Copy, Debug, PartialEq, Eq, Structural)]
pub enum ParseError {
    InvalidUtf8,
    SyntaxError,
}

/// What a parsed command asks the console to do.
#[derive(Clone, Copy, Debug, PartialEq, Eq, Structural)]
pub enum Outcome {
    /// Resume the guest.
    Resume,
    /// An examine command without an address: report it, read nothing.
    MissingAddress,
    /// Read one value of the given type at the address and show it.
    Examine { address: usize, basic: BasicType, print: PrintMode },
    /// Array and instruction facets parse but are not carried out.
    Reserved,
    /// Nothing to do.
    Nothing,
}

pub open spec fn outcome_spec(m: Metadata) -> Outcome {
    match m.command_type {
        Some(CommandType::X) => match m.address_number {
            None => Outcome::MissingAddress,
            Some(address) => match m.data_type {
                None => Outcome::Examine {
                    address,
                    basic: default_basic_type(),
                    print: print_of(m),
                },
                Some(DataType::Basic(basic)) => Outcome::Examine {
                    address,
                    basic,
                    print: print_of(m),
                },
                Some(_) => Outcome::Reserved,
            },
        },
        Some(CommandType::C) => Outcome::Resume,
        None => Outcome::Nothing,
    }
}

pub open spec fn print_of(m: Metadata) -> PrintMode {
    if m.print_mode == Some(PrintMode::Decimal) {
        PrintMode::Decimal
    } else {
        PrintMode::Hex
    }
}

impl Outcome {
    pub open spec fn control_flow_spec(self) -> ControlFlow {
        if self == Outcome::Resume {
            ControlFlow::Break
        } else {
            ControlFlow::Continue
        }
    }

    /// Only a resume ends the console loop.
    pub fn control_flow(&self) -> (r: ControlFlow)
        ensures
            r == self.control_flow_spec(),
    {
        match self {
            Outcome::Resume => ControlFlow::Break,
            _ => ControlFlow::Continue,
        }
    }
}

/// Whatever follows it, a line whose first character is `c` resumes the guest
/// and ends the console loop.
pub proof fn lemma_continue_ignores_rest(s: Seq<char>)
    requires
        s.len() > 0,
        s[0] == 'c',
    ensures
        parse_line_spec(s) is Some,
        outcome_spec(parse_line_spec(s).unwrap()) == Outcome::Resume,
        outcome_spec(parse_line_spec(s).unwrap()).control_flow_spec() == ControlFlow::Break,
{
    assert(tokens(s) == seq![Word::Character('c')] + tokens_from(s, 1));
    assert(first(tokens(s)) == Some(Word::Character('c')));
}

/// An examine command that ends before its address, whatever facets it
/// names, is reported as missing its address: nothing is read.
pub proof fn lemma_examine_without_address(t: Seq<Word>, m: Metadata)
    requires
        spec_x(t, m).0,
        spec_x(t, m).1.len() == 0,
    ensures
        outcome_spec(spec_x(t, m).2) == Outcome::MissingAddress,
{
}

/// Decides what a parsed command does.
pub fn execute_command(metadata: &Metadata) -> (r: Outcome)
    ensures
        r == outcome_spec(*metadata),
{
    match metadata.command_type {
        Some(CommandType::X) => {
            let address = match metadata.address_number {
                Some(a) => a,
                None => return Outcome::MissingAddress,
            };
            let print = if matches!(metadata.print_mode, Some(PrintMode::Decimal)) {
                PrintMode::Decimal
            } else {
                PrintMode::Hex
            };
            match metadata.data_type {
                None => Outcome::Examine {
                    address,
                    basic: BasicType { signed: DEFAULT_SIGNED, width: DEFAULT_WIDTH },
                    print,
                },
                Some(DataType::Basic(basic)) => Outcome::Examine { address, basic, print },
                Some(_) => Outcome::Reserved,
            }
        },
        Some(CommandType::C) => Outcome::Resume,
        None => Outcome::Nothing,
    }
}

/// Relies on `String::from_utf8`: it accepts exactly the valid UTF-8
/// sequences and keeps their characters.
#[verifier::external_body]
fn utf8_decode(buf: Vec<u8>) -> (r: Option<String>)
    ensures
        r is Some <==> vstd::utf8::valid_utf8(buf@),
        r matches Some(s) ==> s@ == vstd::utf8::decode_utf8(buf@),
{
    String::from_utf8(buf).ok()
}

/// What a typed line asks for: an error where it is not UTF-8 or not a
/// command, else what its command does.
pub fn get_command(buf: Vec<u8>) -> (r: Result<Outcome, ParseError>)
    ensures
        r == (if !vstd::utf8::valid_utf8(buf@) {
            Err(ParseError::InvalidUtf8)
        } else {
            match parse_line_spec(vstd::utf8::decode_utf8(buf@)) {
                Some(m) => Ok(outcome_spec(m)),
                None => Err(ParseError::SyntaxError),
            }
        }),
        r matches Ok(Outcome::Examine { basic, .. }) ==> width_ok(basic.width),
{
    proof {
        lemma_parse_keeps_widths(tokens(vstd::utf8::decode_utf8(buf@)), empty_metadata());
    }
    let string = match utf8_decode(buf) {
        Some(s) => s,
        None => return Err(ParseError::InvalidUtf8),
    };
    match parse_line(string.as_str()) {
        Some(metadata) => Ok(execute_command(&metadata)),
        None => Err(ParseError::SyntaxError),
    }
}

} // verus!
