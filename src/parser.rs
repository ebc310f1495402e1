use vstd::prelude::*;
use crate::lexer::{lexer, tokens, Lexer, Word};

verus! {

#[derive(Clone, Copy, Debug, PartialEq, Eq, Structural)]
pub enum CommandType {
    X,
    C,
}

#[derive(Clone, Copy, Debug, PartialEq, Eq, Structural)]
pub enum PrivilegeMode {
    Machine,
    Supervisor,
    User,
    Current,
}

#[derive(Clone, Copy, Debug, PartialEq, Eq, Structural)]
pub struct BasicType {
    pub signed: bool,
    pub width: u8,
}

#[derive(Clone, Copy, Debug, PartialEq, Eq, Structural)]
pub enum DataType {
    Basic(BasicType),
    Array(BasicType, usize),
    Instruction,
}

#[derive(Clone, Copy, Debug, PartialEq, Eq, Structural)]
pub enum PrintMode {
    Hex,
    Decimal,
}

/// What one command line says, filled in as the parser goes.
#[derive(Clone, Copy, Debug, PartialEq, Eq, Structural)]
pub struct Metadata {
    pub command_type: Option<CommandType>,
    pub privileged_mode: Option<PrivilegeMode>,
    pub data_type: Option<DataType>,
    pub address_number: Option<usize>,
    pub print_mode: Option<PrintMode>,
}

/// The privilege facet recorded when an examine command names none.
pub const DEFAULT_PRIVILEGE: PrivilegeMode = PrivilegeMode::Current;

/// The print mode used when an examine command names none.
pub const DEFAULT_PRINT_MODE: PrintMode = PrintMode::Hex;

pub open spec fn empty_metadata() -> Metadata {
    Metadata {
        command_type: None,
        privileged_mode: None,
        data_type: None,
        address_number: None,
        print_mode: None,
    }
}

impl Metadata {
    /// Metadata with no field filled in.
    pub fn new() -> (r: Metadata)
        ensures
            r == empty_metadata(),
    {
        Metadata {
            command_type: None,
            privileged_mode: None,
            data_type: None,
            address_number: None,
            print_mode: None,
        }
    }
}

/// The outcome of a parsing step: whether it succeeded, the tokens that are
/// left (the current lookahead first), and the metadata as it then stands.
pub type Parsed = (bool, Seq<Word>, Metadata);

pub open spec fn first(t: Seq<Word>) -> Option<Word> {
    if t.len() > 0 {
        Some(t[0])
    } else {
        None
    }
}

/// The tokens still to be read: the lookahead, then what the lexer has not yet read.
pub open spec fn stream(lx: Lexer, sym: Option<Word>) -> Seq<Word> {
    match sym {
        Some(w) => seq![w] + lx.remaining(),
        None => Seq::empty(),
    }
}

/// A lexer with its one-token lookahead; once the lookahead is empty the line is over.
pub open spec fn cursor_wf(lx: Lexer, sym: Option<Word>) -> bool {
    &&& lx.wf()
    &&& sym is None ==> lx.pos == lx.chars@.len()
}

pub open spec fn is_valid_width_spec(a: usize) -> bool {
    a == 8 || a == 16 || a == 32 || a == 64 || a == 128
}

pub open spec fn spec_space(t: Seq<Word>) -> Seq<Word>
    decreases t.len(),
{
    if first(t) == Some(Word::Space) {
        spec_space(t.skip(1))
    } else {
        t
    }
}

pub open spec fn spec_c(t: Seq<Word>, m: Metadata) -> Parsed {
    if first(t) == Some(Word::Character('c')) {
        (true, t.skip(1), Metadata { command_type: Some(CommandType::C), ..m })
    } else {
        (false, t, m)
    }
}

pub open spec fn spec_privilege_mode(t: Seq<Word>, m: Metadata) -> Parsed {
    if first(t) == Some(Word::Character('m')) {
        (true, t.skip(1), Metadata { privileged_mode: Some(PrivilegeMode::Machine), ..m })
    } else if first(t) == Some(Word::Character('s')) {
        (true, t.skip(1), Metadata { privileged_mode: Some(PrivilegeMode::Supervisor), ..m })
    } else if first(t) == Some(Word::Character('u')) {
        (true, t.skip(1), Metadata { privileged_mode: Some(PrivilegeMode::User), ..m })
    } else if first(t) == Some(Word::Backslash) || first(t) is None || first(t) == Some(
        Word::Space,
    ) {
        (true, t, Metadata { privileged_mode: Some(DEFAULT_PRIVILEGE), ..m })
    } else {
        (false, t, m)
    }
}

pub open spec fn spec_basic_type(t: Seq<Word>) -> (Option<BasicType>, Seq<Word>) {
    if first(t) == Some(Word::Character('u')) || first(t) == Some(Word::Character('i')) {
        let signed = first(t) == Some(Word::Character('i'));
        let t1 = t.skip(1);
        match first(t1) {
            Some(Word::Integer(i)) => if is_valid_width_spec(i) {
                (Some(BasicType { signed, width: i as u8 }), t1.skip(1))
            } else {
                (None, t1)
            },
            _ => (None, t1),
        }
    } else {
        (None, t)
    }
}

pub open spec fn spec_data_type(t: Seq<Word>, m: Metadata) -> Parsed {
    if first(t) == Some(Word::LeftSquareBracket) {
        let (b, t2) = spec_basic_type(t.skip(1));
        if b is None || first(t2) != Some(Word::Semicolon) {
            (false, t2, m)
        } else {
            let t3 = spec_space(t2.skip(1));
            match first(t3) {
                Some(Word::Integer(n)) => {
                    let t4 = t3.skip(1);
                    if first(t4) == Some(Word::RightSquareBracket) {
                        (
                            true,
                            t4.skip(1),
                            Metadata { data_type: Some(DataType::Array(b.unwrap(), n)), ..m },
                        )
                    } else {
                        (false, t4, m)
                    }
                },
                _ => (false, t3, m),
            }
        }
    } else if first(t) == Some(Word::Character('z')) {
        (true, t.skip(1), Metadata { data_type: Some(DataType::Instruction), ..m })
    } else if first(t) == Some(Word::Character('u')) || first(t) == Some(Word::Character('i')) {
        let (b, t1) = spec_basic_type(t);
        match b {
            Some(b) => (true, t1, Metadata { data_type: Some(DataType::Basic(b)), ..m }),
            None => (false, t1, m),
        }
    } else {
        (true, t, m)
    }
}

pub open spec fn spec_print_mode(t: Seq<Word>, m: Metadata) -> Parsed {
    if first(t) == Some(Word::Character('d')) {
        (true, t.skip(1), Metadata { print_mode: Some(PrintMode::Decimal), ..m })
    } else if first(t) is None || first(t) == Some(Word::Space) {
        (true, t, Metadata { print_mode: Some(DEFAULT_PRINT_MODE), ..m })
    } else {
        (false, t, m)
    }
}

/// The optional `/type print` facet of an examine command.
pub open spec fn spec_format_facet(t: Seq<Word>, m: Metadata) -> Parsed {
    if first(t) == Some(Word::Backslash) {
        let (ok, t1, m1) = spec_data_type(t.skip(1), m);
        if !ok {
            (false, t1, m)
        } else {
            let (ok2, t2, m2) = spec_print_mode(t1, m1);
            if ok2 {
                (true, t2, m2)
            } else {
                (false, t2, m)
            }
        }
    } else {
        (true, t, m)
    }
}

pub open spec fn spec_x(t: Seq<Word>, m: Metadata) -> Parsed {
    if first(t) != Some(Word::Character('x')) {
        (false, t, m)
    } else {
        let (ok1, t1, m1) = spec_privilege_mode(t.skip(1), m);
        if !ok1 {
            (false, t1, m)
        } else {
            let (ok2, t2, m2) = spec_format_facet(t1, m1);
            if !ok2 {
                (false, t2, m)
            } else {
                let t3 = spec_space(t2);
                match first(t3) {
                    Some(Word::Integer(a)) => (
                        true,
                        t3,
                        Metadata {
                            command_type: Some(CommandType::X),
                            address_number: Some(a),
                            ..m2
                        },
                    ),
                    None => (
                        true,
                        t3,
                        Metadata { command_type: Some(CommandType::X), address_number: None, ..m2 },
                    ),
                    _ => (false, t3, m),
                }
            }
        }
    }
}

pub open spec fn spec_command(t: Seq<Word>, m: Metadata) -> Parsed {
    if first(t) == Some(Word::Character('x')) {
        spec_x(t, m)
    } else if first(t) == Some(Word::Character('c')) {
        spec_c(t, m)
    } else {
        (false, t, m)
    }
}

/// What a whole line parses to, starting from empty metadata.
pub open spec fn parse_line_spec(s: Seq<char>) -> Option<Metadata> {
    let (ok, _, m) = spec_command(tokens(s), empty_metadata());
    if ok {
        Some(m)
    } else {
        None
    }
}

/// A command that fails to parse leaves the metadata exactly as it was.
pub proof fn lemma_failed_parse_writes_nothing(t: Seq<Word>, m: Metadata)
    ensures
        !spec_command(t, m).0 ==> spec_command(t, m).2 == m,
{
}

/// Every type that metadata records has a width of 8, 16, 32, 64 or 128 bits.
pub open spec fn widths_ok(m: Metadata) -> bool {
    match m.data_type {
        Some(DataType::Basic(b)) => is_valid_width_spec(b.width as usize),
        Some(DataType::Array(b, _)) => is_valid_width_spec(b.width as usize),
        _ => true,
    }
}

/// Parsing records only types of a valid width.
pub proof fn lemma_parse_keeps_widths(t: Seq<Word>, m: Metadata)
    requires
        widths_ok(m),
    ensures
        widths_ok(spec_command(t, m).2),
{
    let t1 = t.skip(1);
    let (ok1, t2, m1) = spec_privilege_mode(t1, m);
    assert(widths_ok(m1));
    if first(t2) == Some(Word::Backslash) {
        let (okd, t3, md) = spec_data_type(t2.skip(1), m1);
        assert(widths_ok(md));
    }
}

/// The tokens that name a privilege facet; the current mode is named by none.
pub open spec fn privilege_tokens(p: PrivilegeMode) -> Seq<Word> {
    match p {
        PrivilegeMode::Machine => seq![Word::Character('m')],
        PrivilegeMode::Supervisor => seq![Word::Character('s')],
        PrivilegeMode::User => seq![Word::Character('u')],
        PrivilegeMode::Current => Seq::empty(),
    }
}

pub open spec fn basic_tokens(b: BasicType) -> Seq<Word> {
    seq![Word::Character(if b.signed { 'i' } else { 'u' }), Word::Integer(b.width as usize)]
}

/// The tokens that name a data type; the default type is named by none.
pub open spec fn type_tokens(d: Option<DataType>) -> Seq<Word> {
    match d {
        None => Seq::empty(),
        Some(DataType::Basic(b)) => basic_tokens(b),
        Some(DataType::Array(b, n)) => seq![Word::LeftSquareBracket] + basic_tokens(b) + seq![
            Word::Semicolon,
            Word::Space,
            Word::Integer(n),
            Word::RightSquareBracket,
        ],
        Some(DataType::Instruction) => seq![Word::Character('z')],
    }
}

pub open spec fn type_ok(d: Option<DataType>) -> bool {
    match d {
        Some(DataType::Basic(b)) => is_valid_width_spec(b.width as usize),
        Some(DataType::Array(b, _)) => is_valid_width_spec(b.width as usize),
        _ => true,
    }
}

pub open spec fn print_tokens(print: PrintMode) -> Seq<Word> {
    match print {
        PrintMode::Decimal => seq![Word::Character('d')],
        PrintMode::Hex => Seq::empty(),
    }
}

/// The tokens of `x<privilege>/<type><print> <address>`, the `/` part present
/// only where `format` is given.
pub open spec fn examine_tokens(
    p: PrivilegeMode,
    format: Option<(Option<DataType>, PrintMode)>,
    address: usize,
) -> Seq<Word> {
    seq![Word::Character('x')] + privilege_tokens(p) + match format {
        Some((d, print)) => seq![Word::Backslash] + type_tokens(d) + print_tokens(print),
        None => Seq::empty(),
    } + seq![Word::Space, Word::Integer(address)]
}

/// The metadata that such an examine command stands for.
pub open spec fn examine_metadata(
    p: PrivilegeMode,
    format: Option<(Option<DataType>, PrintMode)>,
    address: usize,
) -> Metadata {
    Metadata {
        command_type: Some(CommandType::X),
        privileged_mode: Some(p),
        data_type: match format {
            Some((d, _)) => d,
            None => None,
        },
        address_number: Some(address),
        print_mode: match format {
            Some((_, print)) => Some(print),
            None => None,
        },
    }
}

proof fn lemma_privilege_step(p: PrivilegeMode, rest: Seq<Word>, m: Metadata)
    requires
        first(rest) == Some(Word::Backslash) || first(rest) == Some(Word::Space),
    ensures
        spec_privilege_mode(privilege_tokens(p) + rest, m) == (
            true,
            rest,
            Metadata { privileged_mode: Some(p), ..m },
        ),
{
    let t = privilege_tokens(p) + rest;
    if p == PrivilegeMode::Current {
        assert(t =~= rest);
    } else {
        assert(t.skip(1) =~= rest);
    }
}

proof fn lemma_basic_step(b: BasicType, rest: Seq<Word>)
    requires
        is_valid_width_spec(b.width as usize),
    ensures
        spec_basic_type(basic_tokens(b) + rest) == (Some(b), rest),
{
    let t = basic_tokens(b) + rest;
    assert(t.skip(1).skip(1) =~= rest);
    assert(first(t.skip(1)) == Some(Word::Integer(b.width as usize)));
}

proof fn lemma_type_step(d: Option<DataType>, rest: Seq<Word>, m: Metadata)
    requires
        type_ok(d),
        m.data_type is None,
        first(rest) == Some(Word::Character('d')) || first(rest) == Some(Word::Space),
    ensures
        spec_data_type(type_tokens(d) + rest, m) == (true, rest, Metadata { data_type: d, ..m }),
{
    let t = type_tokens(d) + rest;
    match d {
        None => {
            assert(t =~= rest);
        },
        Some(DataType::Basic(b)) => {
            lemma_basic_step(b, rest);
        },
        Some(DataType::Array(b, n)) => {
            let tail = seq![
                Word::Semicolon,
                Word::Space,
                Word::Integer(n),
                Word::RightSquareBracket,
            ] + rest;
            assert(t.skip(1) =~= basic_tokens(b) + tail);
            lemma_basic_step(b, tail);
            let t3 = tail.skip(1);
            assert(t3.skip(1) =~= seq![Word::Integer(n), Word::RightSquareBracket] + rest);
            assert(spec_space(t3) == spec_space(t3.skip(1)));
            assert(spec_space(t3.skip(1)) == t3.skip(1));
            assert(t3.skip(1).skip(1).skip(1) =~= rest);
        },
        Some(DataType::Instruction) => {
            assert(t.skip(1) =~= rest);
        },
    }
}

proof fn lemma_print_step(print: PrintMode, rest: Seq<Word>, m: Metadata)
    requires
        first(rest) == Some(Word::Space),
    ensures
        spec_print_mode(print_tokens(print) + rest, m) == (
            true,
            rest,
            Metadata { print_mode: Some(print), ..m },
        ),
{
    let t = print_tokens(print) + rest;
    if print == PrintMode::Hex {
        assert(t =~= rest);
    } else {
        assert(t.skip(1) =~= rest);
    }
}

/// Every well-formed examine command parses to the metadata it stands for.
pub proof fn lemma_examine_round_trip(
    p: PrivilegeMode,
    format: Option<(Option<DataType>, PrintMode)>,
    address: usize,
)
    requires
        format matches Some((d, _)) ==> type_ok(d),
    ensures
        spec_command(examine_tokens(p, format, address), empty_metadata()).0,
        spec_command(examine_tokens(p, format, address), empty_metadata()).2 == examine_metadata(
            p,
            format,
            address,
        ),
{
    let m0 = empty_metadata();
    let tail = seq![Word::Space, Word::Integer(address)];
    assert(spec_space(tail) == spec_space(tail.skip(1)));
    assert(tail.skip(1) =~= seq![Word::Integer(address)]);
    let fmt = match format {
        Some((d, print)) => seq![Word::Backslash] + type_tokens(d) + print_tokens(print),
        None => Seq::empty(),
    };
    let t = examine_tokens(p, format, address);
    assert(t.skip(1) =~= privilege_tokens(p) + (fmt + tail));
    let m1 = Metadata { privileged_mode: Some(p), ..m0 };
    match format {
        Some((d, print)) => {
            lemma_privilege_step(p, fmt + tail, m0);
            assert((fmt + tail).skip(1) =~= type_tokens(d) + (print_tokens(print) + tail));
            lemma_print_step(print, tail, Metadata { data_type: d, ..m1 });
            lemma_type_step(d, print_tokens(print) + tail, m1);
        },
        None => {
            assert(fmt + tail =~= tail);
            lemma_privilege_step(p, tail, m0);
        },
    }
}

/// Moves the lookahead one token on.
fn advance(lx: &mut Lexer, sym: &mut Option<Word>)
    requires
        cursor_wf(*old(lx), *old(sym)),
        *old(sym) is Some,
    ensures
        cursor_wf(*final(lx), *final(sym)),
        final(lx).chars == old(lx).chars,
        stream(*final(lx), *final(sym)) == stream(*old(lx), *old(sym)).skip(1),
{
    let ghost t = stream(*lx, *sym);
    *sym = lx.next();
    proof {
        assert(t.skip(1) =~= old(lx).remaining());
        assert(stream(*lx, *sym) =~= t.skip(1));
    }
}

/// Parses one command line (`x ...` or `c`) into `m`.
pub fn command(lx: &mut Lexer, sym: &mut Option<Word>, m: &mut Metadata) -> (r: Result<(), ()>)
    requires
        cursor_wf(*old(lx), *old(sym)),
    ensures
        cursor_wf(*final(lx), *final(sym)),
        final(lx).chars == old(lx).chars,
        (r is Ok, stream(*final(lx), *final(sym)), *final(m)) == spec_command(
            stream(*old(lx), *old(sym)),
            *old(m),
        ),
{
    if matches!(*sym, Some(Word::Character('x'))) {
        x(lx, sym, m)
    } else if matches!(*sym, Some(Word::Character('c'))) {
        c(lx, sym, m)
    } else {
        Err(())
    }
}

/// `c`: continue the guest.
pub fn c(lx: &mut Lexer, sym: &mut Option<Word>, m: &mut Metadata) -> (r: Result<(), ()>)
    requires
        cursor_wf(*old(lx), *old(sym)),
    ensures
        cursor_wf(*final(lx), *final(sym)),
        final(lx).chars == old(lx).chars,
        (r is Ok, stream(*final(lx), *final(sym)), *final(m)) == spec_c(
            stream(*old(lx), *old(sym)),
            *old(m),
        ),
{
    if matches!(*sym, Some(Word::Character('c'))) {
        advance(lx, sym);
        m.command_type = Some(CommandType::C);
        Ok(())
    } else {
        Err(())
    }
}

/// `x privilege (/ type print)? space address`: examine memory.
pub fn x(lx: &mut Lexer, sym: &mut Option<Word>, m: &mut Metadata) -> (r: Result<(), ()>)
    requires
        cursor_wf(*old(lx), *old(sym)),
    ensures
        cursor_wf(*final(lx), *final(sym)),
        final(lx).chars == old(lx).chars,
        (r is Ok, stream(*final(lx), *final(sym)), *final(m)) == spec_x(
            stream(*old(lx), *old(sym)),
            *old(m),
        ),
{
    if !matches!(*sym, Some(Word::Character('x'))) {
        return Err(());
    }
    // Parse into a copy, so that a failure leaves `m` as it was.
    let mut parsed = *m;
    advance(lx, sym);
    privilege_mode(lx, sym, &mut parsed)?;
    if matches!(*sym, Some(Word::Backslash)) {
        advance(lx, sym);
        data_type(lx, sym, &mut parsed)?;
        print_mode(lx, sym, &mut parsed)?;
    }
    space(lx, sym)?;
    match *sym {
        Some(Word::Integer(i)) => {
            parsed.command_type = Some(CommandType::X);
            parsed.address_number = Some(i);
        },
        None => {
            parsed.command_type = Some(CommandType::X);
            parsed.address_number = None;
        },
        _ => return Err(()),
    }
    *m = parsed;
    Ok(())
}

/// `m`, `s`, `u`, or nothing (the current mode).
pub fn privilege_mode(lx: &mut Lexer, sym: &mut Option<Word>, m: &mut Metadata) -> (r: Result<
    (),
    (),
>)
    requires
        cursor_wf(*old(lx), *old(sym)),
    ensures
        cursor_wf(*final(lx), *final(sym)),
        final(lx).chars == old(lx).chars,
        (r is Ok, stream(*final(lx), *final(sym)), *final(m)) == spec_privilege_mode(
            stream(*old(lx), *old(sym)),
            *old(m),
        ),
{
    if matches!(*sym, Some(Word::Character('m'))) {
        advance(lx, sym);
        m.privileged_mode = Some(PrivilegeMode::Machine);
        Ok(())
    } else if matches!(*sym, Some(Word::Character('s'))) {
        advance(lx, sym);
        m.privileged_mode = Some(PrivilegeMode::Supervisor);
        Ok(())
    } else if matches!(*sym, Some(Word::Character('u'))) {
        advance(lx, sym);
        m.privileged_mode = Some(PrivilegeMode::User);
        Ok(())
    } else if matches!(*sym, Some(Word::Backslash) | None | Some(Word::Space)) {
        m.privileged_mode = Some(DEFAULT_PRIVILEGE);
        Ok(())
    } else {
        Err(())
    }
}

/// `[basic; length]`, `z`, or an optional basic type.
pub fn data_type(lx: &mut Lexer, sym: &mut Option<Word>, m: &mut Metadata) -> (r: Result<(), ()>)
    requires
        cursor_wf(*old(lx), *old(sym)),
    ensures
        cursor_wf(*final(lx), *final(sym)),
        final(lx).chars == old(lx).chars,
        (r is Ok, stream(*final(lx), *final(sym)), *final(m)) == spec_data_type(
            stream(*old(lx), *old(sym)),
            *old(m),
        ),
{
    if matches!(*sym, Some(Word::LeftSquareBracket)) {
        advance(lx, sym);
        let basic = basic_type(lx, sym)?;
        if !matches!(*sym, Some(Word::Semicolon)) {
            return Err(());
        }
        advance(lx, sym);
        space(lx, sym)?;
        let array_len = match *sym {
            Some(Word::Integer(i)) => i,
            _ => return Err(()),
        };
        advance(lx, sym);
        if !matches!(*sym, Some(Word::RightSquareBracket)) {
            return Err(());
        }
        advance(lx, sym);
        m.data_type = Some(DataType::Array(basic, array_len));
        Ok(())
    } else if matches!(*sym, Some(Word::Character('z'))) {
        advance(lx, sym);
        m.data_type = Some(DataType::Instruction);
        Ok(())
    } else if matches!(*sym, Some(Word::Character('u')) | Some(Word::Character('i'))) {
        let basic = basic_type(lx, sym)?;
        m.data_type = Some(DataType::Basic(basic));
        Ok(())
    } else {
        Ok(())
    }
}

/// `u` or `i` followed by a width of 8, 16, 32, 64 or 128 bits.
pub fn basic_type(lx: &mut Lexer, sym: &mut Option<Word>) -> (r: Result<BasicType, ()>)
    requires
        cursor_wf(*old(lx), *old(sym)),
    ensures
        cursor_wf(*final(lx), *final(sym)),
        final(lx).chars == old(lx).chars,
        (
            match r {
                Ok(b) => Some(b),
                Err(_) => None,
            },
            stream(*final(lx), *final(sym)),
        ) == spec_basic_type(stream(*old(lx), *old(sym))),
{
    let signed = if matches!(*sym, Some(Word::Character('u'))) {
        false
    } else if matches!(*sym, Some(Word::Character('i'))) {
        true
    } else {
        return Err(());
    };
    advance(lx, sym);
    match *sym {
        Some(Word::Integer(i)) => {
            if !is_valid_width(i) {
                return Err(());
            }
            advance(lx, sym);
            Ok(BasicType { signed, width: i as u8 })
        },
        _ => Err(()),
    }
}

pub fn is_valid_width(a: usize) -> (r: bool)
    ensures
        r == is_valid_width_spec(a),
{
    a == 8 || a == 16 || a == 32 || a == 64 || a == 128
}

/// Skips any whitespace tokens.
pub fn space(lx: &mut Lexer, sym: &mut Option<Word>) -> (r: Result<(), ()>)
    requires
        cursor_wf(*old(lx), *old(sym)),
    ensures
        r is Ok,
        cursor_wf(*final(lx), *final(sym)),
        final(lx).chars == old(lx).chars,
        stream(*final(lx), *final(sym)) == spec_space(stream(*old(lx), *old(sym))),
{
    while matches!(*sym, Some(Word::Space))
        invariant
            cursor_wf(*lx, *sym),
            lx.chars == old(lx).chars,
            spec_space(stream(*lx, *sym)) == spec_space(stream(*old(lx), *old(sym))),
        decreases stream(*lx, *sym).len(),
    {
        advance(lx, sym);
    }
    Ok(())
}

/// `d` for decimal, or nothing for hexadecimal.
pub fn print_mode(lx: &mut Lexer, sym: &mut Option<Word>, m: &mut Metadata) -> (r: Result<(), ()>)
    requires
        cursor_wf(*old(lx), *old(sym)),
    ensures
        cursor_wf(*final(lx), *final(sym)),
        final(lx).chars == old(lx).chars,
        (r is Ok, stream(*final(lx), *final(sym)), *final(m)) == spec_print_mode(
            stream(*old(lx), *old(sym)),
            *old(m),
        ),
{
    if matches!(*sym, Some(Word::Character('d'))) {
        advance(lx, sym);
        m.print_mode = Some(PrintMode::Decimal);
        Ok(())
    } else if matches!(*sym, None | Some(Word::Space)) {
        m.print_mode = Some(DEFAULT_PRINT_MODE);
        Ok(())
    } else {
        Err(())
    }
}

/// Parses a whole line: `Some` with its metadata where it is a valid command.
pub fn parse_line(line: &str) -> (r: Option<Metadata>)
    ensures
        r == parse_line_spec(line@),
{
    let mut lx = lexer(line);
    let ghost s = line@;
    let mut sym = lx.next();
    proof {
        assert(stream(lx, sym) =~= tokens(s));
    }
    let mut m = Metadata::new();
    match command(&mut lx, &mut sym, &mut m) {
        Ok(()) => Some(m),
        Err(()) => None,
    }
}

} // verus!
