//! Compilation errors and the source excerpt shown with them.
use vstd::prelude::*;
use crate::text::{decimal, put, put_bytes, put_decimal, text};

verus! {

/// What the parser was looking for when it met an unexpected token.
#[derive(Clone, Copy, Debug, PartialEq, Eq, Structural)]
pub enum Expected {
    /// The sentinel that opens every token stream.
    Initial,
    /// A type name.
    TypeName,
    /// An identifier.
    Identifier,
    /// A number, a variable or a call.
    Operand,
    /// `(`
    OpenParen,
    /// `)`
    CloseParen,
    /// `{`
    OpenBrace,
    /// `;`
    Semicolon,
    /// `=`
    Assign,
    /// `,` or `)`
    CommaOrCloseParen,
}

/// Why a compilation stopped. Every error is fatal: the first one met ends
/// the pass.
#[derive(Clone, Copy, Debug, PartialEq, Eq, Structural)]
pub enum CompileError {
    /// The byte at `pos` starts no token.
    LexError { pos: usize },
    /// The token with the offset `pos` and the length `len` does not fit the
    /// grammar. The offset is the one that the token records: that of its
    /// end.
    ParseError { pos: usize, len: usize, expected: Expected },
    /// A variable is used where no binding of it is visible.
    UndeclaredSymbol,
    /// A variable is declared twice in one scope.
    SymbolRedeclared,
    /// More than six parameters or arguments.
    ArityError,
    /// A node lacks a subexpression that its kind requires.
    MissingOperand,
}

/// Keeps the source text for the error messages: appends it to `store`.
pub fn init_error(store: &mut Vec<u8>, input: &Vec<u8>)
    ensures
        final(store)@ == old(store)@ + input@,
{
    put_bytes(store, input);
}

/// Where the excerpt around offset `pos` starts: ten bytes before `pos`, or
/// at the start or the end of the input where that is nearer.
pub open spec fn excerpt_start(input: Seq<u8>, pos: nat) -> nat {
    if pos < 10 {
        0
    } else if pos - 10 < excerpt_end(input, pos) {
        (pos - 10) as nat
    } else {
        excerpt_end(input, pos)
    }
}

/// Where the excerpt around offset `pos` ends: ten bytes after `pos`, or at
/// the end of the input where that is nearer.
pub open spec fn excerpt_end(input: Seq<u8>, pos: nat) -> nat {
    if pos + 10 < input.len() {
        pos + 10
    } else {
        input.len()
    }
}

/// The part of the input that an error message shows for offset `pos`: up to
/// ten bytes before it and ten from it on.
pub open spec fn excerpt(input: Seq<u8>, pos: nat) -> Seq<u8> {
    input.subrange(excerpt_start(input, pos) as int, excerpt_end(input, pos) as int)
}

/// The part of the input around offset `pos`: see `excerpt`.
pub fn display_around_pos(input: &Vec<u8>, pos: usize) -> (shown: Vec<u8>)
    ensures
        shown@ == excerpt(input@, pos as nat),
        shown@.len() <= 20,
{
    let len = input.len();
    let end = if pos < len && len - pos > 10 {
        pos + 10
    } else {
        len
    };
    let start = if pos < 10 {
        0
    } else if pos - 10 < end {
        pos - 10
    } else {
        end
    };
    let mut shown: Vec<u8> = Vec::new();
    let mut i: usize = start;
    while i < end
        invariant
            start <= i <= end <= input@.len(),
            shown@ == input@.subrange(start as int, i as int),
        decreases end - i,
    {
        shown.push(input[i]);
        assert(shown@ =~= input@.subrange(start as int, i + 1));
        i += 1;
    }
    shown
}

/// `n` times the byte `b`.
pub open spec fn repeat(b: u8, n: nat) -> Seq<u8> {
    Seq::new(n, |i: int| b)
}

/// Appends `n` times the byte `b` to `out`.
fn put_repeat(out: &mut Vec<u8>, b: u8, n: usize)
    ensures
        final(out)@ == old(out)@ + repeat(b, n as nat),
{
    let mut i: usize = 0;
    assert(out@ =~= old(out)@ + repeat(b, 0));
    while i < n
        invariant
            i <= n,
            out@ == old(out)@ + repeat(b, i as nat),
        decreases n - i,
    {
        out.push(b);
        i += 1;
        assert(out@ =~= old(out)@ + repeat(b, i as nat));
    }
}

/// The report of an error at offset `input_pos` of the input, for a token of
/// `tok_len` bytes: the offset and the length, the excerpt around the
/// offset, a line that underlines the token in the excerpt with `^`, and the
/// message.
pub open spec fn error_report(input: Seq<u8>, input_pos: nat, message: Seq<u8>, tok_len: nat) -> Seq<
    u8,
> {
    text("input pos: ") + decimal(input_pos) + text("\ntok len: ") + decimal(tok_len) + text(
        "\nErr place:\n",
    ) + excerpt(input, input_pos) + text("\n") + repeat(
        ' ' as u8,
        (input_pos - excerpt_start(input, input_pos)) as nat,
    ) + repeat('^' as u8, tok_len) + text("\nErr message: ") + message + text("\n")
}

/// The report of an error: see `error_report`.
pub fn error_text(input: &Vec<u8>, input_pos: usize, message: &Vec<u8>, tok_len: usize) -> (report:
    Vec<u8>)
    ensures
        report@ == error_report(input@, input_pos as nat, message@, tok_len as nat),
{
    let mut out: Vec<u8> = Vec::new();
    put(&mut out, "input pos: ");
    assert(out@ =~= text("input pos: "));
    put_decimal(&mut out, input_pos as u128);
    put(&mut out, "\ntok len: ");
    put_decimal(&mut out, tok_len as u128);
    put(&mut out, "\nErr place:\n");
    let shown = display_around_pos(input, input_pos);
    put_bytes(&mut out, &shown);
    put(&mut out, "\n");
    let indent = if input_pos < 10 {
        input_pos
    } else if input_pos - 10 < input.len() {
        10
    } else {
        input_pos - input.len()
    };
    put_repeat(&mut out, ' ' as u8, indent);
    put_repeat(&mut out, '^' as u8, tok_len);
    put(&mut out, "\nErr message: ");
    put_bytes(&mut out, message);
    put(&mut out, "\n");
    out
}

/// The words for what the parser was looking for.
pub open spec fn expectation(expected: Expected) -> Seq<u8> {
    match expected {
        Expected::Initial => text("expect INI token"),
        Expected::TypeName => text("expect a type"),
        Expected::Identifier => text("expect an identifier"),
        Expected::Operand => text("expect a number, a variable or a call"),
        Expected::OpenParen => text("expect `(`"),
        Expected::CloseParen => text("expect `)`"),
        Expected::OpenBrace => text("expect `{`"),
        Expected::Semicolon => text("expect `;`"),
        Expected::Assign => text("expect `=`"),
        Expected::CommaOrCloseParen => text("expect `,` or `)`"),
    }
}

/// The message of an error: its kind, and what was expected where the parser
/// met something else.
pub open spec fn message_of(e: CompileError) -> Seq<u8> {
    match e {
        CompileError::LexError { pos } => text("LexError: unrecognized input"),
        CompileError::ParseError { pos, len, expected } => text("ParseError: ") + expectation(
            expected,
        ),
        CompileError::UndeclaredSymbol => text("UndeclaredSymbol: variable not found"),
        CompileError::SymbolRedeclared => text("SymbolRedeclared: symbol duplicated"),
        CompileError::ArityError => text("ArityError: more than six parameters or arguments"),
        CompileError::MissingOperand => text("MissingOperand: a node lacks a subexpression"),
    }
}

/// What an error message shows of an error: for an error of the lexer the
/// report for the one byte at its offset, for an error of the parser the
/// report for the offending token, and else the message alone.
pub open spec fn describe_spec(e: CompileError, input: Seq<u8>) -> Seq<u8> {
    match e {
        CompileError::LexError { pos } => error_report(input, pos as nat, message_of(e), 1),
        CompileError::ParseError { pos, len, expected } => error_report(
            input,
            if pos >= len {
                (pos - len) as nat
            } else {
                0
            },
            message_of(e),
            len as nat,
        ),
        _ => message_of(e) + text("\n"),
    }
}

impl CompileError {
    /// The message of the error: see `message_of`.
    pub fn message(&self) -> (m: Vec<u8>)
        ensures
            m@ == message_of(*self),
    {
        let mut m: Vec<u8> = Vec::new();
        match self {
            CompileError::LexError { pos } => {
                put(&mut m, "LexError: unrecognized input");
                assert(m@ =~= message_of(*self));
            },
            CompileError::ParseError { pos, len, expected } => {
                put(&mut m, "ParseError: ");
                assert(m@ =~= text("ParseError: "));
                match expected {
                    Expected::Initial => put(&mut m, "expect INI token"),
                    Expected::TypeName => put(&mut m, "expect a type"),
                    Expected::Identifier => put(&mut m, "expect an identifier"),
                    Expected::Operand => put(&mut m, "expect a number, a variable or a call"),
                    Expected::OpenParen => put(&mut m, "expect `(`"),
                    Expected::CloseParen => put(&mut m, "expect `)`"),
                    Expected::OpenBrace => put(&mut m, "expect `{`"),
                    Expected::Semicolon => put(&mut m, "expect `;`"),
                    Expected::Assign => put(&mut m, "expect `=`"),
                    Expected::CommaOrCloseParen => put(&mut m, "expect `,` or `)`"),
                }
            },
            CompileError::UndeclaredSymbol => {
                put(&mut m, "UndeclaredSymbol: variable not found");
                assert(m@ =~= message_of(*self));
            },
            CompileError::SymbolRedeclared => {
                put(&mut m, "SymbolRedeclared: symbol duplicated");
                assert(m@ =~= message_of(*self));
            },
            CompileError::ArityError => {
                put(&mut m, "ArityError: more than six parameters or arguments");
                assert(m@ =~= message_of(*self));
            },
            CompileError::MissingOperand => {
                put(&mut m, "MissingOperand: a node lacks a subexpression");
                assert(m@ =~= message_of(*self));
            },
        }
        m
    }

    /// What to show of the error, for the source text `input`: see
    /// `describe_spec`.
    pub fn describe(&self, input: &Vec<u8>) -> (shown: Vec<u8>)
        ensures
            shown@ == describe_spec(*self, input@),
    {
        let message = self.message();
        match self {
            CompileError::LexError { pos } => error_text(input, *pos, &message, 1),
            CompileError::ParseError { pos, len, expected } => {
                let start = if *pos >= *len {
                    *pos - *len
                } else {
                    0
                };
                error_text(input, start, &message, *len)
            },
            _ => {
                let mut shown = message;
                put(&mut shown, "\n");
                shown
            },
        }
    }
}

} // verus!
