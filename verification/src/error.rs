//! The three error families of the pipeline, in propagation order: scanning
//! faults (collected, never fatal to the scanner), parse faults (collected
//! with panic-mode recovery), and runtime faults (abort the current unit).
//! Each error carries the source line it arose on; rendering for humans is
//! left to the embedding program.

use vstd::prelude::*;
use crate::token::{TokenType, ValueKind, clone_bytes};

verus! {

/// What went wrong while scanning.
#[derive(Clone, Copy, Debug, PartialEq, Eq, Structural)]
pub enum ScanErrorKind {
    UnexpectedCharacter,
    UnterminatedString,
}

/// A fault found while scanning, with the line it was found on.
#[derive(Clone, Copy, Debug, PartialEq, Eq, Structural)]
pub struct ScanError {
    pub kind: ScanErrorKind,
    pub line: usize,
}

/// Collector for scanning faults.  Scanning is total recovery: one bad byte
/// never prevents collecting the rest of the unit's errors, so faults are
/// accumulated here and scanning continues.
pub struct ScannerError {
    pub had_err: bool,
    pub errors: Vec<ScanError>,
}

impl ScannerError {
    /// A collector with no faults recorded.
    pub fn new() -> (s: ScannerError)
        ensures
            !s.had_err,
            s.errors@ == Seq::<ScanError>::empty(),
    {
        ScannerError { had_err: false, errors: Vec::new() }
    }

    /// Records one scanning fault.
    pub fn send(&mut self, line: usize, kind: ScanErrorKind)
        ensures
            final(self).had_err,
            final(self).errors@ == old(self).errors@.push(ScanError { kind, line }),
    {
        self.had_err = true;
        self.errors.push(ScanError { kind, line });
    }
}

impl Default for ScannerError {
    /// Same as [`ScannerError::new`].
    fn default() -> (s: ScannerError)
        ensures
            !s.had_err,
            s.errors@ == Seq::<ScanError>::empty(),
    {
        ScannerError::new()
    }
}

/// What went wrong while parsing.
#[derive(Clone, Copy, Debug, PartialEq, Eq, Structural)]
pub enum ParseIssueKind {
    /// A token that cannot begin an expression stood where one was needed.
    ExpectExpression,
    /// A specific token was required (a closing parenthesis, a semicolon,
    /// a variable name, ...) and something else stood there.
    Expected(TokenType),
    /// The left side of an `=` does not reduce to a variable.
    InvalidAssignmentTarget,
}

/// The mathematical model of a parse fault: the view of a [`ParseIssue`].
#[verifier::ext_equal]
pub ghost struct ParseIssueV {
    pub kind: ParseIssueKind,
    pub line: nat,
    pub lexeme: Seq<u8>,
    pub token_type: TokenType,
}

/// A parse fault: its kind, the offending token's category, lexeme and
/// line.  The token category lets a reporter distinguish a fault at the end
/// of input from one at a concrete token.
#[derive(Debug)]
pub struct ParseIssue {
    pub kind: ParseIssueKind,
    pub line: usize,
    pub lexeme: Vec<u8>,
    pub token_type: TokenType,
}

impl View for ParseIssue {
    type V = ParseIssueV;

    open spec fn view(&self) -> ParseIssueV {
        ParseIssueV {
            kind: self.kind,
            line: self.line as nat,
            lexeme: self.lexeme@,
            token_type: self.token_type,
        }
    }
}

impl ParseIssue {
    /// Structural copy.
    pub fn dup(&self) -> (r: ParseIssue)
        ensures
            r@ == self@,
    {
        ParseIssue {
            kind: self.kind,
            line: self.line,
            lexeme: clone_bytes(&self.lexeme),
            token_type: self.token_type,
        }
    }
}

/// Collector for parse faults.  The parser resynchronizes at statement
/// boundaries after a fault and keeps collecting, so faults accumulate here;
/// any recorded fault blocks evaluation of the unit.
pub struct ParseError {
    pub had_err: bool,
    pub issues: Vec<ParseIssue>,
}

impl ParseError {
    /// A collector with the given initial flag and no faults recorded.
    pub fn new(had_err: bool) -> (p: ParseError)
        ensures
            p.had_err == had_err,
            p.issues@ == Seq::<ParseIssue>::empty(),
    {
        ParseError { had_err, issues: Vec::new() }
    }

    /// Records one parse fault.
    pub fn send(&mut self, issue: ParseIssue)
        ensures
            final(self).had_err,
            final(self).issues@ == old(self).issues@.push(issue),
    {
        self.had_err = true;
        self.issues.push(issue);
    }
}

/// The mathematical model of a runtime fault kind.
#[verifier::ext_equal]
pub ghost enum RuntimeErrorKindV {
    /// A binary operator was applied to operand kinds it does not accept.
    TypeMismatch { op: TokenType, left: ValueKind, right: ValueKind },
    /// A unary operator was applied to an operand kind it does not accept.
    TypeMismatchUnary { op: TokenType, operand: ValueKind },
    /// A name was referenced or assigned that no enclosing scope declares.
    UndefinedVariable { name: Seq<u8> },
    /// The right operand of a division was zero.
    DivisionByZero,
}

/// What went wrong while evaluating.
#[derive(Debug)]
pub enum RuntimeErrorKind {
    TypeMismatch { op: TokenType, left: ValueKind, right: ValueKind },
    TypeMismatchUnary { op: TokenType, operand: ValueKind },
    UndefinedVariable { name: Vec<u8> },
    DivisionByZero,
}

/// The mathematical model of a runtime fault: the view of a
/// [`RuntimeError`].
#[verifier::ext_equal]
pub ghost struct RuntimeErrorV {
    pub kind: RuntimeErrorKindV,
    pub line: nat,
}

/// A runtime fault: its kind and the line of the token that raised it.
/// It aborts the remainder of the current unit.
#[derive(Debug)]
pub struct RuntimeError {
    pub kind: RuntimeErrorKind,
    pub line: usize,
}

impl View for RuntimeError {
    type V = RuntimeErrorV;

    open spec fn view(&self) -> RuntimeErrorV {
        RuntimeErrorV {
            kind: match &self.kind {
                RuntimeErrorKind::TypeMismatch { op, left, right } =>
                    RuntimeErrorKindV::TypeMismatch { op: *op, left: *left, right: *right },
                RuntimeErrorKind::TypeMismatchUnary { op, operand } =>
                    RuntimeErrorKindV::TypeMismatchUnary { op: *op, operand: *operand },
                RuntimeErrorKind::UndefinedVariable { name } =>
                    RuntimeErrorKindV::UndefinedVariable { name: name@ },
                RuntimeErrorKind::DivisionByZero => RuntimeErrorKindV::DivisionByZero,
            },
            line: self.line as nat,
        }
    }
}

} // verus!
