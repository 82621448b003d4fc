//! The lexical vocabulary shared by all stages: token categories, runtime
//! values, and tokens.
//!
//! Runtime numbers are 64-bit signed integers.  A numeric literal is a digit
//! run optionally followed by `.` and another digit run; the value is the
//! integer part, truncated, and clamped to the representable range.
//! Arithmetic saturates at the representable bounds (see `sat64`).

use vstd::prelude::*;

verus! {

// Named byte values, so that specs and code can speak about source bytes
// without bare numerals.
pub const B_TAB: u8 = 9;
pub const B_NL: u8 = 10;
pub const B_CR: u8 = 13;
pub const B_SPACE: u8 = 32;
pub const B_BANG: u8 = 33;
pub const B_DQUOTE: u8 = 34;
pub const B_SQUOTE: u8 = 39;
pub const B_LPAREN: u8 = 40;
pub const B_RPAREN: u8 = 41;
pub const B_STAR: u8 = 42;
pub const B_PLUS: u8 = 43;
pub const B_COMMA: u8 = 44;
pub const B_MINUS: u8 = 45;
pub const B_DOT: u8 = 46;
pub const B_SLASH: u8 = 47;
pub const B_ZERO: u8 = 48;
pub const B_NINE: u8 = 57;
pub const B_SEMI: u8 = 59;
pub const B_LT: u8 = 60;
pub const B_EQ: u8 = 61;
pub const B_GT: u8 = 62;
pub const B_QMARK: u8 = 63;
pub const B_CAP_A: u8 = 65;
pub const B_CAP_N: u8 = 78;
pub const B_CAP_Z: u8 = 90;
pub const B_USCORE: u8 = 95;
pub const B_A: u8 = 97;
pub const B_B: u8 = 98;
pub const B_C: u8 = 99;
pub const B_D: u8 = 100;
pub const B_E: u8 = 101;
pub const B_F: u8 = 102;
pub const B_G: u8 = 103;
pub const B_H: u8 = 104;
pub const B_I: u8 = 105;
pub const B_L: u8 = 108;
pub const B_N: u8 = 110;
pub const B_O: u8 = 111;
pub const B_P: u8 = 112;
pub const B_R: u8 = 114;
pub const B_S: u8 = 115;
pub const B_T: u8 = 116;
pub const B_U: u8 = 117;
pub const B_V: u8 = 118;
pub const B_W: u8 = 119;
pub const B_Z: u8 = 122;
pub const B_LBRACE: u8 = 123;
pub const B_RBRACE: u8 = 125;

/// The lexical category of a token.
#[derive(Clone, Copy, Debug, PartialEq, Eq, Structural)]
pub enum TokenType {
    // Single-character tokens.
    LeftParen,
    RightParen,
    LeftBrace,
    RightBrace,
    Comma,
    Dot,
    Minus,
    Plus,
    Semicolon,
    Slash,
    Star,
    // One or two character tokens.
    Bang,
    BangEqual,
    Equal,
    EqualEqual,
    Greater,
    GreaterEqual,
    Less,
    LessEqual,
    // Literals.
    Identifier,
    StringLit,
    Number,
    // Keywords.
    And,
    Class,
    Else,
    False,
    Fun,
    For,
    If,
    Null,
    Or,
    Print,
    Return,
    Super,
    This,
    True,
    Var,
    While,
    Eof,
}

/// The mathematical model of a runtime datum: the view of an [`Object`].
#[verifier::ext_equal]
pub ghost enum Value {
    Str(Seq<u8>),
    Num(int),
    Bool(bool),
    Null,
}

/// The kind of a runtime datum, used when reporting a type mismatch.
#[derive(Clone, Copy, Debug, PartialEq, Eq, Structural)]
pub enum ValueKind {
    Str,
    Num,
    Bool,
    Null,
}

/// A runtime datum: tagged union over strings (as raw bytes), 64-bit
/// integers, booleans and null.
#[derive(Debug)]
pub enum Object {
    Str(Vec<u8>),
    Num(i64),
    Bool(bool),
    Null,
}

impl View for Object {
    type V = Value;

    open spec fn view(&self) -> Value {
        match self {
            Object::Str(s) => Value::Str(s@),
            Object::Num(n) => Value::Num(*n as int),
            Object::Bool(b) => Value::Bool(*b),
            Object::Null => Value::Null,
        }
    }
}

/// The truthiness rule governing every boolean context: null is false,
/// booleans pass through, a string is true when non-empty, a number is true
/// unless it equals zero.
pub open spec fn truthy(v: Value) -> bool {
    match v {
        Value::Null => false,
        Value::Bool(b) => b,
        Value::Str(s) => s.len() > 0,
        Value::Num(n) => n != 0,
    }
}

/// The kind of a value.
pub open spec fn kind_of(v: Value) -> ValueKind {
    match v {
        Value::Str(_) => ValueKind::Str,
        Value::Num(_) => ValueKind::Num,
        Value::Bool(_) => ValueKind::Bool,
        Value::Null => ValueKind::Null,
    }
}

/// Decimal digits of a non-negative integer, most significant first.
pub open spec fn dec_digits(n: nat) -> Seq<u8>
    decreases n,
{
    if n < 10 {
        seq![(48 + n) as u8]
    } else {
        dec_digits(n / 10) + seq![(48 + n % 10) as u8]
    }
}

/// Decimal rendering of an integer, with a leading minus sign if negative.
pub open spec fn int_display(n: int) -> Seq<u8> {
    if n < 0 {
        seq![B_MINUS] + dec_digits((-n) as nat)
    } else {
        dec_digits(n as nat)
    }
}

/// The display string of a value: the bytes written by a print statement.
pub open spec fn display(v: Value) -> Seq<u8> {
    match v {
        Value::Null => seq![B_CAP_N, B_O, B_N, B_E],
        Value::Str(s) => s,
        Value::Num(n) => int_display(n),
        Value::Bool(b) => if b {
            seq![B_T, B_R, B_U, B_E]
        } else {
            seq![B_F, B_A, B_L, B_S, B_E]
        },
    }
}

/// Clamp a mathematical integer into the representable 64-bit range.
pub open spec fn sat64(n: int) -> int {
    if n < i64::MIN {
        i64::MIN as int
    } else if n > i64::MAX {
        i64::MAX as int
    } else {
        n
    }
}

/// Copies a byte vector.
pub fn clone_bytes(v: &Vec<u8>) -> (r: Vec<u8>)
    ensures
        r@ == v@,
{
    let r = v.clone();
    proof {
        assert forall|i: int| 0 <= i < v@.len() implies r@[i] == v@[i] by {
            assert(cloned::<u8>(v@[i], r@[i]));
        }
        assert(r@ =~= v@);
    }
    r
}

/// Copies `src[a..b)` into a fresh vector.
pub fn copy_range(src: &Vec<u8>, a: usize, b: usize) -> (r: Vec<u8>)
    requires
        a <= b <= src@.len(),
    ensures
        r@ == src@.subrange(a as int, b as int),
{
    let mut r: Vec<u8> = Vec::new();
    proof {
        assert(r@ =~= src@.subrange(a as int, a as int));
    }
    let mut i: usize = a;
    while i < b
        invariant
            a <= i <= b <= src@.len(),
            r@ == src@.subrange(a as int, i as int),
        decreases b - i,
    {
        r.push(src[i]);
        proof {
            assert(src@.subrange(a as int, i as int).push(src@[i as int]) =~= src@.subrange(
                a as int,
                i + 1,
            ));
        }
        i = i + 1;
    }
    r
}

/// Compares two byte vectors for equality.
pub fn bytes_eq(a: &Vec<u8>, b: &Vec<u8>) -> (r: bool)
    ensures
        r == (a@ == b@),
{
    if a.len() != b.len() {
        return false;
    }
    let mut i: usize = 0;
    while i < a.len()
        invariant
            i <= a.len(),
            a@.len() == b@.len(),
            forall|j: int| 0 <= j < i ==> a@[j] == b@[j],
        decreases a.len() - i,
    {
        if a[i] != b[i] {
            return false;
        }
        i = i + 1;
    }
    proof {
        assert(a@ =~= b@);
    }
    true
}

/// Appends the bytes of `src` to `dst`.
pub fn push_all(dst: &mut Vec<u8>, src: &Vec<u8>)
    ensures
        final(dst)@ == old(dst)@ + src@,
{
    let mut i: usize = 0;
    while i < src.len()
        invariant
            i <= src.len(),
            dst@ == old(dst)@ + src@.subrange(0, i as int),
        decreases src.len() - i,
    {
        dst.push(src[i]);
        proof {
            assert(old(dst)@ + src@.subrange(0, i as int) + seq![src@[i as int]] =~= old(dst)@
                + src@.subrange(0, i + 1));
        }
        i = i + 1;
    }
    proof {
        assert(src@.subrange(0, src@.len() as int) =~= src@);
    }
}

/// Appends the decimal digits of `m` to `out`.
fn push_dec_digits(out: &mut Vec<u8>, m: u64)
    ensures
        final(out)@ == old(out)@ + dec_digits(m as nat),
    decreases m,
{
    if m < 10 {
        out.push(48 + m as u8);
        proof {
            assert(old(out)@.push((48 + m as nat) as u8) =~= old(out)@ + dec_digits(m as nat));
        }
    } else {
        push_dec_digits(out, m / 10);
        out.push(48 + (m % 10) as u8);
        proof {
            assert(old(out)@ + dec_digits((m / 10) as nat) + seq![(48 + (m as nat) % 10) as u8]
                =~= old(out)@ + dec_digits(m as nat));
        }
    }
}

impl Object {
    /// Structural copy.
    pub fn dup(&self) -> (r: Object)
        ensures
            r@ == self@,
    {
        match self {
            Object::Str(s) => Object::Str(clone_bytes(s)),
            Object::Num(n) => Object::Num(*n),
            Object::Bool(b) => Object::Bool(*b),
            Object::Null => Object::Null,
        }
    }

    /// The display bytes of this value, as written by a print statement.
    pub fn to_string(&self) -> (r: Vec<u8>)
        ensures
            r@ == display(self@),
    {
        match self {
            Object::Null => {
                let mut r: Vec<u8> = Vec::new();
                r.push(B_CAP_N);
                r.push(B_O);
                r.push(B_N);
                r.push(B_E);
                proof {
                    assert(r@ =~= display(self@));
                }
                r
            },
            Object::Str(s) => clone_bytes(s),
            Object::Bool(b) => {
                let mut r: Vec<u8> = Vec::new();
                if *b {
                    r.push(B_T);
                    r.push(B_R);
                    r.push(B_U);
                    r.push(B_E);
                } else {
                    r.push(B_F);
                    r.push(B_A);
                    r.push(B_L);
                    r.push(B_S);
                    r.push(B_E);
                }
                proof {
                    assert(r@ =~= display(self@));
                }
                r
            },
            Object::Num(n) => {
                let mut r: Vec<u8> = Vec::new();
                if *n < 0 {
                    r.push(B_MINUS);
                }
                let m: u64 = if *n == i64::MIN {
                    9223372036854775808u64
                } else if *n < 0 {
                    (-*n) as u64
                } else {
                    *n as u64
                };
                proof {
                    if *n < 0 {
                        assert(r@ =~= seq![B_MINUS]);
                        assert(m as nat == (-(*n as int)) as nat);
                    } else {
                        assert(r@ =~= Seq::<u8>::empty());
                        assert(Seq::<u8>::empty() + dec_digits(m as nat) =~= dec_digits(
                            m as nat));
                    }
                }
                push_dec_digits(&mut r, m);
                r
            },
        }
    }

    /// Truthiness of this value.
    pub fn is_true(&self) -> (r: bool)
        ensures
            r == truthy(self@),
    {
        match self {
            Object::Null => false,
            Object::Str(s) => s.len() > 0,
            Object::Num(n) => *n != 0,
            Object::Bool(b) => *b,
        }
    }

    /// The kind tag of this value.
    pub fn kind(&self) -> (k: ValueKind)
        ensures
            k == kind_of(self@),
    {
        match self {
            Object::Str(_) => ValueKind::Str,
            Object::Num(_) => ValueKind::Num,
            Object::Bool(_) => ValueKind::Bool,
            Object::Null => ValueKind::Null,
        }
    }
}

/// The mathematical model of a token: the view of a [`Token`].
#[verifier::ext_equal]
pub ghost struct TokenV {
    pub kind: TokenType,
    pub lexeme: Seq<u8>,
    pub literal: Value,
    pub line: nat,
}

/// A token: its lexical category, the exact source substring that produced
/// it, an optional literal payload (null when absent), and the source line
/// it ends on.
#[derive(Debug)]
pub struct Token {
    pub token_type: TokenType,
    pub lexeme: Vec<u8>,
    pub literal: Object,
    pub line: usize,
}

impl View for Token {
    type V = TokenV;

    open spec fn view(&self) -> TokenV {
        TokenV {
            kind: self.token_type,
            lexeme: self.lexeme@,
            literal: self.literal@,
            line: self.line as nat,
        }
    }
}

impl Token {
    /// Builds a token from its parts.
    pub fn new(token_type: TokenType, lexeme: Vec<u8>, literal: Object, line: usize) -> (t: Token)
        ensures
            t@ == (TokenV { kind: token_type, lexeme: lexeme@, literal: literal@, line: line as nat }),
    {
        Token { token_type, lexeme, literal, line }
    }

    /// Structural copy.
    pub fn dup(&self) -> (t: Token)
        ensures
            t@ == self@,
    {
        Token {
            token_type: self.token_type,
            lexeme: clone_bytes(&self.lexeme),
            literal: self.literal.dup(),
            line: self.line,
        }
    }
}

} // verus!
