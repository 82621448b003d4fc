//! The scanner: converts raw source bytes into an ordered token sequence,
//! collecting scanning faults along the way.  Scanning never aborts early:
//! a bad byte is recorded and scanning resumes at the next byte, and the
//! token stream always ends with an end-of-input token.
//!
//! The mathematical model is [`scan_rest`]: a recursive function over the
//! source bytes that produces exactly the tokens and faults the scanner
//! must emit.  [`Scanner::scan_tokens`] is proved to compute it.

use vstd::prelude::*;
use crate::token::{
    Object, Token, TokenType, TokenV, Value, clone_bytes,
    B_TAB, B_NL, B_CR, B_SPACE, B_BANG, B_DQUOTE, B_SQUOTE, B_LPAREN, B_RPAREN, B_STAR, B_PLUS,
    B_COMMA, B_MINUS, B_DOT, B_SLASH, B_ZERO, B_NINE, B_SEMI, B_LT, B_EQ, B_GT, B_CAP_A, B_CAP_Z,
    B_USCORE, B_A, B_C, B_D, B_E, B_F, B_H, B_I, B_L, B_N, B_O, B_P, B_R, B_S, B_T, B_U, B_V,
    B_W, B_Z, B_LBRACE, B_RBRACE,
};
use crate::error::{ScanError, ScanErrorKind, ScannerError};

verus! {

/// An ASCII decimal digit.
pub open spec fn is_digit(b: u8) -> bool {
    B_ZERO <= b && b <= B_NINE
}

/// A byte that may begin an identifier: an ASCII letter or underscore.
pub open spec fn is_alpha(b: u8) -> bool {
    (B_A <= b && b <= B_Z) || (B_CAP_A <= b && b <= B_CAP_Z) || b == B_USCORE
}

/// A byte that may continue an identifier: an ASCII letter or digit.
pub open spec fn is_alnum(b: u8) -> bool {
    (B_A <= b && b <= B_Z) || (B_CAP_A <= b && b <= B_CAP_Z) || is_digit(b)
}

/// First position at or after `p` holding a newline, or the end of input.
pub open spec fn line_end(src: Seq<u8>, p: int) -> int
    decreases src.len() - p,
{
    if p < src.len() && src[p] != B_NL {
        line_end(src, p + 1)
    } else {
        p
    }
}

/// First position at or after `p` not holding a digit.
pub open spec fn digits_end(src: Seq<u8>, p: int) -> int
    decreases src.len() - p,
{
    if p < src.len() && is_digit(src[p]) {
        digits_end(src, p + 1)
    } else {
        p
    }
}

/// First position at or after `p` not continuing an identifier.
pub open spec fn alnum_end(src: Seq<u8>, p: int) -> int
    decreases src.len() - p,
{
    if p < src.len() && is_alnum(src[p]) {
        alnum_end(src, p + 1)
    } else {
        p
    }
}

/// First position at or after `p` holding the closing quote `q`, or the end
/// of input when the string is unterminated.
pub open spec fn str_close(src: Seq<u8>, p: int, q: u8) -> int
    decreases src.len() - p,
{
    if p < src.len() && src[p] != q {
        str_close(src, p + 1, q)
    } else {
        p
    }
}

/// Number of newline bytes in `src[a..b)`.
pub open spec fn nl_count(src: Seq<u8>, a: int, b: int) -> nat
    decreases b - a,
{
    if a < b {
        (if src[a] == B_NL {
            1nat
        } else {
            0nat
        }) + nl_count(src, a + 1, b)
    } else {
        0
    }
}

/// The value of the decimal digit run `src[a..b)`.
pub open spec fn digits_val(src: Seq<u8>, a: int, b: int) -> int
    decreases b - a,
{
    if a < b {
        digits_val(src, a, b - 1) * 10 + (src[b - 1] - B_ZERO)
    } else {
        0
    }
}

/// A numeric literal's value: the digit-run value clamped to the
/// representable range.
pub open spec fn num_literal(src: Seq<u8>, a: int, b: int) -> int {
    if digits_val(src, a, b) > i64::MAX {
        i64::MAX as int
    } else {
        digits_val(src, a, b)
    }
}

/// The token category of an identifier lexeme: a keyword where the fixed
/// keyword table matches, a generic identifier otherwise.
pub open spec fn keyword_kind(lex: Seq<u8>) -> TokenType {
    if lex == seq![B_A, B_N, B_D] {
        TokenType::And
    } else if lex == seq![B_C, B_L, B_A, B_S, B_S] {
        TokenType::Class
    } else if lex == seq![B_E, B_L, B_S, B_E] {
        TokenType::Else
    } else if lex == seq![B_F, B_A, B_L, B_S, B_E] {
        TokenType::False
    } else if lex == seq![B_F, B_O, B_R] {
        TokenType::For
    } else if lex == seq![B_F, B_U, B_N] {
        TokenType::Fun
    } else if lex == seq![B_I, B_F] {
        TokenType::If
    } else if lex == seq![B_N, B_U, B_L, B_L] {
        TokenType::Null
    } else if lex == seq![B_O, B_R] {
        TokenType::Or
    } else if lex == seq![B_P, B_R, B_I, B_N, B_T] {
        TokenType::Print
    } else if lex == seq![B_R, B_E, B_T, B_U, B_R, B_N] {
        TokenType::Return
    } else if lex == seq![B_S, B_U, B_P, B_E, B_R] {
        TokenType::Super
    } else if lex == seq![B_T, B_H, B_I, B_S] {
        TokenType::This
    } else if lex == seq![B_T, B_R, B_U, B_E] {
        TokenType::True
    } else if lex == seq![B_V, B_A, B_R] {
        TokenType::Var
    } else if lex == seq![B_W, B_H, B_I, B_L, B_E] {
        TokenType::While
    } else {
        TokenType::Identifier
    }
}

/// A token view without a literal payload.
pub open spec fn tokv(kind: TokenType, lexeme: Seq<u8>, literal: Value, line: nat) -> TokenV {
    TokenV { kind, lexeme, literal, line }
}

/// The end-of-input token.
pub open spec fn eof_tok(line: nat) -> TokenV {
    tokv(TokenType::Eof, Seq::empty(), Value::Null, line)
}

/// What one step of the scanner does at position `pos` (which must hold a
/// byte): where scanning resumes, the line counter after the step, and the
/// token or fault emitted, if any.
pub ghost struct ScanStep {
    pub pos: int,
    pub line: nat,
    pub toks: Seq<TokenV>,
    pub errs: Seq<ScanError>,
}

/// A step emitting one token covering `src[pos..end)`.
pub open spec fn step_tok(
    src: Seq<u8>,
    end: int,
    line: nat,
    kind: TokenType,
    pos: int,
    literal: Value,
) -> ScanStep {
    ScanStep {
        pos: end,
        line,
        toks: seq![tokv(kind, src.subrange(pos, end), literal, line)],
        errs: Seq::empty(),
    }
}

/// A step emitting nothing.
pub open spec fn step_skip(end: int, line: nat) -> ScanStep {
    ScanStep { pos: end, line, toks: Seq::empty(), errs: Seq::empty() }
}

/// One step of the scanner at `pos`, with the line counter at `line`.
pub open spec fn scan_step(src: Seq<u8>, pos: int, line: nat) -> ScanStep {
    let c = src[pos];
    if c == B_LPAREN {
        step_tok(src, pos + 1, line, TokenType::LeftParen, pos, Value::Null)
    } else if c == B_RPAREN {
        step_tok(src, pos + 1, line, TokenType::RightParen, pos, Value::Null)
    } else if c == B_LBRACE {
        step_tok(src, pos + 1, line, TokenType::LeftBrace, pos, Value::Null)
    } else if c == B_RBRACE {
        step_tok(src, pos + 1, line, TokenType::RightBrace, pos, Value::Null)
    } else if c == B_COMMA {
        step_tok(src, pos + 1, line, TokenType::Comma, pos, Value::Null)
    } else if c == B_DOT {
        step_tok(src, pos + 1, line, TokenType::Dot, pos, Value::Null)
    } else if c == B_MINUS {
        step_tok(src, pos + 1, line, TokenType::Minus, pos, Value::Null)
    } else if c == B_PLUS {
        step_tok(src, pos + 1, line, TokenType::Plus, pos, Value::Null)
    } else if c == B_SEMI {
        step_tok(src, pos + 1, line, TokenType::Semicolon, pos, Value::Null)
    } else if c == B_STAR {
        step_tok(src, pos + 1, line, TokenType::Star, pos, Value::Null)
    } else if c == B_BANG {
        if pos + 1 < src.len() && src[pos + 1] == B_EQ {
            step_tok(src, pos + 2, line, TokenType::BangEqual, pos, Value::Null)
        } else {
            step_tok(src, pos + 1, line, TokenType::Bang, pos, Value::Null)
        }
    } else if c == B_EQ {
        if pos + 1 < src.len() && src[pos + 1] == B_EQ {
            step_tok(src, pos + 2, line, TokenType::EqualEqual, pos, Value::Null)
        } else {
            step_tok(src, pos + 1, line, TokenType::Equal, pos, Value::Null)
        }
    } else if c == B_LT {
        if pos + 1 < src.len() && src[pos + 1] == B_EQ {
            step_tok(src, pos + 2, line, TokenType::LessEqual, pos, Value::Null)
        } else {
            step_tok(src, pos + 1, line, TokenType::Less, pos, Value::Null)
        }
    } else if c == B_GT {
        if pos + 1 < src.len() && src[pos + 1] == B_EQ {
            step_tok(src, pos + 2, line, TokenType::GreaterEqual, pos, Value::Null)
        } else {
            step_tok(src, pos + 1, line, TokenType::Greater, pos, Value::Null)
        }
    } else if c == B_SLASH {
        if pos + 1 < src.len() && src[pos + 1] == B_SLASH {
            // A comment runs to the end of the line; the newline itself is
            // handled by the next step.
            step_skip(line_end(src, pos + 2), line)
        } else {
            step_tok(src, pos + 1, line, TokenType::Slash, pos, Value::Null)
        }
    } else if c == B_SPACE || c == B_CR || c == B_TAB {
        step_skip(pos + 1, line)
    } else if c == B_NL {
        step_skip(pos + 1, line + 1)
    } else if c == B_DQUOTE || c == B_SQUOTE {
        let e = str_close(src, pos + 1, c);
        let nline = line + nl_count(src, pos + 1, e);
        if e >= src.len() {
            ScanStep {
                pos: src.len() as int,
                line: nline,
                toks: Seq::empty(),
                errs: seq![ScanError { kind: ScanErrorKind::UnterminatedString, line: nline as usize }],
            }
        } else {
            ScanStep {
                pos: e + 1,
                line: nline,
                toks: seq![
                    tokv(
                        TokenType::StringLit,
                        src.subrange(pos, e + 1),
                        Value::Str(src.subrange(pos + 1, e)),
                        nline,
                    ),
                ],
                errs: Seq::empty(),
            }
        }
    } else if is_digit(c) {
        let ie = digits_end(src, pos + 1);
        let end = if ie + 1 < src.len() && src[ie] == B_DOT && is_digit(src[ie + 1]) {
            digits_end(src, ie + 1)
        } else {
            ie
        };
        step_tok(src, end, line, TokenType::Number, pos, Value::Num(num_literal(src, pos, ie)))
    } else if is_alpha(c) {
        let e = alnum_end(src, pos + 1);
        step_tok(src, e, line, keyword_kind(src.subrange(pos, e)), pos, Value::Null)
    } else {
        ScanStep {
            pos: pos + 1,
            line,
            toks: Seq::empty(),
            errs: seq![ScanError { kind: ScanErrorKind::UnexpectedCharacter, line: line as usize }],
        }
    }
}

/// All tokens and faults emitted from position `pos` to the end of input,
/// ending with the end-of-input token.
pub open spec fn scan_rest(src: Seq<u8>, pos: int, line: nat) -> (Seq<TokenV>, Seq<ScanError>)
    decreases src.len() - pos,
{
    if pos >= src.len() || pos < 0 {
        (seq![eof_tok(line)], Seq::empty())
    } else {
        let st = scan_step(src, pos, line);
        let np = if st.pos <= pos {
            pos + 1
        } else if st.pos > src.len() {
            src.len() as int
        } else {
            st.pos
        };
        let rest = scan_rest(src, np, st.line);
        (st.toks + rest.0, st.errs + rest.1)
    }
}

/// The full scan of a source unit: tokens and faults from the beginning,
/// starting on line 1.
pub open spec fn scan_spec(src: Seq<u8>) -> (Seq<TokenV>, Seq<ScanError>) {
    scan_rest(src, 0, 1)
}

/// The views of a token vector.
pub open spec fn toks_view(ts: Seq<Token>) -> Seq<TokenV> {
    ts.map_values(|t: Token| t@)
}

/// Characterizes `digits_end`: the position reached by a scan that skipped
/// exactly the digits.
proof fn lemma_digits_end_is(src: Seq<u8>, p: int, i: int)
    requires
        p <= i <= src.len(),
        forall|j: int| p <= j < i ==> is_digit(#[trigger] src[j]),
        i == src.len() || !is_digit(src[i]),
    ensures
        digits_end(src, p) == i,
    decreases i - p,
{
    if p < i {
        lemma_digits_end_is(src, p + 1, i);
    }
}

/// Characterizes `alnum_end` the same way.
proof fn lemma_alnum_end_is(src: Seq<u8>, p: int, i: int)
    requires
        p <= i <= src.len(),
        forall|j: int| p <= j < i ==> is_alnum(#[trigger] src[j]),
        i == src.len() || !is_alnum(src[i]),
    ensures
        alnum_end(src, p) == i,
    decreases i - p,
{
    if p < i {
        lemma_alnum_end_is(src, p + 1, i);
    }
}

/// Characterizes `line_end` the same way.
proof fn lemma_line_end_is(src: Seq<u8>, p: int, i: int)
    requires
        p <= i <= src.len(),
        forall|j: int| p <= j < i ==> #[trigger] src[j] != B_NL,
        i == src.len() || src[i] == B_NL,
    ensures
        line_end(src, p) == i,
    decreases i - p,
{
    if p < i {
        lemma_line_end_is(src, p + 1, i);
    }
}

/// Characterizes `str_close` the same way.
proof fn lemma_str_close_is(src: Seq<u8>, p: int, q: u8, i: int)
    requires
        p <= i <= src.len(),
        forall|j: int| p <= j < i ==> #[trigger] src[j] != q,
        i == src.len() || src[i] == q,
    ensures
        str_close(src, p, q) == i,
    decreases i - p,
{
    if p < i {
        lemma_str_close_is(src, p + 1, q, i);
    }
}

/// The value of a digit run is non-negative.
proof fn lemma_digits_val_nonneg(src: Seq<u8>, a: int, b: int)
    requires
        a <= b,
        forall|j: int| a <= j < b ==> is_digit(#[trigger] src[j]),
    ensures
        digits_val(src, a, b) >= 0,
    decreases b - a,
{
    if a < b {
        lemma_digits_val_nonneg(src, a, b - 1);
    }
}

/// The token category of an identifier lexeme, decided against the fixed
/// keyword table.
fn keyword_lookup(lex: &Vec<u8>) -> (t: TokenType)
    ensures
        t == keyword_kind(lex@),
{
    if lex.len() == 3 && lex[0] == B_A && lex[1] == B_N && lex[2] == B_D {
        proof {
            assert(lex@ =~= seq![B_A, B_N, B_D]);
        }
        return TokenType::And;
    }
    if lex.len() == 5 && lex[0] == B_C && lex[1] == B_L && lex[2] == B_A && lex[3] == B_S && lex[4]
        == B_S {
        proof {
            assert(lex@ =~= seq![B_C, B_L, B_A, B_S, B_S]);
        }
        return TokenType::Class;
    }
    if lex.len() == 4 && lex[0] == B_E && lex[1] == B_L && lex[2] == B_S && lex[3] == B_E {
        proof {
            assert(lex@ =~= seq![B_E, B_L, B_S, B_E]);
        }
        return TokenType::Else;
    }
    if lex.len() == 5 && lex[0] == B_F && lex[1] == B_A && lex[2] == B_L && lex[3] == B_S && lex[4]
        == B_E {
        proof {
            assert(lex@ =~= seq![B_F, B_A, B_L, B_S, B_E]);
        }
        return TokenType::False;
    }
    if lex.len() == 3 && lex[0] == B_F && lex[1] == B_O && lex[2] == B_R {
        proof {
            assert(lex@ =~= seq![B_F, B_O, B_R]);
        }
        return TokenType::For;
    }
    if lex.len() == 3 && lex[0] == B_F && lex[1] == B_U && lex[2] == B_N {
        proof {
            assert(lex@ =~= seq![B_F, B_U, B_N]);
        }
        return TokenType::Fun;
    }
    if lex.len() == 2 && lex[0] == B_I && lex[1] == B_F {
        proof {
            assert(lex@ =~= seq![B_I, B_F]);
        }
        return TokenType::If;
    }
    if lex.len() == 4 && lex[0] == B_N && lex[1] == B_U && lex[2] == B_L && lex[3] == B_L {
        proof {
            assert(lex@ =~= seq![B_N, B_U, B_L, B_L]);
        }
        return TokenType::Null;
    }
    if lex.len() == 2 && lex[0] == B_O && lex[1] == B_R {
        proof {
            assert(lex@ =~= seq![B_O, B_R]);
        }
        return TokenType::Or;
    }
    if lex.len() == 5 && lex[0] == B_P && lex[1] == B_R && lex[2] == B_I && lex[3] == B_N && lex[4]
        == B_T {
        proof {
            assert(lex@ =~= seq![B_P, B_R, B_I, B_N, B_T]);
        }
        return TokenType::Print;
    }
    if lex.len() == 6 && lex[0] == B_R && lex[1] == B_E && lex[2] == B_T && lex[3] == B_U && lex[4]
        == B_R && lex[5] == B_N {
        proof {
            assert(lex@ =~= seq![B_R, B_E, B_T, B_U, B_R, B_N]);
        }
        return TokenType::Return;
    }
    if lex.len() == 5 && lex[0] == B_S && lex[1] == B_U && lex[2] == B_P && lex[3] == B_E && lex[4]
        == B_R {
        proof {
            assert(lex@ =~= seq![B_S, B_U, B_P, B_E, B_R]);
        }
        return TokenType::Super;
    }
    if lex.len() == 4 && lex[0] == B_T && lex[1] == B_H && lex[2] == B_I && lex[3] == B_S {
        proof {
            assert(lex@ =~= seq![B_T, B_H, B_I, B_S]);
        }
        return TokenType::This;
    }
    if lex.len() == 4 && lex[0] == B_T && lex[1] == B_R && lex[2] == B_U && lex[3] == B_E {
        proof {
            assert(lex@ =~= seq![B_T, B_R, B_U, B_E]);
        }
        return TokenType::True;
    }
    if lex.len() == 3 && lex[0] == B_V && lex[1] == B_A && lex[2] == B_R {
        proof {
            assert(lex@ =~= seq![B_V, B_A, B_R]);
        }
        return TokenType::Var;
    }
    if lex.len() == 5 && lex[0] == B_W && lex[1] == B_H && lex[2] == B_I && lex[3] == B_L && lex[4]
        == B_E {
        proof {
            assert(lex@ =~= seq![B_W, B_H, B_I, B_L, B_E]);
        }
        return TokenType::While;
    }
    TokenType::Identifier
}

/// Appending one byte to a range adds its newline count.
proof fn lemma_nl_count_snoc(src: Seq<u8>, a: int, b: int)
    requires
        a <= b < src.len(),
    ensures
        nl_count(src, a, b + 1) == nl_count(src, a, b) + (if src[b] == B_NL {
            1nat
        } else {
            0nat
        }),
    decreases b - a,
{
    if a < b {
        lemma_nl_count_snoc(src, a + 1, b);
    } else {
        assert(nl_count(src, b + 1, b + 1) == 0);
    }
}

/// The scanner: walks the source once, left to right, with maximal munch
/// for the two-character operators.
pub struct Scanner {
    /// The source bytes being walked.
    pub source: Vec<u8>,
    /// The tokens scanned so far, in source order.
    pub tokens: Vec<Token>,
    /// The position of the byte currently being considered.
    pub current: usize,
    /// The source line `current` is on.
    pub line: usize,
    /// The scanning faults found so far.
    pub error: ScannerError,
}

impl Scanner {
    /// The source bytes this scanner walks.
    pub open spec fn src_view(&self) -> Seq<u8> {
        self.source@
    }

    /// A scanner that has not consumed anything yet.
    pub open spec fn ready(&self) -> bool {
        &&& self.current == 0
        &&& self.line == 1
        &&& self.tokens@.len() == 0
        &&& self.error.errors@.len() == 0
        &&& !self.error.had_err
    }

    /// Internal bookkeeping bounds, maintained across steps.
    spec fn wf_mid(&self) -> bool {
        &&& self.current <= self.source@.len()
        &&& self.line as nat <= self.current as nat + 1
        &&& self.source@.len() < usize::MAX
    }

    /// A scanner at the beginning of `source`, on line 1.
    pub fn new(source: Vec<u8>) -> (s: Scanner)
        requires
            source@.len() < usize::MAX,
        ensures
            s.ready(),
            s.src_view() == source@,
    {
        Scanner {
            source,
            tokens: Vec::new(),
            current: 0,
            line: 1,
            error: ScannerError::new(),
        }
    }

    /// Appends a token of category `kind` covering `src[pos..current)`,
    /// carrying `literal` and the current line.
    fn push_token(&mut self, kind: TokenType, pos: usize, literal: Object)
        requires
            pos <= old(self).current <= old(self).src_view().len(),
        ensures
            final(self).src_view() == old(self).src_view(),
            final(self).current == old(self).current,
            final(self).line == old(self).line,
            final(self).error == old(self).error,
            toks_view(final(self).tokens@) == toks_view(old(self).tokens@).push(
                tokv(
                    kind,
                    old(self).src_view().subrange(pos as int, old(self).current as int),
                    literal@,
                    old(self).line as nat,
                ),
            ),
    {
        let lex = crate::token::copy_range(&self.source, pos, self.current);
        let line = self.line;
        let t = Token::new(kind, lex, literal, line);
        self.tokens.push(t);
        proof {
            assert(toks_view(final(self).tokens@) =~= toks_view(old(self).tokens@).push(
                tokv(
                    kind,
                    old(self).src_view().subrange(pos as int, old(self).current as int),
                    literal@,
                    old(self).line as nat,
                ),
            ));
        }
    }

    /// Scans a single token (or fault, or nothing for blanks and comments)
    /// starting at the current position.
    fn scan_token(&mut self)
        requires
            old(self).wf_mid(),
            old(self).current < old(self).src_view().len(),
        ensures
            final(self).src_view() == old(self).src_view(),
            final(self).wf_mid(),
            old(self).current < final(self).current,
            ({
                let st = scan_step(
                    old(self).src_view(),
                    old(self).current as int,
                    old(self).line as nat,
                );
                &&& final(self).current as int == st.pos
                &&& final(self).line as nat == st.line
                &&& toks_view(final(self).tokens@) == toks_view(old(self).tokens@) + st.toks
                &&& final(self).error.errors@ == old(self).error.errors@ + st.errs
                &&& final(self).error.had_err == (old(self).error.had_err || st.errs.len() > 0)
            }),
    {
        let ghost src = self.src_view();
        let ghost line0 = self.line as nat;
        let pos = self.current;
        let c = self.source[pos];
        self.current = pos + 1;
        if c == B_LPAREN {
            self.push_token(TokenType::LeftParen, pos, Object::Null);
        } else if c == B_RPAREN {
            self.push_token(TokenType::RightParen, pos, Object::Null);
        } else if c == B_LBRACE {
            self.push_token(TokenType::LeftBrace, pos, Object::Null);
        } else if c == B_RBRACE {
            self.push_token(TokenType::RightBrace, pos, Object::Null);
        } else if c == B_COMMA {
            self.push_token(TokenType::Comma, pos, Object::Null);
        } else if c == B_DOT {
            self.push_token(TokenType::Dot, pos, Object::Null);
        } else if c == B_MINUS {
            self.push_token(TokenType::Minus, pos, Object::Null);
        } else if c == B_PLUS {
            self.push_token(TokenType::Plus, pos, Object::Null);
        } else if c == B_SEMI {
            self.push_token(TokenType::Semicolon, pos, Object::Null);
        } else if c == B_STAR {
            self.push_token(TokenType::Star, pos, Object::Null);
        } else if c == B_BANG {
            if self.current < self.source.len() && self.source[self.current] == B_EQ {
                self.current = pos + 2;
                self.push_token(TokenType::BangEqual, pos, Object::Null);
            } else {
                self.push_token(TokenType::Bang, pos, Object::Null);
            }
        } else if c == B_EQ {
            if self.current < self.source.len() && self.source[self.current] == B_EQ {
                self.current = pos + 2;
                self.push_token(TokenType::EqualEqual, pos, Object::Null);
            } else {
                self.push_token(TokenType::Equal, pos, Object::Null);
            }
        } else if c == B_LT {
            if self.current < self.source.len() && self.source[self.current] == B_EQ {
                self.current = pos + 2;
                self.push_token(TokenType::LessEqual, pos, Object::Null);
            } else {
                self.push_token(TokenType::Less, pos, Object::Null);
            }
        } else if c == B_GT {
            if self.current < self.source.len() && self.source[self.current] == B_EQ {
                self.current = pos + 2;
                self.push_token(TokenType::GreaterEqual, pos, Object::Null);
            } else {
                self.push_token(TokenType::Greater, pos, Object::Null);
            }
        } else if c == B_SLASH {
            if self.current < self.source.len() && self.source[self.current] == B_SLASH {
                self.current = pos + 2;
                while self.current < self.source.len() && self.source[self.current] != B_NL
                    invariant
                        pos + 2 <= self.current <= self.source@.len(),
                        forall|j: int|
                            pos + 2 <= j < self.current ==> #[trigger] self.source@[j] != B_NL,
                        self.source@ == src,
                        self.tokens@ == old(self).tokens@,
                        self.error == old(self).error,
                        self.line == old(self).line,
                        self.source@.len() < usize::MAX,
                    decreases self.source@.len() - self.current,
                {
                    self.current = self.current + 1;
                }
                proof {
                    lemma_line_end_is(src, pos + 2, self.current as int);
                }
            } else {
                self.push_token(TokenType::Slash, pos, Object::Null);
            }
        } else if c == B_SPACE || c == B_CR || c == B_TAB {
            // blanks emit nothing
        } else if c == B_NL {
            self.line = self.line + 1;
        } else if c == B_DQUOTE || c == B_SQUOTE {
            while self.current < self.source.len() && self.source[self.current] != c
                invariant
                    old(self).wf_mid(),
                    pos + 1 <= self.current <= self.source@.len(),
                    self.source@ == src,
                    self.tokens@ == old(self).tokens@,
                    self.error == old(self).error,
                    forall|j: int| pos + 1 <= j < self.current ==> #[trigger] src[j] != c,
                    self.line as nat == line0 + nl_count(src, pos + 1, self.current as int),
                    self.line as nat <= self.current as nat,
                    line0 <= pos + 1,
                decreases self.source@.len() - self.current,
            {
                proof {
                    lemma_nl_count_snoc(src, pos + 1, self.current as int);
                }
                if self.source[self.current] == B_NL {
                    self.line = self.line + 1;
                }
                self.current = self.current + 1;
            }
            proof {
                lemma_str_close_is(src, pos + 1, c, self.current as int);
            }
            if self.current >= self.source.len() {
                let line = self.line;
                self.error.send(line, ScanErrorKind::UnterminatedString);
            } else {
                let lit = crate::token::copy_range(&self.source, pos + 1, self.current);
                self.current = self.current + 1;
                self.push_token(TokenType::StringLit, pos, Object::Str(lit));
            }
        } else if B_ZERO <= c && c <= B_NINE {
            while self.current < self.source.len() && B_ZERO <= self.source[self.current]
                && self.source[self.current] <= B_NINE
                invariant
                    pos + 1 <= self.current <= self.source@.len(),
                    self.source@ == src,
                    self.tokens@ == old(self).tokens@,
                    self.error == old(self).error,
                    self.line == old(self).line,
                    forall|j: int| pos + 1 <= j < self.current ==> is_digit(#[trigger] src[j]),
                    self.source@.len() < usize::MAX,
                decreases self.source@.len() - self.current,
            {
                self.current = self.current + 1;
            }
            proof {
                lemma_digits_end_is(src, pos + 1, self.current as int);
            }
            let ie = self.current;
            // the literal's value: the integer part, clamped
            let mut acc: u64 = 0;
            let mut i: usize = pos;
            while i < ie
                invariant
                    pos <= i <= ie <= self.source@.len(),
                    self.source@ == src,
                    is_digit(src[pos as int]),
                    forall|j: int| pos + 1 <= j < ie ==> is_digit(#[trigger] src[j]),
                    acc as int == num_literal(src, pos as int, i as int),
                    acc <= i64::MAX as u64,
                decreases ie - i,
            {
                let d = self.source[i] - B_ZERO;
                proof {
                    assert(digits_val(src, pos as int, i + 1) == digits_val(
                        src,
                        pos as int,
                        i as int,
                    ) * 10 + d);
                    assert(digits_val(src, pos as int, i as int) >= 0) by {
                        lemma_digits_val_nonneg(src, pos as int, i as int);
                    }
                }
                if acc > (9223372036854775807u64 - d as u64) / 10 {
                    acc = 9223372036854775807u64;
                } else {
                    acc = acc * 10 + d as u64;
                }
                i = i + 1;
            }
            if self.current + 1 < self.source.len() && self.source[self.current] == B_DOT
                && B_ZERO <= self.source[self.current + 1] && self.source[self.current + 1]
                <= B_NINE {
                self.current = self.current + 1;
                while self.current < self.source.len() && B_ZERO <= self.source[self.current]
                    && self.source[self.current] <= B_NINE
                    invariant
                        ie + 1 <= self.current <= self.source@.len(),
                        self.source@ == src,
                        self.tokens@ == old(self).tokens@,
                        self.error == old(self).error,
                        self.line == old(self).line,
                        forall|j: int|
                            ie + 1 <= j < self.current ==> is_digit(#[trigger] src[j]),
                        self.source@.len() < usize::MAX,
                    decreases self.source@.len() - self.current,
                {
                    self.current = self.current + 1;
                }
                proof {
                    lemma_digits_end_is(src, ie + 1, self.current as int);
                }
            }
            self.push_token(TokenType::Number, pos, Object::Num(acc as i64));
        } else if (B_A <= c && c <= B_Z) || (B_CAP_A <= c && c <= B_CAP_Z) || c == B_USCORE {
            while self.current < self.source.len() && ((B_A <= self.source[self.current]
                && self.source[self.current] <= B_Z) || (B_CAP_A <= self.source[self.current]
                && self.source[self.current] <= B_CAP_Z) || (B_ZERO <= self.source[self.current]
                && self.source[self.current] <= B_NINE))
                invariant
                    pos + 1 <= self.current <= self.source@.len(),
                    self.source@ == src,
                    self.tokens@ == old(self).tokens@,
                    self.error == old(self).error,
                    self.line == old(self).line,
                    forall|j: int| pos + 1 <= j < self.current ==> is_alnum(#[trigger] src[j]),
                    self.source@.len() < usize::MAX,
                decreases self.source@.len() - self.current,
            {
                self.current = self.current + 1;
            }
            proof {
                lemma_alnum_end_is(src, pos + 1, self.current as int);
            }
            let lex = crate::token::copy_range(&self.source, pos, self.current);
            let kind = keyword_lookup(&lex);
            self.push_token(kind, pos, Object::Null);
        } else {
            let line = self.line;
            self.error.send(line, ScanErrorKind::UnexpectedCharacter);
        }
        proof {
            let st = scan_step(src, pos as int, line0);
            if st.toks.len() == 0 {
                assert(toks_view(old(self).tokens@) + st.toks =~= toks_view(old(self).tokens@));
            } else {
                assert(toks_view(old(self).tokens@) + st.toks =~= toks_view(
                    old(self).tokens@,
                ).push(st.toks[0]));
            }
            if st.errs.len() == 0 {
                assert(old(self).error.errors@ + st.errs =~= old(self).error.errors@);
            } else {
                assert(old(self).error.errors@ + st.errs =~= old(self).error.errors@.push(
                    st.errs[0],
                ));
            }
        }
    }

    /// Scans the whole source: afterwards `tokens` holds exactly the token
    /// sequence of the unit (ending with the end-of-input token) and
    /// `error` holds exactly its scanning faults.
    pub fn scan_tokens(&mut self)
        requires
            old(self).ready(),
            old(self).src_view().len() < usize::MAX,
        ensures
            final(self).src_view() == old(self).src_view(),
            toks_view(final(self).tokens@) == scan_spec(old(self).src_view()).0,
            final(self).error.errors@ == scan_spec(old(self).src_view()).1,
            final(self).error.had_err == (scan_spec(old(self).src_view()).1.len() > 0),
    {
        let ghost src = self.src_view();
        while self.current < self.source.len()
            invariant
                self.src_view() == src,
                self.wf_mid(),
                scan_spec(src).0 == toks_view(self.tokens@) + scan_rest(
                    src,
                    self.current as int,
                    self.line as nat,
                ).0,
                scan_spec(src).1 == self.error.errors@ + scan_rest(
                    src,
                    self.current as int,
                    self.line as nat,
                ).1,
                self.error.had_err == (self.error.errors@.len() > 0),
            decreases self.source@.len() - self.current,
        {
            let ghost cur0 = self.current as int;
            let ghost line0 = self.line as nat;
            let ghost toks0 = toks_view(self.tokens@);
            let ghost errs0 = self.error.errors@;
            self.scan_token();
            proof {
                let st = scan_step(src, cur0, line0);
                let rest = scan_rest(src, self.current as int, self.line as nat);
                assert(scan_rest(src, cur0, line0).0 =~= st.toks + rest.0);
                assert(scan_rest(src, cur0, line0).1 =~= st.errs + rest.1);
                assert((toks0 + st.toks) + rest.0 =~= toks0 + (st.toks + rest.0));
                assert((errs0 + st.errs) + rest.1 =~= errs0 + (st.errs + rest.1));
            }
        }
        let line = self.line;
        self.tokens.push(Token::new(TokenType::Eof, Vec::new(), Object::Null, line));
        proof {
            let rest = scan_rest(src, old(self).current as int, old(self).line as nat);
            assert(toks_view(final(self).tokens@) =~= scan_spec(src).0);
            assert(scan_spec(src).1 =~= final(self).error.errors@);
        }
    }
}

} // verus!
