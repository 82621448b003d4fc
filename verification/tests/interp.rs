use mlox::environ::Environment;
use mlox::error::{RuntimeErrorKind, ScanErrorKind, ScannerError};
use mlox::mlox::{Mlox, RunMode, UnitResult};
use mlox::scanner::Scanner;
use mlox::token::{Object, Token, TokenType};

fn run_src(src: &str) -> (UnitResult, Vec<u8>) {
    let mut m = Mlox::new(vec!["mlox".to_string()]);
    let mut out = Vec::new();
    let r = m.run_unit(src.as_bytes().to_vec(), &mut out, 1_000_000);
    (r, out)
}

fn output_of(src: &str) -> Vec<u8> {
    let (r, out) = run_src(src);
    assert!(matches!(r, UnitResult::Finished), "unit did not finish cleanly");
    out
}

fn scan(src: &str) -> Scanner {
    let mut s = Scanner::new(src.as_bytes().to_vec());
    s.scan_tokens();
    s
}

fn kinds(s: &Scanner) -> Vec<TokenType> {
    let mut v = Vec::new();
    let mut i = 0;
    while i < s.tokens.len() {
        v.push(s.tokens[i].token_type);
        i += 1;
    }
    v
}

#[test]
fn scans_arithmetic_statement() {
    let s = scan("1 + 2 * 3;");
    assert_eq!(
        kinds(&s),
        vec![
            TokenType::Number,
            TokenType::Plus,
            TokenType::Number,
            TokenType::Star,
            TokenType::Number,
            TokenType::Semicolon,
            TokenType::Eof,
        ]
    );
    assert!(!s.error.had_err);
}

#[test]
fn scans_number_values_and_lexemes() {
    let s = scan("42 7.5");
    assert!(matches!(s.tokens[0].literal, Object::Num(42)));
    assert_eq!(s.tokens[0].lexeme, b"42".to_vec());
    // the fractional part is read past; the value is the integer part
    assert!(matches!(s.tokens[1].literal, Object::Num(7)));
    assert_eq!(s.tokens[1].lexeme, b"7.5".to_vec());
}

#[test]
fn scans_keywords_and_identifiers() {
    let s = scan("var answer = true;");
    assert_eq!(s.tokens[0].token_type, TokenType::Var);
    assert_eq!(s.tokens[1].token_type, TokenType::Identifier);
    assert_eq!(s.tokens[1].lexeme, b"answer".to_vec());
    assert_eq!(s.tokens[2].token_type, TokenType::Equal);
    assert_eq!(s.tokens[3].token_type, TokenType::True);
}

#[test]
fn scans_two_character_operators_with_maximal_munch() {
    let s = scan("== != <= >= = < >");
    assert_eq!(
        kinds(&s),
        vec![
            TokenType::EqualEqual,
            TokenType::BangEqual,
            TokenType::LessEqual,
            TokenType::GreaterEqual,
            TokenType::Equal,
            TokenType::Less,
            TokenType::Greater,
            TokenType::Eof,
        ]
    );
}

#[test]
fn scans_string_literal_between_either_quote() {
    let s = scan("\"hi\" 'ok'");
    assert!(matches!(&s.tokens[0].literal, Object::Str(v) if v == &b"hi".to_vec()));
    assert!(matches!(&s.tokens[1].literal, Object::Str(v) if v == &b"ok".to_vec()));
}

#[test]
fn unterminated_string_is_reported_and_scanning_finishes() {
    let s = scan("\"oops");
    assert!(s.error.had_err);
    assert_eq!(s.error.errors[0].kind, ScanErrorKind::UnterminatedString);
    assert_eq!(s.error.errors[0].line, 1);
    assert_eq!(s.tokens.last().unwrap().token_type, TokenType::Eof);
}

#[test]
fn unexpected_character_is_reported_and_scanning_continues() {
    let s = scan("1 # 2;");
    assert!(s.error.had_err);
    assert_eq!(s.error.errors[0].kind, ScanErrorKind::UnexpectedCharacter);
    // the rest of the unit is still scanned
    assert_eq!(s.tokens.len(), 4);
}

#[test]
fn comments_and_blanks_emit_nothing_and_lines_count() {
    let s = scan("// note\n1;");
    assert_eq!(s.tokens[0].token_type, TokenType::Number);
    assert_eq!(s.tokens[0].line, 2);
}

#[test]
fn truthiness_rules() {
    assert!(!Object::Null.is_true());
    assert!(!Object::Bool(false).is_true());
    assert!(Object::Bool(true).is_true());
    assert!(!Object::Num(0).is_true());
    assert!(Object::Num(3).is_true());
    assert!(!Object::Str(Vec::new()).is_true());
    assert!(Object::Str(b"x".to_vec()).is_true());
}

#[test]
fn display_strings() {
    assert_eq!(Object::Num(7).to_string(), b"7".to_vec());
    assert_eq!(Object::Num(-35).to_string(), b"-35".to_vec());
    assert_eq!(Object::Bool(true).to_string(), b"true".to_vec());
    assert_eq!(Object::Bool(false).to_string(), b"false".to_vec());
    assert_eq!(Object::Null.to_string(), b"None".to_vec());
    assert_eq!(Object::Str(b"ab".to_vec()).to_string(), b"ab".to_vec());
}

#[test]
fn environment_defines_and_shadows() {
    let mut env = Environment::new();
    env.define(&b"a".to_vec(), Object::Num(1));
    env.push_scope();
    env.define(&b"a".to_vec(), Object::Num(2));
    let tok = Token::new(TokenType::Identifier, b"a".to_vec(), Object::Null, 1);
    assert!(matches!(env.get(&tok), Ok(Object::Num(2))));
    env.pop_scope();
    // the inner shadow does not leak
    assert!(matches!(env.get(&tok), Ok(Object::Num(1))));
}

#[test]
fn assignment_resolves_through_enclosing_scope() {
    let mut env = Environment::new();
    env.define(&b"a".to_vec(), Object::Num(1));
    env.push_scope();
    let tok = Token::new(TokenType::Identifier, b"a".to_vec(), Object::Null, 1);
    assert!(env.assign(&tok, Object::Num(2)).is_ok());
    env.pop_scope();
    let tok2 = Token::new(TokenType::Identifier, b"a".to_vec(), Object::Null, 1);
    assert!(matches!(env.get(&tok2), Ok(Object::Num(2))));
}

#[test]
fn undefined_variable_fails() {
    let mut env = Environment::new();
    let tok = Token::new(TokenType::Identifier, b"ghost_name".to_vec(), Object::Null, 3);
    assert!(env.get(&tok).is_err());
    let tok2 = Token::new(TokenType::Identifier, b"ghost_name".to_vec(), Object::Null, 3);
    assert!(env.assign(&tok2, Object::Num(1)).is_err());
}

#[test]
fn interpreter_mode_follows_argument_count() {
    assert_eq!(Mlox::new(vec!["mlox".to_string()]).mode(), RunMode::Prompt);
    assert_eq!(Mlox::new(vec!["mlox".to_string(), "s.lox".to_string()]).mode(), RunMode::File);
    assert_eq!(
        Mlox::new(vec!["mlox".to_string(), "a".to_string(), "b".to_string()]).mode(),
        RunMode::Usage
    );
}

#[test]
fn arithmetic_follows_precedence() {
    assert_eq!(output_of("print 1 + 2 * 3;"), b"7\n".to_vec());
    assert_eq!(output_of("print (1 + 2) * 3;"), b"9\n".to_vec());
    assert_eq!(output_of("print 10 - 2 - 3;"), b"5\n".to_vec());
    assert_eq!(output_of("print 7 / 2;"), b"3\n".to_vec());
    assert_eq!(output_of("print -5;"), b"-5\n".to_vec());
}

#[test]
fn string_concatenation_left_to_right() {
    assert_eq!(output_of("print \"a\" + \"b\" + \"c\";"), b"abc\n".to_vec());
}

#[test]
fn string_repetition_both_ways() {
    assert_eq!(output_of("print \"ab\" * 3;"), b"ababab\n".to_vec());
    assert_eq!(output_of("print 3 * \"x\";"), b"xxx\n".to_vec());
}

#[test]
fn truthiness_in_bang() {
    assert_eq!(output_of("print !0;"), b"true\n".to_vec());
    assert_eq!(output_of("print !null;"), b"true\n".to_vec());
    assert_eq!(output_of("print !\"\";"), b"true\n".to_vec());
    assert_eq!(output_of("print !\"x\";"), b"false\n".to_vec());
}

#[test]
fn equality_has_no_coercion() {
    assert_eq!(output_of("print 1 == \"1\";"), b"false\n".to_vec());
    assert_eq!(output_of("print null == null;"), b"true\n".to_vec());
    assert_eq!(output_of("print 1 != 2;"), b"true\n".to_vec());
}

#[test]
fn inner_shadow_does_not_leak() {
    assert_eq!(
        output_of("var a = 1; { var a = 2; print a; } print a;"),
        b"2\n1\n".to_vec()
    );
}

#[test]
fn assignment_reaches_enclosing_scope() {
    assert_eq!(output_of("var a = 1; { a = 2; } print a;"), b"2\n".to_vec());
}

#[test]
fn short_circuit_skips_division_error() {
    let (r, out) = run_src("false and (1/0);");
    assert!(matches!(r, UnitResult::Finished));
    assert!(out.is_empty());
    assert_eq!(output_of("print true or (1/0);"), b"true\n".to_vec());
}

#[test]
fn for_loop_desugars_and_scopes_its_variable() {
    assert_eq!(
        output_of("for (var i = 0; i < 3; i = i + 1) print i;"),
        b"0\n1\n2\n".to_vec()
    );
    let (r, out) = run_src("for (var i = 0; i < 3; i = i + 1) print i; print i;");
    assert_eq!(out, b"0\n1\n2\n".to_vec());
    match r {
        UnitResult::RuntimeFailed(e) => {
            assert!(matches!(e.kind, RuntimeErrorKind::UndefinedVariable { .. }));
        },
        _ => panic!("the loop variable leaked out of the loop"),
    }
}

#[test]
fn parse_fault_blocks_the_whole_unit() {
    let (r, out) = run_src("var a = ; print 1;");
    assert!(matches!(r, UnitResult::ScanOrParseFailed(_, _)));
    assert!(out.is_empty());
}

#[test]
fn scan_fault_blocks_the_whole_unit() {
    let (r, out) = run_src("print 1; #");
    assert!(matches!(r, UnitResult::ScanOrParseFailed(_, _)));
    assert!(out.is_empty());
}

#[test]
fn undefined_variable_halts_the_unit() {
    let (r, out) = run_src("print 1; print missing; print 2;");
    assert_eq!(out, b"1\n".to_vec());
    match r {
        UnitResult::RuntimeFailed(e) => {
            assert!(matches!(e.kind, RuntimeErrorKind::UndefinedVariable { .. }));
            assert_eq!(e.line, 1);
        },
        _ => panic!("expected a runtime fault"),
    }
    let (r2, _) = run_src("missing = 1;");
    assert!(matches!(
        r2,
        UnitResult::RuntimeFailed(mlox::error::RuntimeError {
            kind: RuntimeErrorKind::UndefinedVariable { .. },
            ..
        })
    ));
}

#[test]
fn division_by_zero_is_a_runtime_fault() {
    let (r, _) = run_src("print 1 / 0;");
    assert!(matches!(
        r,
        UnitResult::RuntimeFailed(mlox::error::RuntimeError {
            kind: RuntimeErrorKind::DivisionByZero,
            ..
        })
    ));
}

#[test]
fn type_mismatch_is_a_runtime_fault() {
    let (r, _) = run_src("print 1 + \"x\";");
    assert!(matches!(
        r,
        UnitResult::RuntimeFailed(mlox::error::RuntimeError {
            kind: RuntimeErrorKind::TypeMismatch { .. },
            ..
        })
    ));
}

#[test]
fn while_and_if_control_flow() {
    assert_eq!(
        output_of("var i = 0; while (i < 2) { print i; i = i + 1; }"),
        b"0\n1\n".to_vec()
    );
    assert_eq!(output_of("if (1 < 2) print 1; else print 2;"), b"1\n".to_vec());
    assert_eq!(output_of("if (2 < 1) print 1; else print 2;"), b"2\n".to_vec());
}

#[test]
fn environment_persists_across_units() {
    let mut m = Mlox::new(vec!["mlox".to_string()]);
    let mut out = Vec::new();
    let r1 = m.run_unit(b"var a = 40;".to_vec(), &mut out, 1_000_000);
    assert!(matches!(r1, UnitResult::Finished));
    let r2 = m.run_unit(b"print a + 2;".to_vec(), &mut out, 1_000_000);
    assert!(matches!(r2, UnitResult::Finished));
    assert_eq!(out, b"42\n".to_vec());
}

#[test]
fn rejected_unit_leaves_environment_untouched() {
    let mut m = Mlox::new(vec!["mlox".to_string()]);
    let mut out = Vec::new();
    let _ = m.run_unit(b"var a = 1;".to_vec(), &mut out, 1_000_000);
    let r = m.run_unit(b"var a = 2; var = ;".to_vec(), &mut out, 1_000_000);
    assert!(matches!(r, UnitResult::ScanOrParseFailed(_, _)));
    let r2 = m.run_unit(b"print a;".to_vec(), &mut out, 1_000_000);
    assert!(matches!(r2, UnitResult::Finished));
    assert_eq!(out, b"1\n".to_vec());
}

#[test]
fn keyword_return_is_reserved_not_ret() {
    let s = scan("return ret");
    assert_eq!(s.tokens[0].token_type, TokenType::Return);
    assert_eq!(s.tokens[1].token_type, TokenType::Identifier);
}

#[test]
fn saturating_arithmetic_at_the_bounds() {
    assert_eq!(
        output_of("print 9223372036854775807 + 1;"),
        b"9223372036854775807\n".to_vec()
    );
    assert_eq!(
        output_of("print 0 - 9223372036854775807 - 2;"),
        b"-9223372036854775808\n".to_vec()
    );
}
