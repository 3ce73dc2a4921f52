use dlua::error::{ErrorKind, MacroError};
use dlua::file::File;
use dlua::macros::Macro;
use dlua::processor::Processor;
use dlua::token::{Token, TokenWithText};
use std::collections::HashMap;

fn keyword(word: &str) -> Token {
    match word {
        "function" => Token::FunctionKw,
        "local" => Token::LocalKw,
        "do" => Token::DoKw,
        "end" => Token::EndKw,
        "if" => Token::IfKw,
        "then" => Token::ThenKw,
        "else" => Token::ElseKw,
        "elseif" => Token::ElseIfKw,
        "for" => Token::ForKw,
        "while" => Token::WhileKw,
        "repeat" => Token::RepeatKw,
        "until" => Token::UntilKw,
        "return" => Token::ReturnKw,
        "require" => Token::Require,
        _ => Token::Ident,
    }
}

/// A small tokenizer for the test sources, with the token kinds of the lexer.
fn lex(src: &str) -> Vec<TokenWithText> {
    let cs: Vec<char> = src.chars().collect();
    let n = cs.len();
    let is_ws = |c: char| c == ' ' || c == '\t' || c == '\n' || c == '\r';
    let mut out = Vec::new();
    let mut i = 0;
    while i < n {
        let start = i;
        let c = cs[i];
        let next = if i + 1 < n { cs[i + 1] } else { '\0' };
        let kind;
        if is_ws(c) {
            while i < n && is_ws(cs[i]) {
                i += 1;
            }
            kind = Token::Whitespace;
        } else if c == '-' && next == '-' {
            let mut j = i + 2;
            while j < n && (cs[j] == ' ' || cs[j] == '\t') {
                j += 1;
            }
            let rest: String = cs[j..].iter().collect();
            if rest.starts_with("@macro") {
                i = j + 6;
                kind = Token::MacroComment;
            } else if rest.starts_with("@alias") {
                i = j + 6;
                kind = Token::AliasComment;
            } else {
                while i < n && cs[i] != '\n' {
                    i += 1;
                }
                kind = Token::Comment;
            }
        } else if c.is_ascii_alphabetic() || c == '_' {
            while i < n && (cs[i].is_ascii_alphanumeric() || cs[i] == '_' || cs[i] == '.') {
                i += 1;
            }
            let word: String = cs[start..i].iter().collect();
            kind = keyword(&word);
        } else if c == '"' || c == '\'' {
            i += 1;
            while i < n && cs[i] != c {
                i += 1;
            }
            i += 1;
            kind = Token::String;
        } else if next == '=' && (c == '+' || c == '-' || c == '*' || c == '/') {
            i += 2;
            kind = match c {
                '+' => Token::PlusEq,
                '-' => Token::MinusEq,
                '*' => Token::StarEq,
                _ => Token::SlashEq,
            };
        } else {
            i += 1;
            kind = match c {
                '(' => Token::LParen,
                ')' => Token::RParen,
                ',' => Token::Comma,
                '=' => Token::Assign,
                ';' => Token::Semicolon,
                _ => Token::Other,
            };
        }
        out.push(TokenWithText { kind, text: cs[start..i.min(n)].iter().collect() });
    }
    out
}

fn position(tokens: &[TokenWithText], text: &str, nth: usize) -> usize {
    tokens.iter().enumerate().filter(|(_, t)| t.text == text).map(|(k, _)| k).nth(nth).unwrap()
}

fn expand_project(sources: &[&str], requires: Vec<Vec<usize>>) -> Result<Vec<String>, (usize, MacroError)> {
    let files: Vec<File> = sources
        .iter()
        .enumerate()
        .map(|(k, s)| File::new(format!("f{}.lua", k), lex(s)))
        .collect();
    let mut p = Processor::new(files, requires)?;
    p.expand_all_with_levels(1, &HashMap::new())
}

fn expand_one(src: &str) -> Result<String, (usize, MacroError)> {
    expand_project(&[src], vec![vec![]]).map(|mut v| v.remove(0))
}

fn error_of(src: &str) -> MacroError {
    expand_one(src).unwrap_err().1
}

#[test]
fn value_macro_exported_to_requirer() {
    let util = "-- @macro VERSION = \"1.0\"\n";
    let main = "local u = require(\"util\")\nprint(VERSION)\n";
    let outs = expand_project(&[util, main], vec![vec![], vec![0]]).unwrap();
    assert_eq!(outs[1], "local u = require(\"util\")\nprint(\"1.0\")\n");
    assert_eq!(outs[0], "\n");
}

#[test]
fn export_not_visible_without_require() {
    let util = "-- @macro VERSION = \"1.0\"\n";
    let main = "print(VERSION)\n";
    let outs = expand_project(&[util, main], vec![vec![], vec![]]).unwrap();
    assert_eq!(outs[1], "print(VERSION)\n");
}

#[test]
fn own_definition_overrides_import() {
    let util = "-- @macro M = 1\n";
    let main = "-- @macro M = 2\nx = M\n";
    let outs = expand_project(&[util, main], vec![vec![], vec![0]]).unwrap();
    assert_eq!(outs[1], "\nx = 2\n");
}

#[test]
fn function_macro_double() {
    let out = expand_one("-- @macro function double(x) return x * 2 end\nprint(double(21))\n").unwrap();
    assert_eq!(out, "print(21 * 2)\n");
}

#[test]
fn substitution_keeps_longer_identifiers() {
    let m = Macro { params: vec!["w".to_string()], template: "w + scroller_width".to_string() };
    assert_eq!(m.expand(&["5".to_string()]), "5 + scroller_width");
    let out = expand_one("-- @macro function f(w) return w + scroller_width end\ny = f(5)\n").unwrap();
    assert_eq!(out, "y = 5 + scroller_width\n");
}

#[test]
fn substitution_replaces_each_parameter() {
    let m = Macro {
        params: vec!["a".to_string(), "b".to_string()],
        template: "a*b + ab + a_b + b.a".to_string(),
    };
    assert_eq!(m.expand(&["(x)".to_string(), "y".to_string()]), "(x)*y + ab + a_b + y.(x)");
}

#[test]
fn value_macro_ignores_arguments() {
    let m = Macro { params: vec![], template: "42".to_string() };
    assert_eq!(m.expand(&["1".to_string()]), "42");
    let m2 = Macro { params: vec!["x".to_string()], template: "x".to_string() };
    assert_eq!(m2.expand(&[]), "x");
}

#[test]
fn nested_parentheses_stay_in_one_argument() {
    let out = expand_one("-- @macro function add(a, b) return a + b end\nz = add(f(1, 2), 3)\n").unwrap();
    assert_eq!(out, "z = f(1, 2) + 3\n");
}

#[test]
fn arity_error_with_too_few_arguments() {
    let src = "-- @macro function add(a, b) return a + b end\nz = add(1)\n";
    let at = position(&lex(src), "add", 1);
    assert_eq!(error_of(src), MacroError { kind: ErrorKind::Arity { expected: 2, found: 1 }, pos: at });
}

#[test]
fn arity_error_with_too_many_arguments() {
    let src = "-- @macro function add(a, b) return a + b end\nz = add(1, 2, 3)\n";
    let at = position(&lex(src), "add", 1);
    assert_eq!(error_of(src), MacroError { kind: ErrorKind::Arity { expected: 2, found: 3 }, pos: at });
}

#[test]
fn arity_error_without_parentheses() {
    let src = "-- @macro function add(a, b) return a + b end\nz = add + 1\n";
    let at = position(&lex(src), "add", 1);
    assert_eq!(error_of(src), MacroError { kind: ErrorKind::Arity { expected: 2, found: 0 }, pos: at });
    let src = "-- @macro function add(a, b) return a + b end\nz = add\n";
    let n = lex(src).len();
    assert_eq!(error_of(src), MacroError { kind: ErrorKind::UnexpectedEnd, pos: n });
}

#[test]
fn local_binding_shadows_macro_until_block_end() {
    let src = "-- @macro M = 1\nprint(M)\ndo\n  local M = 2\n  print(M)\nend\nprint(M)\n";
    let out = expand_one(src).unwrap();
    assert_eq!(out, "\nprint(1)\ndo\n  local M = 2\n  print(M)\nend\nprint(1)\n");
}

#[test]
fn parameters_and_function_names_shadow() {
    let src = "-- @macro N = 9\nfunction f(N)\n  return N\nend\nprint(N)\nfunction N() end\nprint(N)\n";
    let out = expand_one(src).unwrap();
    assert_eq!(out, "\nfunction f(N)\n  return N\nend\nprint(9)\nfunction N() end\nprint(N)\n");
}

#[test]
fn assignment_target_shadows_globally() {
    let src = "-- @macro K = 5\ndo\n  K = 1\nend\nprint(K)\n";
    let out = expand_one(src).unwrap();
    assert_eq!(out, "\ndo\n  K = 1\nend\nprint(K)\n");
}

#[test]
fn local_macro_lives_in_its_block() {
    let src = "do\n-- @macro local K = 7\nprint(K)\nend\nprint(K)\n";
    let out = expand_one(src).unwrap();
    assert_eq!(out, "do\n\nprint(7)\nend\nprint(K)\n");
}

#[test]
fn local_macro_is_not_exported() {
    let util = "-- @macro local K = 7\n";
    let main = "print(K)\n";
    let outs = expand_project(&[util, main], vec![vec![], vec![0]]).unwrap();
    assert_eq!(outs[1], "print(K)\n");
}

#[test]
fn branch_starts_with_a_clean_frame() {
    let src = "if a then\n-- @macro local K = 1\nprint(K)\nelse\nprint(K)\nend\n";
    let out = expand_one(src).unwrap();
    assert_eq!(out, "if a then\n\nprint(1)\nelse\nprint(K)\nend\n");
}

#[test]
fn alias_copies_definition() {
    let out = expand_one("-- @macro B = 1\n-- @alias local A = B\nprint(A)\n").unwrap();
    assert_eq!(out, "\nprint(1)\n");
}

#[test]
fn alias_errors() {
    let src = "-- @alias A = B\n";
    assert_eq!(error_of(src), MacroError { kind: ErrorKind::AliasNotLocal, pos: position(&lex(src), "A", 0) });
    let src = "-- @alias local A = B\n";
    assert_eq!(error_of(src), MacroError { kind: ErrorKind::AliasUndefined, pos: position(&lex(src), "B", 0) });
    let src = "-- @macro B = 1\nlocal B\n-- @alias local A = B\n";
    assert_eq!(error_of(src), MacroError { kind: ErrorKind::AliasShadowed, pos: position(&lex(src), "B", 2) });
}

#[test]
fn directive_errors() {
    let src = "-- @macroV = 1\n";
    assert_eq!(error_of(src), MacroError { kind: ErrorKind::MissingWhitespace, pos: 1 });
    let src = "-- @macro V 1\n";
    assert_eq!(error_of(src), MacroError { kind: ErrorKind::ExpectedAssign, pos: position(&lex(src), "1", 0) });
    let src = "-- @macro V =";
    assert_eq!(error_of(src), MacroError { kind: ErrorKind::UnexpectedEnd, pos: 5 });
    let src = "-- @macro function f x end\n";
    assert_eq!(error_of(src), MacroError { kind: ErrorKind::ExpectedLParen, pos: position(&lex(src), "x", 0) });
    let src = "-- @macro function f(a; b) end\n";
    assert_eq!(error_of(src), MacroError { kind: ErrorKind::ExpectedRParen, pos: position(&lex(src), ";", 0) });
    let src = "-- @macro function (x) end\n";
    assert_eq!(error_of(src), MacroError { kind: ErrorKind::ExpectedName, pos: position(&lex(src), "(", 0) });
    let src = "-- @macro function f(x) return x\n";
    let n = lex(src).len();
    assert_eq!(error_of(src), MacroError { kind: ErrorKind::UnterminatedBody, pos: n });
    let src = "-- @macro 5 = 1\n";
    assert_eq!(error_of(src), MacroError { kind: ErrorKind::BadIntroducer, pos: 2 });
}

#[test]
fn expansion_errors() {
    let src = "-- @macro function f(x) return x end\ny = f(1\n";
    let n = lex(src).len();
    assert_eq!(error_of(src), MacroError { kind: ErrorKind::UnclosedArguments, pos: n });
    let src = "x = 1\nend\n";
    assert_eq!(error_of(src), MacroError { kind: ErrorKind::UnbalancedBlock, pos: position(&lex(src), "end", 0) });
    let src = "local 5\n";
    assert_eq!(error_of(src), MacroError { kind: ErrorKind::ExpectedName, pos: 2 });
    let src = "function f x\n";
    assert_eq!(error_of(src), MacroError { kind: ErrorKind::ExpectedLParen, pos: position(&lex(src), "x", 0) });
}

#[test]
fn error_names_the_failing_file() {
    let good = "x = 1\n";
    let bad = "-- @macro V 1\n";
    let r = expand_project(&[good, bad], vec![vec![], vec![]]);
    assert_eq!(r.unwrap_err().0, 1);
}

#[test]
fn directive_free_source_is_reproduced() {
    let src = "local t = {}\nfunction t.f(a, ...)\n  for i = 1, 3 do print(i) end\n  return a\nend\n";
    assert_eq!(expand_one(src).unwrap(), src);
}

#[test]
fn second_run_on_output_is_identical() {
    let src = "-- @macro function sq(v) return (v) * (v) end\n-- @macro LIMIT = 10\nif n < LIMIT then\n  x = sq(n + 1)\nend\n";
    let first = expand_one(src).unwrap();
    assert_eq!(first, "if n < 10 then\n  x = (n + 1) * (n + 1)\nend\n".replacen("if", "\nif", 1));
    let second = expand_one(&first).unwrap();
    assert_eq!(second, first);
}

#[test]
fn global_macros_table() {
    let mut f = File::new("a.lua".to_string(), lex("-- @macro A = 1\n-- @macro local B = 2\n-- @macro A = 3\n"));
    let t = f.parse_global_macros().unwrap();
    let a = t.get(&"A".to_string()).unwrap();
    assert_eq!(a.template, "3");
    assert!(t.get(&"B".to_string()).is_none());
}
