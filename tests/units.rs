use dlua::directive::parse_if_name;
use dlua::graph::{compute_affected_set, DepGraph};
use dlua::project::{
    find_changed_files, get_required_modules, require_candidates, restore_from_cache, strip_quotes,
    BuildCache,
};
use dlua::rewrite::{rewrite_tokens, Tok};
use dlua::token::{Token, TokenWithText};

fn tok(kind: Token, text: &str) -> Tok {
    Tok { kind, text: text.to_string() }
}

fn twt(kind: Token, text: &str) -> TokenWithText {
    TokenWithText { kind, text: text.to_string() }
}

fn paths(names: &[&str]) -> Vec<String> {
    names.iter().map(|s| s.to_string()).collect()
}

#[test]
fn unchanged_mtime_means_unchanged_file() {
    let files = paths(&["a.lua"]);
    let mut cache = BuildCache::new();
    cache.update_cache("a.lua".to_string(), 1700000000, vec![]);
    assert_eq!(find_changed_files(&files, &vec![1700000000], &cache), Vec::<usize>::new());
    assert_eq!(find_changed_files(&files, &vec![1700000001], &cache), vec![0]);
    assert_eq!(find_changed_files(&files, &vec![1699999999], &cache), vec![0]);
}

#[test]
fn unknown_file_is_changed() {
    let files = paths(&["a.lua", "b.lua", "c.lua"]);
    let mut cache = BuildCache::new();
    cache.update_cache("b.lua".to_string(), 5, vec![]);
    assert_eq!(find_changed_files(&files, &vec![5, 5, 5], &cache), vec![0, 2]);
}

#[test]
fn later_cache_entry_wins() {
    let mut cache = BuildCache::new();
    cache.update_cache("a.lua".to_string(), 1, vec!["x.lua".to_string()]);
    cache.update_cache("a.lua".to_string(), 2, vec![]);
    let e = cache.get(&"a.lua".to_string()).unwrap();
    assert_eq!(e.mtime, 2);
    assert!(e.deps.is_empty());
    assert!(cache.get(&"b.lua".to_string()).is_none());
}

#[test]
fn affected_set_follows_both_directions() {
    // a requires b, b requires c; d stands alone.
    let mut g = DepGraph::new(4);
    g.add_edge(0, 1);
    g.add_edge(1, 2);
    assert_eq!(compute_affected_set(&vec![2], &g), vec![true, true, true, false]);
    assert_eq!(compute_affected_set(&vec![0], &g), vec![true, true, true, false]);
    assert_eq!(compute_affected_set(&vec![3], &g), vec![false, false, false, true]);
    assert_eq!(compute_affected_set(&vec![], &g), vec![false, false, false, false]);
}

#[test]
fn affected_set_survives_cycles() {
    let mut g = DepGraph::new(3);
    g.add_edge(0, 1);
    g.add_edge(1, 0);
    assert_eq!(compute_affected_set(&vec![1, 1], &g), vec![true, true, false]);
}

#[test]
fn touching_one_file_after_full_run() {
    let files = paths(&["a.lua", "b.lua", "c.lua", "d.lua"]);
    let mut cache = BuildCache::new();
    cache.update_cache("a.lua".to_string(), 10, vec!["b.lua".to_string()]);
    cache.update_cache("b.lua".to_string(), 10, vec!["c.lua".to_string()]);
    cache.update_cache("c.lua".to_string(), 10, vec![]);
    cache.update_cache("d.lua".to_string(), 10, vec![]);
    let changed = find_changed_files(&files, &vec![10, 10, 11, 10], &cache);
    assert_eq!(changed, vec![2]);
    let mut g = DepGraph::new(4);
    restore_from_cache(&mut g, &files, &cache, &vec![false; 4]);
    assert_eq!(g.require_relations, vec![vec![1], vec![2], vec![], vec![]]);
    assert_eq!(g.reverse_require, vec![vec![], vec![0], vec![1], vec![]]);
    assert_eq!(compute_affected_set(&changed, &g), vec![true, true, true, false]);
}

#[test]
fn restore_skips_and_drops_unknown_paths() {
    let files = paths(&["a.lua", "b.lua"]);
    let mut cache = BuildCache::new();
    cache.update_cache("a.lua".to_string(), 1, vec!["gone.lua".to_string(), "b.lua".to_string()]);
    cache.update_cache("b.lua".to_string(), 1, vec!["a.lua".to_string()]);
    let mut g = DepGraph::new(2);
    restore_from_cache(&mut g, &files, &cache, &vec![false, true]);
    assert_eq!(g.require_relations, vec![vec![1], vec![]]);
}

#[test]
fn compound_assignment_is_desugared() {
    let ts = vec![
        tok(Token::Ident, "x"),
        tok(Token::Whitespace, " "),
        tok(Token::PlusEq, "+="),
        tok(Token::Whitespace, " "),
        tok(Token::Other, "1"),
        tok(Token::Semicolon, ";"),
        tok(Token::Whitespace, "\n"),
    ];
    assert_eq!(rewrite_tokens(&ts), "x = x + (1);\n");
}

#[test]
fn right_hand_side_stops_at_comment() {
    let ts = vec![
        tok(Token::Ident, "total"),
        tok(Token::Whitespace, " "),
        tok(Token::MinusEq, "-="),
        tok(Token::Whitespace, " "),
        tok(Token::Ident, "a"),
        tok(Token::Whitespace, " "),
        tok(Token::Other, "+"),
        tok(Token::Whitespace, " "),
        tok(Token::Ident, "b"),
        tok(Token::Whitespace, " "),
        tok(Token::Comment, "-- note"),
        tok(Token::Whitespace, "\n"),
        tok(Token::Ident, "y"),
        tok(Token::StarEq, "*="),
        tok(Token::Ident, "k"),
    ];
    assert_eq!(rewrite_tokens(&ts), "total = total - (a + b)-- note\ny = y * (k)");
}

#[test]
fn line_break_after_operator_is_left_alone() {
    let ts = vec![
        tok(Token::Ident, "x"),
        tok(Token::Whitespace, " "),
        tok(Token::SlashEq, "/="),
        tok(Token::Whitespace, "\n"),
        tok(Token::Other, "2"),
    ];
    assert_eq!(rewrite_tokens(&ts), "x /=\n2");
}

#[test]
fn plain_tokens_are_echoed() {
    let ts = vec![
        tok(Token::Ident, "y"),
        tok(Token::Whitespace, " "),
        tok(Token::Assign, "="),
        tok(Token::Whitespace, " "),
        tok(Token::Other, "2"),
    ];
    assert_eq!(rewrite_tokens(&ts), "y = 2");
    assert_eq!(rewrite_tokens(&[]), "");
}

#[test]
fn quotes_are_stripped() {
    assert_eq!(strip_quotes("\"a.b\""), "a.b");
    assert_eq!(strip_quotes("'x'"), "x");
    assert_eq!(strip_quotes("\"x'"), "\"x'");
    assert_eq!(strip_quotes("\""), "\"");
    assert_eq!(strip_quotes("\"\""), "");
}

#[test]
fn required_modules_are_literal_strings() {
    let ts = vec![
        twt(Token::Require, "require"),
        twt(Token::LParen, "("),
        twt(Token::String, "\"util\""),
        twt(Token::RParen, ")"),
        twt(Token::Whitespace, "\n"),
        twt(Token::Require, "require"),
        twt(Token::Whitespace, " "),
        twt(Token::String, "'lib.core'"),
        twt(Token::Whitespace, "\n"),
        twt(Token::Require, "require"),
        twt(Token::LParen, "("),
        twt(Token::Ident, "name"),
        twt(Token::RParen, ")"),
        twt(Token::Whitespace, "\n"),
        twt(Token::Ident, "print"),
        twt(Token::LParen, "("),
        twt(Token::String, "\"hello\""),
        twt(Token::RParen, ")"),
    ];
    assert_eq!(get_required_modules(&ts), vec!["util".to_string(), "lib.core".to_string()]);
}

#[test]
fn search_paths_give_candidates() {
    let sp = paths(&["./?.lua", "src", "vendor/", ""]);
    assert_eq!(
        require_candidates("lib.core", &sp),
        paths(&["./lib/core.lua", "src/lib/core", "vendor/lib/core", "lib/core"])
    );
}

#[test]
fn if_comment_name() {
    assert_eq!(parse_if_name("-- @if debug extra"), "debug");
    assert_eq!(parse_if_name("  --@if   release"), "release");
    assert_eq!(parse_if_name("name rest"), "name");
    assert_eq!(parse_if_name(""), "");
}
