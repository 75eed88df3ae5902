use gitignore_scan::glob::glob_match;
use gitignore_scan::matcher::{rule_matches_path, Decision, Matcher};
use gitignore_scan::rules::{chars_of, compile_line};
use gitignore_scan::scope::ScopeStack;

fn chars(s: &str) -> Vec<char> {
    s.chars().collect()
}

fn glob(p: &str, t: &str) -> bool {
    glob_match(&chars(p), &chars(t))
}

#[test]
fn star_stays_within_a_component() {
    assert!(glob("*.log", "a.log"));
    assert!(glob("*.log", ".log"));
    assert!(!glob("*.log", "d/a.log"));
    assert!(!glob("*.log", "a.txt"));
}

#[test]
fn double_star_crosses_separators() {
    assert!(glob("**/x", "a/b/x"));
    assert!(glob("a/**", "a/b/c"));
    assert!(glob("**", ""));
    assert!(!glob("**/x", "a/b/y"));
}

#[test]
fn question_mark_is_one_character() {
    assert!(glob("a?c", "abc"));
    assert!(!glob("a?c", "ac"));
    assert!(!glob("a?c", "abbc"));
}

#[test]
fn literal_glob_is_exact() {
    assert!(glob("abc", "abc"));
    assert!(!glob("abc", "abcd"));
    assert!(!glob("", "a"));
    assert!(glob("", ""));
}

#[test]
fn compile_line_reads_markers() {
    let r = compile_line(&chars("  !/build/  ")).unwrap();
    assert_eq!(r.pattern, chars("build"));
    assert!(r.negated && r.anchored && r.directory_only);
    let r = compile_line(&chars("*.o\r")).unwrap();
    assert_eq!(r.pattern, chars("*.o"));
    assert!(!r.negated && !r.anchored && !r.directory_only);
}

#[test]
fn compile_line_skips_blank_comment_and_malformed() {
    assert!(compile_line(&chars("")).is_none());
    assert!(compile_line(&chars("   \t")).is_none());
    assert!(compile_line(&chars("  # comment")).is_none());
    assert!(compile_line(&chars("!")).is_none());
    assert!(compile_line(&chars("/")).is_none());
    assert!(compile_line(&chars("!//")).is_none());
}

#[test]
fn compile_keeps_file_order() {
    let m = Matcher::compile("# header\n*.log\n\n!keep.log\n!\ntmp/");
    let pats: Vec<String> = m.rules.iter().map(|r| r.pattern.iter().collect()).collect();
    assert_eq!(pats, vec!["*.log".to_string(), "keep.log".to_string(), "tmp".to_string()]);
    assert!(m.rules[1].negated);
    assert!(m.rules[2].directory_only);
}

#[test]
fn compile_of_empty_text_has_no_rules() {
    assert_eq!(Matcher::compile("").rules.len(), 0);
    assert_eq!(Matcher::empty().rules.len(), 0);
}

#[test]
fn chars_of_keeps_every_character() {
    assert_eq!(chars_of("é/x"), vec!['é', '/', 'x']);
}

#[test]
fn last_matching_rule_wins() {
    let m = Matcher::compile("*.log\n!keep.log\n");
    assert_eq!(m.evaluate(&chars("a.log"), false), Decision::Ignore);
    assert_eq!(m.evaluate(&chars("keep.log"), false), Decision::Whitelist);
    assert_eq!(m.evaluate(&chars("a.txt"), false), Decision::NoOpinion);
    let m = Matcher::compile("!keep.log\n*.log\n");
    assert_eq!(m.evaluate(&chars("keep.log"), false), Decision::Ignore);
}

#[test]
fn unanchored_rule_matches_at_any_depth() {
    let r = compile_line(&chars("c.log")).unwrap();
    assert!(rule_matches_path(&r, &chars("a/b/c.log"), false));
    assert!(!rule_matches_path(&r, &chars("a/bc.log"), false));
    let r = compile_line(&chars("/c.log")).unwrap();
    assert!(!rule_matches_path(&r, &chars("a/c.log"), false));
    assert!(rule_matches_path(&r, &chars("c.log"), false));
}

#[test]
fn directory_only_rule_needs_a_directory() {
    let r = compile_line(&chars("build/")).unwrap();
    assert!(rule_matches_path(&r, &chars("build"), true));
    assert!(!rule_matches_path(&r, &chars("build"), false));
}

#[test]
fn nearest_scope_with_an_opinion_decides() {
    let mut s = ScopeStack::new();
    s.push(Vec::new(), Matcher::compile("*.log"));
    s.push(chars("sub"), Matcher::compile("!c.log"));
    assert!(!s.resolve(&chars("sub/c.log"), false));
    assert!(s.resolve(&chars("sub/d.log"), false));
    assert!(s.resolve(&chars("c.log"), false));
    assert!(!s.resolve(&chars("c.txt"), false));
    assert_eq!(s.len(), 2);
}

#[test]
fn scope_only_speaks_for_its_subtree() {
    let mut s = ScopeStack::new();
    s.push(chars("a"), Matcher::compile("*"));
    assert!(s.resolve(&chars("a/x"), false));
    assert!(!s.resolve(&chars("ab/x"), false));
    assert!(!s.resolve(&chars("b/x"), false));
}

#[test]
fn pop_within_removes_the_subtree_scopes() {
    let mut s = ScopeStack::new();
    s.push(Vec::new(), Matcher::compile("x"));
    s.push(chars("a"), Matcher::compile("y"));
    s.push(chars("a/b"), Matcher::compile("z"));
    s.pop_within(&chars("a/b"));
    assert_eq!(s.len(), 2);
    s.push(chars("a/c"), Matcher::compile("z"));
    s.pop_within(&chars("a"));
    assert_eq!(s.len(), 1);
    s.pop_within(&chars("q"));
    assert_eq!(s.len(), 1);
    s.pop_within(&Vec::new());
    assert_eq!(s.len(), 0);
}

#[test]
fn malformed_lines_are_recorded_and_skipped() {
    let m = Matcher::compile("!\n*.a\n  /  \n# c\n!//\nb");
    assert_eq!(m.malformed, vec![0, 2, 4]);
    assert_eq!(m.rules.len(), 2);
    assert!(Matcher::compile("a\n\n#x\n").malformed.is_empty());
}

#[test]
fn pop_below_keeps_only_ancestors_in_order() {
    let mut s = ScopeStack::new();
    s.push(Vec::new(), Matcher::compile("r"));
    s.push(chars("x"), Matcher::compile("x"));
    s.push(chars("a"), Matcher::compile("a"));
    s.push(chars("a/b"), Matcher::compile("b"));
    s.pop_below(&chars("a/c"));
    let bases: Vec<String> = s.scopes.iter().map(|sc| sc.base.iter().collect()).collect();
    assert_eq!(bases, vec!["".to_string(), "a".to_string()]);
    s.pop_below(&chars("a"));
    assert_eq!(s.len(), 2);
}
