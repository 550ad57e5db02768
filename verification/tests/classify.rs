use maki::classify::{is_target_specific_variable, is_variable_assignment};
use maki::classify::{classify_line, classify_lines, LineKind};
use maki::makefile::ParseOptions;
use maki::scan::select_declarations;

fn matches_of(groups: &[Option<&str>]) -> Vec<Vec<Option<String>>> {
    vec![groups.iter().map(|g| g.map(|s| s.to_string())).collect()]
}

#[test]
fn a_declaration_is_a_target() {
    let m = matches_of(&[Some("build:"), Some("build")]);
    assert_eq!(classify_line("build:", &m), LineKind::Declaration("build".to_string()));
}

#[test]
fn an_assignment_is_an_assignment_whatever_the_pattern_found() {
    let m = matches_of(&[Some("CC :"), Some("CC")]);
    assert_eq!(classify_line("CC := gcc", &m), LineKind::Assignment);
    assert_eq!(classify_line("CC := gcc", &vec![]), LineKind::Assignment);
}

#[test]
fn a_scoped_assignment_is_neither_target_nor_plain_assignment() {
    let m = matches_of(&[Some("build:"), Some("build")]);
    assert_eq!(classify_line("build: CC := clang", &m), LineKind::ScopedAssignment);
    assert!(!is_variable_assignment("build: CC := clang"));
    assert!(is_target_specific_variable("build: CC := clang"));
}

#[test]
fn blank_and_comment_lines_come_first() {
    let m = matches_of(&[Some("x:"), Some("x")]);
    assert_eq!(classify_line("", &m), LineKind::Blank);
    assert_eq!(classify_line("# a: b", &m), LineKind::Comment);
    assert_eq!(classify_line("#", &vec![]), LineKind::Comment);
}

#[test]
fn without_a_capture_a_line_is_something_else() {
    assert_eq!(classify_line("\techo hi", &vec![]), LineKind::Other);
    assert_eq!(classify_line("echo", &matches_of(&[Some("echo")])), LineKind::Other);
    assert_eq!(classify_line("echo", &matches_of(&[Some("echo"), None])), LineKind::Other);
    assert_eq!(classify_line("echo", &vec![vec![]]), LineKind::Other);
}

#[test]
fn only_the_first_match_counts() {
    let m = vec![
        vec![Some("a:".to_string()), Some("a".to_string())],
        vec![Some("b:".to_string()), Some("b".to_string())],
    ];
    assert_eq!(classify_line("a: b:", &m), LineKind::Declaration("a".to_string()));
}

#[test]
fn assignment_operators() {
    assert!(is_variable_assignment("A:=b"));
    assert!(is_variable_assignment("A?=b"));
    assert!(is_variable_assignment("A+=b"));
    assert!(is_variable_assignment("A=b"));
    assert!(is_variable_assignment("A = b : c"));
    assert!(is_variable_assignment("A = b == c"));
    assert!(is_variable_assignment("a=b:=c"));
    assert!(is_variable_assignment(":=x"));
}

#[test]
fn no_assignment() {
    assert!(!is_variable_assignment(""));
    assert!(!is_variable_assignment("build"));
    assert!(!is_variable_assignment("=x"));
    assert!(!is_variable_assignment("a == b"));
    assert!(!is_variable_assignment("a: b = c"));
    assert!(!is_variable_assignment("a: b += c"));
    assert!(!is_variable_assignment("a: b ?= c"));
    assert!(!is_variable_assignment("a:b:=c"));
    assert!(!is_variable_assignment("test: ## Run with X=1"));
}

#[test]
fn the_character_before_the_equals_sign_is_a_character() {
    // the sign follows a letter of two bytes
    assert!(is_variable_assignment("é=x="));
    assert!(is_variable_assignment("é=b"));
    assert!(!is_variable_assignment("é==b"));
    assert!(is_variable_assignment("日本 = 語"));
}

#[test]
fn scoped_assignments() {
    assert!(is_target_specific_variable("a:B=c"));
    assert!(is_target_specific_variable("a:   B   =c"));
    assert!(is_target_specific_variable("a: b_1 ?= c"));
    assert!(is_target_specific_variable("a b: C += d"));
    assert!(is_target_specific_variable(": X=1"));
    assert!(is_target_specific_variable("a: X\u{a0}= 1"));
}

#[test]
fn no_scoped_assignment() {
    assert!(!is_target_specific_variable(""));
    assert!(!is_target_specific_variable("a"));
    assert!(!is_target_specific_variable("a:"));
    assert!(!is_target_specific_variable("a: "));
    assert!(!is_target_specific_variable("a: b"));
    assert!(!is_target_specific_variable("a: =b"));
    assert!(!is_target_specific_variable("a: b-c = d"));
    assert!(!is_target_specific_variable("a: b c = d"));
    assert!(!is_target_specific_variable("a: b :c"));
    assert!(!is_target_specific_variable("a: é = d"));
    assert!(!is_target_specific_variable("A = b"));
    assert!(!is_target_specific_variable("a: b:"));
    assert!(!is_target_specific_variable("test: ## Run with X=1"));
}

#[test]
fn lines_are_classified_one_by_one() {
    let lines: Vec<String> = ["", "  # note", "CC := gcc", "build: CC := clang", " build : dep", "\techo"]
        .iter()
        .map(|l| l.to_string())
        .collect();
    assert_eq!(
        classify_lines(&lines),
        Ok(vec![
            LineKind::Blank,
            LineKind::Comment,
            LineKind::Assignment,
            LineKind::ScopedAssignment,
            LineKind::Declaration("build".to_string()),
            LineKind::Other,
        ])
    );
}

#[test]
fn declarations_are_listed_once_and_where_admitted() {
    let d = |name: &str| LineKind::Declaration(name.to_string());
    let kinds = vec![
        LineKind::Comment,
        d("build"),
        LineKind::Other,
        d("_internal"),
        d("%.o"),
        d("build"),
        LineKind::Assignment,
        d("_internal"),
        d("test"),
    ];
    let names = |private: bool, patterns: bool| -> Vec<(usize, String)> {
        select_declarations(
            &kinds,
            &ParseOptions { include_private: private, include_patterns: patterns },
        )
    };
    let at = |i: usize, name: &str| (i, name.to_string());
    assert_eq!(names(false, false), vec![at(1, "build"), at(8, "test")]);
    assert_eq!(names(true, false), vec![at(1, "build"), at(3, "_internal"), at(8, "test")]);
    assert_eq!(names(false, true), vec![at(1, "build"), at(4, "%.o"), at(8, "test")]);
    assert_eq!(
        names(true, true),
        vec![at(1, "build"), at(3, "_internal"), at(4, "%.o"), at(8, "test")]
    );
    assert_eq!(select_declarations(&vec![], &ParseOptions::default()), vec![]);
}

fn words(alphabet: &[char], max_len: usize) -> Vec<String> {
    let mut all = vec![String::new()];
    let mut last = vec![String::new()];
    for _ in 0..max_len {
        let mut next = Vec::new();
        for w in &last {
            for c in alphabet {
                let mut longer = w.clone();
                longer.push(*c);
                next.push(longer);
            }
        }
        all.extend(next.iter().cloned());
        last = next;
    }
    all
}

#[test]
fn plain_assignments_are_the_lines_of_four_shapes() {
    let shapes = [
        regex::Regex::new(r"^[^:]*:=").unwrap(),
        regex::Regex::new(r"^[^:]*\?=").unwrap(),
        regex::Regex::new(r"^[^:]*\+=").unwrap(),
        regex::Regex::new(r"^[^:=]*[^:=+?]=([^=]|$)").unwrap(),
    ];
    for line in words(&['a', ':', '=', '?', '+', ' ', 'é'], 6) {
        let expected = shapes.iter().any(|shape| shape.is_match(&line));
        assert_eq!(is_variable_assignment(&line), expected, "{:?}", line);
    }
}

#[test]
fn scoped_assignments_are_the_lines_of_one_shape() {
    let shape = regex::Regex::new(r"^[^:]*:\s*[A-Za-z0-9_]+\s*(:=|\?=|\+=|=)").unwrap();
    for line in words(&['a', 'Z', '_', ':', '=', '+', ' ', '-'], 6) {
        assert_eq!(is_target_specific_variable(&line), shape.is_match(&line), "{:?}", line);
    }
}
