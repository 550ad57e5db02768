use maki::makefile::{parse_makefile_content, ParseOptions};
use maki::target::RequiredVar;
use maki::vars::{extract_required_vars, is_builtin_name, merge_required_vars, place};

fn m(groups: &[Option<&str>]) -> Vec<Option<String>> {
    groups.iter().map(|g| g.map(|s| s.to_string())).collect()
}

fn var(name: &str, hint: Option<&str>) -> RequiredVar {
    RequiredVar { name: name.to_string(), hint: hint.map(|h| h.to_string()) }
}

fn lines(text: &str) -> Vec<String> {
    text.lines().map(|l| l.to_string()).collect()
}

#[test]
fn hints_and_references_merge_sorted_by_name() {
    let hints = vec![m(&[Some("ENV=dev|staging|prod"), Some("ENV"), Some("dev|staging|prod")])];
    let refs = vec![
        m(&[Some("$(VERSION)"), Some("VERSION")]),
        m(&[Some("$(ENV)"), Some("ENV")]),
        m(&[Some("$(APP)"), Some("APP")]),
    ];
    assert_eq!(
        merge_required_vars(&hints, &refs),
        vec![var("APP", None), var("ENV", Some("dev|staging|prod")), var("VERSION", None)]
    );
}

#[test]
fn the_last_hint_of_a_name_stays() {
    let hints = vec![
        m(&[Some("A=1"), Some("A"), Some("1")]),
        m(&[Some("B=2"), Some("B"), Some("2")]),
        m(&[Some("A=3"), Some("A"), Some("3")]),
    ];
    assert_eq!(merge_required_vars(&hints, &vec![]), vec![var("A", Some("3")), var("B", Some("2"))]);
}

#[test]
fn builtin_names_are_left_out_unless_documented() {
    let refs = vec![m(&[Some("$(CC)"), Some("CC")]), m(&[Some("$(MINE)"), Some("MINE")])];
    assert_eq!(merge_required_vars(&vec![], &refs), vec![var("MINE", None)]);
    let hints = vec![m(&[Some("CC=gcc|clang"), Some("CC"), Some("gcc|clang")])];
    assert_eq!(merge_required_vars(&hints, &refs), vec![var("CC", Some("gcc|clang")), var("MINE", None)]);
}

#[test]
fn matches_without_a_name_give_nothing() {
    let odd = vec![m(&[Some("x")]), m(&[]), m(&[Some("x"), None, Some("y")])];
    assert_eq!(merge_required_vars(&odd, &odd), vec![]);
    let no_value = vec![m(&[Some("A"), Some("A")]), m(&[Some("B"), Some("B"), None])];
    assert_eq!(merge_required_vars(&no_value, &vec![]), vec![var("A", None), var("B", None)]);
}

#[test]
fn place_keeps_the_list_sorted() {
    let mut vars = vec![];
    place(&mut vars, "M", &None, false);
    place(&mut vars, "Z", &Some("z".to_string()), false);
    place(&mut vars, "A", &None, true);
    place(&mut vars, "M", &Some("late".to_string()), false);
    assert_eq!(vars, vec![var("A", None), var("M", None), var("Z", Some("z"))]);
    place(&mut vars, "M", &Some("late".to_string()), true);
    place(&mut vars, "Z", &None, true);
    assert_eq!(vars, vec![var("A", None), var("M", Some("late")), var("Z", None)]);
}

#[test]
fn builtin_names() {
    for name in [
        "CC", "CXX", "CFLAGS", "CXXFLAGS", "LDFLAGS", "LDLIBS", "AR", "AS", "CPP", "FC", "M2C",
        "PC", "CO", "GET", "LEX", "YACC", "LINT", "MAKEFLAGS", "MAKECMDGOALS", "CURDIR", "SHELL",
        "MAKE", "MAKELEVEL", "@", "<", "^", "?", "*", "%", "+", "|",
    ] {
        assert!(is_builtin_name(name), "{}", name);
    }
    for name in ["", "cc", "CC ", "MYVAR", "MAKEFILE", "C"] {
        assert!(!is_builtin_name(name), "{}", name);
    }
}

#[test]
fn extract_required_vars_reads_comments_and_recipe() {
    let l = lines(
        "# Deploy (usage: make deploy ENV=dev|staging|prod)\ndeploy:\n\t@echo $(ENV)\n\n  @echo ${VERSION}\nnext: $(OTHER)\n\t$(MORE)",
    );
    assert_eq!(
        extract_required_vars(&l, 1),
        Ok(vec![var("ENV", Some("dev|staging|prod")), var("VERSION", None)])
    );
    assert_eq!(extract_required_vars(&l, 5), Ok(vec![var("MORE", None)]));
}

#[test]
fn the_recipe_ends_at_the_first_line_that_is_not_indented() {
    let content = "a:\n\t$(ONE)\nb:\n\t$(TWO)\n";
    let targets = parse_makefile_content(content, "Makefile", &ParseOptions::default()).unwrap();
    assert_eq!(targets[0].required_vars, vec![var("ONE", None)]);
    assert_eq!(targets[1].required_vars, vec![var("TWO", None)]);
}

#[test]
fn a_hint_needs_a_name_that_starts_a_word() {
    let content = "# set fooBAR=1, _BAZ=2, (QUX=3) Q-RS=4 lower=5\nt:\n";
    let targets = parse_makefile_content(content, "Makefile", &ParseOptions::default()).unwrap();
    assert_eq!(targets[0].required_vars, vec![var("QUX", Some("3")), var("RS", Some("4"))]);
}

#[test]
fn references_need_an_upper_case_name_in_brackets() {
    let content = "t:\n\t$(lower) $(Mixed) $(A_1) ${B2} $(C} $X $$(D) $(E F)\n";
    let targets = parse_makefile_content(content, "Makefile", &ParseOptions::default()).unwrap();
    assert_eq!(
        targets[0].required_vars,
        vec![var("A_1", None), var("B2", None), var("C", None), var("D", None)]
    );
}
