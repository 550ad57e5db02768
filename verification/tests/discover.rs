use maki::cache::Cache;
use maki::discover::{
    add_target, find_target, get_targets, get_targets_for_file, is_makefile_name, makefile_names,
    merge_targets, parse_all_makefiles, SourceFile,
};
use maki::makefile::{parse_makefile_content, ParseError, ParseOptions};
use maki::target::Target;

fn file(path: &str, content: &str) -> SourceFile {
    SourceFile {
        path: path.to_string(),
        key: format!("/abs/{}", path),
        content: content.to_string(),
        modified_time: 7,
    }
}

fn named(name: &str, file: &str, line: usize) -> Target {
    Target::new(name.to_string(), None, file.to_string(), line)
}

#[test]
fn makefile_names_are_the_three_conventional_ones() {
    assert_eq!(makefile_names(), vec!["Makefile", "makefile", "GNUmakefile"]);
    assert!(is_makefile_name("Makefile"));
    assert!(is_makefile_name("makefile"));
    assert!(is_makefile_name("GNUmakefile"));
    assert!(!is_makefile_name("MAKEFILE"));
    assert!(!is_makefile_name("Makefile.in"));
    assert!(!is_makefile_name(""));
}

#[test]
fn merge_sorts_by_name_and_keeps_the_first_of_a_name() {
    let groups = vec![
        vec![named("test", "a", 1), named("build", "a", 5), named("zz", "a", 9)],
        vec![],
        vec![named("build", "b", 2), named("all", "b", 3), named("Build", "b", 4)],
    ];
    let merged = merge_targets(&groups);
    let names: Vec<&str> = merged.iter().map(|t| t.name.as_str()).collect();
    assert_eq!(names, vec!["Build", "all", "build", "test", "zz"]);
    let build = merged.iter().find(|t| t.name == "build").unwrap();
    assert_eq!(build.file, "a");
    assert_eq!(build.line, 5);
}

#[test]
fn merge_orders_as_strings_are_ordered() {
    let words = ["b", "", "a", "ab", "B", "é", "a b", "a-b", "z", "aa", "_x", "%.o"];
    let groups = vec![words.iter().map(|w| named(w, "f", 1)).collect::<Vec<_>>()];
    let merged = merge_targets(&groups);
    let names: Vec<String> = merged.iter().map(|t| t.name.clone()).collect();
    let mut expected: Vec<String> = words.iter().map(|w| w.to_string()).collect();
    expected.sort();
    assert_eq!(names, expected);
}

#[test]
fn add_target_leaves_a_listed_name_alone() {
    let mut sorted = vec![named("a", "f", 1), named("c", "f", 2)];
    add_target(&mut sorted, &named("b", "g", 3));
    add_target(&mut sorted, &named("a", "g", 4));
    assert_eq!(sorted, vec![named("a", "f", 1), named("b", "g", 3), named("c", "f", 2)]);
}

#[test]
fn find_target_gives_the_first_of_a_name() {
    let targets = vec![named("a", "f", 1), named("b", "f", 2), named("b", "g", 3)];
    assert_eq!(find_target(&targets, "b"), Some(1));
    assert_eq!(find_target(&targets, "a"), Some(0));
    assert_eq!(find_target(&targets, "c"), None);
    assert_eq!(find_target(&vec![], "a"), None);
}

#[test]
fn parse_all_makefiles_merges_the_files() {
    let files = vec![
        file("Makefile", "test:\n\techo\nbuild: ## first\n"),
        file("sub/Makefile", "build: ## second\nall:\n"),
    ];
    let targets = parse_all_makefiles(&files, &ParseOptions::default()).unwrap();
    let names: Vec<&str> = targets.iter().map(|t| t.name.as_str()).collect();
    assert_eq!(names, vec!["all", "build", "test"]);
    assert_eq!(targets[1].description, Some("first".to_string()));
    assert_eq!(targets[1].file, "Makefile");
    assert_eq!(targets[0].file, "sub/Makefile");
    assert_eq!(targets[0].line, 2);
}

#[test]
fn parse_all_makefiles_without_files_fails() {
    assert_eq!(
        parse_all_makefiles(&vec![], &ParseOptions::default()),
        Err(ParseError::NoMakefile)
    );
}

#[test]
fn get_targets_for_file_records_a_miss_and_answers_a_hit() {
    let mut cache = Cache::new();
    let f = file("Makefile", "build:\n\techo\n");
    let options = ParseOptions::default();

    let (first, recorded) = get_targets_for_file(&mut cache, &f, &options, false).unwrap();
    assert!(recorded);
    assert_eq!(first, parse_makefile_content(&f.content, &f.path, &options).unwrap());
    assert_eq!(cache.entries.len(), 1);
    assert!(cache.entries.contains_key("/abs/Makefile"));
    assert_eq!(cache.entries.get("/abs/Makefile").unwrap().modified_time, 7);

    let (second, recorded) = get_targets_for_file(&mut cache, &f, &options, false).unwrap();
    assert!(!recorded);
    assert_eq!(second, first);

    // what the cache holds is answered as it is, whatever the options
    let all = ParseOptions { include_private: true, include_patterns: true };
    let g = file("Makefile", "build:\n\techo\n");
    let (third, recorded) = get_targets_for_file(&mut cache, &g, &all, false).unwrap();
    assert!(!recorded);
    assert_eq!(third, first);
}

#[test]
fn get_targets_for_file_without_cache_leaves_the_cache_alone() {
    let mut cache = Cache::new();
    let f = file("Makefile", "build:\n_x:\n");
    let all = ParseOptions { include_private: true, include_patterns: false };
    let (targets, recorded) = get_targets_for_file(&mut cache, &f, &all, true).unwrap();
    assert!(!recorded);
    assert_eq!(targets.len(), 2);
    assert!(cache.entries.is_empty());
}

#[test]
fn get_targets_reparses_a_changed_file() {
    let mut cache = Cache::new();
    let options = ParseOptions::default();
    let before = vec![file("Makefile", "build:\n"), file("makefile", "test:\n")];
    let (targets, recorded) = get_targets(&mut cache, &before, &options, false).unwrap();
    assert!(recorded);
    assert_eq!(targets.iter().map(|t| t.name.as_str()).collect::<Vec<_>>(), vec!["build", "test"]);
    assert_eq!(cache.entries.len(), 2);

    let (again, recorded) = get_targets(&mut cache, &before, &options, false).unwrap();
    assert!(!recorded);
    assert_eq!(again, targets);

    let after = vec![file("Makefile", "deploy:\n"), file("makefile", "test:\n")];
    let (changed, recorded) = get_targets(&mut cache, &after, &options, false).unwrap();
    assert!(recorded);
    assert_eq!(changed.iter().map(|t| t.name.as_str()).collect::<Vec<_>>(), vec!["deploy", "test"]);
    assert_eq!(cache.entries.len(), 2);
}

#[test]
fn get_targets_without_files_fails() {
    let mut cache = Cache::new();
    assert_eq!(
        get_targets(&mut cache, &vec![], &ParseOptions::default(), false),
        Err(ParseError::NoMakefile)
    );
}
