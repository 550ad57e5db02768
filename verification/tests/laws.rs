use maki::cache::Cache;
use maki::makefile::{parse_makefile_content, ParseOptions};
use maki::target::{RequiredVar, Target};

const SAMPLE: &str = "\
# Build the project
build: ## Build it
\tcargo build --$(MODE)

_internal:
\techo

%.o: %.c
\t$(CC) -c $<

CC := gcc
build: CC := clang

# Deploy (usage: make deploy ENV=dev|staging|prod)
deploy:
\t@echo \"Deploying to $(ENV) with version $(VERSION)\"

# second
build:
\techo again
";

#[test]
fn parsing_twice_gives_the_same_list() {
    for options in [
        ParseOptions::default(),
        ParseOptions { include_private: true, include_patterns: false },
        ParseOptions { include_private: false, include_patterns: true },
        ParseOptions { include_private: true, include_patterns: true },
    ] {
        let first = parse_makefile_content(SAMPLE, "Makefile", &options).unwrap();
        let second = parse_makefile_content(SAMPLE, "Makefile", &options).unwrap();
        assert_eq!(first, second);
    }
}

#[test]
fn targets_come_in_the_order_of_their_lines() {
    let all = ParseOptions { include_private: true, include_patterns: true };
    let targets = parse_makefile_content(SAMPLE, "Makefile", &all).unwrap();
    let names: Vec<&str> = targets.iter().map(|t| t.name.as_str()).collect();
    assert_eq!(names, vec!["build", "_internal", "%.o", "deploy"]);
    let lines: Vec<usize> = targets.iter().map(|t| t.line).collect();
    assert_eq!(lines, vec![2, 5, 8, 15]);
}

#[test]
fn private_and_pattern_targets_need_their_options() {
    let content = "_internal:\n%.o: %.c\n";
    let names = |options: ParseOptions| -> Vec<String> {
        parse_makefile_content(content, "Makefile", &options)
            .unwrap()
            .into_iter()
            .map(|t| t.name)
            .collect()
    };
    assert_eq!(names(ParseOptions::default()), Vec::<String>::new());
    assert_eq!(
        names(ParseOptions { include_private: true, include_patterns: false }),
        vec!["_internal"]
    );
    assert_eq!(
        names(ParseOptions { include_private: false, include_patterns: true }),
        vec!["%.o"]
    );
    assert_eq!(
        names(ParseOptions { include_private: true, include_patterns: true }),
        vec!["_internal", "%.o"]
    );
}

#[test]
fn a_private_pattern_rule_needs_both_options() {
    let content = "_%.o:\n";
    let count = |p: bool, q: bool| {
        parse_makefile_content(
            content,
            "Makefile",
            &ParseOptions { include_private: p, include_patterns: q },
        )
        .unwrap()
        .len()
    };
    assert_eq!(count(false, false), 0);
    assert_eq!(count(true, false), 0);
    assert_eq!(count(false, true), 0);
    assert_eq!(count(true, true), 1);
}

#[test]
fn the_inline_description_wins() {
    let content = "# Above\ntest: ## Run all tests\n";
    let targets = parse_makefile_content(content, "Makefile", &ParseOptions::default()).unwrap();
    assert_eq!(targets[0].description, Some("Run all tests".to_string()));
}

#[test]
fn comment_hints_and_recipe_references_merge() {
    let content = "# usage: make deploy ENV=dev|staging|prod\ndeploy:\n\techo $(ENV) $(VERSION)\n";
    let targets = parse_makefile_content(content, "Makefile", &ParseOptions::default()).unwrap();
    assert_eq!(
        targets[0].required_vars,
        vec![
            RequiredVar { name: "ENV".to_string(), hint: Some("dev|staging|prod".to_string()) },
            RequiredVar { name: "VERSION".to_string(), hint: None },
        ]
    );
}

#[test]
fn of_two_declarations_the_first_is_listed() {
    let content = "# first\nbuild:\n\techo $(ONE)\n\n# second\nbuild:\n\techo $(TWO)\n";
    let targets = parse_makefile_content(content, "dir/Makefile", &ParseOptions::default()).unwrap();
    assert_eq!(
        targets,
        vec![Target::with_required_vars(
            "build".to_string(),
            Some("first".to_string()),
            "dir/Makefile".to_string(),
            2,
            vec![RequiredVar { name: "ONE".to_string(), hint: None }],
        )]
    );
}

#[test]
fn what_was_set_is_what_get_answers() {
    let mut cache = Cache::new();
    let targets = parse_makefile_content(SAMPLE, "Makefile", &ParseOptions::default()).unwrap();
    cache.set("/p/Makefile", SAMPLE, 12, targets.clone());
    assert_eq!(cache.get("/p/Makefile", SAMPLE), Some(&targets));
    assert_eq!(cache.get("/p/Makefile", "changed"), None);
    assert_eq!(cache.get("/q/Makefile", SAMPLE), None);
}

#[test]
fn an_empty_file_has_no_targets() {
    for content in ["", "\n", "   \n\t\n", "# only a comment\n", "A = 1\nB := 2\n"] {
        let targets = parse_makefile_content(content, "Makefile", &ParseOptions::default()).unwrap();
        assert!(targets.is_empty(), "{:?}", content);
    }
}

#[test]
fn indented_declarations_and_carriage_returns() {
    let content = "  build :\r\n\techo\r\nall   : build\r\n";
    let targets = parse_makefile_content(content, "Makefile", &ParseOptions::default()).unwrap();
    let names: Vec<&str> = targets.iter().map(|t| t.name.as_str()).collect();
    assert_eq!(names, vec!["build", "all"]);
    assert_eq!(targets[1].line, 3);
}

#[test]
fn lines_that_are_no_declarations_are_skipped() {
    let content = "export FOO\n.PHONY: build\ninclude x.mk\n$(OBJ): dep\nfoo bar: baz\nurl = http://x\n";
    let targets = parse_makefile_content(content, "Makefile", &ParseOptions::default()).unwrap();
    let names: Vec<&str> = targets.iter().map(|t| t.name.as_str()).collect();
    assert_eq!(names, vec![".PHONY"]);
}

#[test]
fn a_large_makefile_is_read_in_one_go() {
    let mut content = String::new();
    for i in 0..3000 {
        content.push_str(&format!(
            "# Target number {i} (usage: make t{i} MODE=a|b)\nt{i}: dep ## number {i}\n\t@echo $(MODE) $(VAR_{i})\n\n"
        ));
    }
    let targets = parse_makefile_content(&content, "Makefile", &ParseOptions::default()).unwrap();
    assert_eq!(targets.len(), 3000);
    assert_eq!(targets[2999].name, "t2999");
    assert_eq!(targets[2999].line, 4 * 2999 + 2);
    assert_eq!(targets[2999].description, Some("number 2999".to_string()));
    assert_eq!(targets[2999].required_vars.len(), 2);
    assert_eq!(targets[2999].required_vars[1].name, "VAR_2999");
    let merged = maki::discover::merge_targets(&vec![targets.clone(), targets]);
    assert_eq!(merged.len(), 3000);
    assert_eq!(merged[0].name, "t0");
    assert_eq!(merged[1].name, "t1");
    assert_eq!(merged[2].name, "t10");
}
