use maki::classify::{is_target_specific_variable, is_variable_assignment};
use maki::makefile::{parse_makefile_content, ParseOptions};

#[test]
fn test_parse_simple_makefile() {
    let content = r#"
build:
	echo "Building..."

test:
	echo "Testing..."

clean:
	rm -rf build/
"#;

    let options = ParseOptions::default();
    let targets = parse_makefile_content(content, "Makefile", &options).unwrap();

    assert_eq!(targets.len(), 3);
    assert!(targets.iter().any(|t| t.name == "build"));
    assert!(targets.iter().any(|t| t.name == "test"));
    assert!(targets.iter().any(|t| t.name == "clean"));
}

#[test]
fn test_parse_with_comments() {
    let content = r#"
# Build the project
build:
	echo "Building..."

test: ## Run all tests
	echo "Testing..."
"#;

    let options = ParseOptions::default();
    let targets = parse_makefile_content(content, "Makefile", &options).unwrap();

    assert_eq!(targets.len(), 2);

    let build = targets.iter().find(|t| t.name == "build").unwrap();
    assert_eq!(build.description, Some("Build the project".to_string()));

    let test = targets.iter().find(|t| t.name == "test").unwrap();
    assert_eq!(test.description, Some("Run all tests".to_string()));
}

#[test]
fn test_skip_private_targets() {
    let content = r#"
build:
	echo "Building..."

_internal:
	echo "Internal..."
"#;

    let options = ParseOptions::default();
    let targets = parse_makefile_content(content, "Makefile", &options).unwrap();

    assert_eq!(targets.len(), 1);
    assert!(targets.iter().any(|t| t.name == "build"));
    assert!(!targets.iter().any(|t| t.name == "_internal"));
}

#[test]
fn test_include_private_targets() {
    let content = r#"
build:
	echo "Building..."

_internal:
	echo "Internal..."
"#;

    let options = ParseOptions {
        include_private: true,
        ..Default::default()
    };
    let targets = parse_makefile_content(content, "Makefile", &options).unwrap();

    assert_eq!(targets.len(), 2);
    assert!(targets.iter().any(|t| t.name == "build"));
    assert!(targets.iter().any(|t| t.name == "_internal"));
}

#[test]
fn test_skip_pattern_rules() {
    let content = r#"
build:
	echo "Building..."

%.o: %.c
	$(CC) -c $<
"#;

    let options = ParseOptions::default();
    let targets = parse_makefile_content(content, "Makefile", &options).unwrap();

    assert_eq!(targets.len(), 1);
    assert!(targets.iter().any(|t| t.name == "build"));
}

#[test]
fn test_include_pattern_rules() {
    let content = r#"
build:
	echo "Building..."

%.o: %.c
	$(CC) -c $<
"#;

    let options = ParseOptions {
        include_patterns: true,
        ..Default::default()
    };
    let targets = parse_makefile_content(content, "Makefile", &options).unwrap();

    assert_eq!(targets.len(), 2);
}

#[test]
fn test_skip_duplicates() {
    let content = r#"
build:
	echo "Building..."

build:
	echo "Building again..."
"#;

    let options = ParseOptions::default();
    let targets = parse_makefile_content(content, "Makefile", &options).unwrap();

    assert_eq!(targets.len(), 1);
}

#[test]
fn test_skip_variable_assignments() {
    let content = r#"
CC := gcc
CFLAGS ?= -Wall
LDFLAGS += -lm

build:
	echo "Building..."
"#;

    let options = ParseOptions::default();
    let targets = parse_makefile_content(content, "Makefile", &options).unwrap();

    assert_eq!(targets.len(), 1);
    assert!(targets.iter().any(|t| t.name == "build"));
}

#[test]
fn test_line_numbers() {
    let content = r#"
# Line 1 is blank
build:
	echo "Building..."

test:
	echo "Testing..."
"#;

    let options = ParseOptions::default();
    let targets = parse_makefile_content(content, "Makefile", &options).unwrap();

    let build = targets.iter().find(|t| t.name == "build").unwrap();
    assert_eq!(build.line, 3);

    let test = targets.iter().find(|t| t.name == "test").unwrap();
    assert_eq!(test.line, 6);
}

#[test]
fn test_complex_target_names() {
    let content = r#"
docker/build:
	docker build .

test.unit:
	cargo test

build-all:
	make build
"#;

    let options = ParseOptions::default();
    let targets = parse_makefile_content(content, "Makefile", &options).unwrap();

    assert_eq!(targets.len(), 3);
    assert!(targets.iter().any(|t| t.name == "docker/build"));
    assert!(targets.iter().any(|t| t.name == "test.unit"));
    assert!(targets.iter().any(|t| t.name == "build-all"));
}

#[test]
fn test_multiline_comment_description() {
    let content = r#"
# This is a longer description
# that spans multiple lines
build:
	echo "Building..."
"#;

    let options = ParseOptions::default();
    let targets = parse_makefile_content(content, "Makefile", &options).unwrap();

    let build = targets.iter().find(|t| t.name == "build").unwrap();
    assert_eq!(
        build.description,
        Some("This is a longer description that spans multiple lines".to_string())
    );
}

#[test]
fn test_skip_target_specific_variables() {
    let content = r#"
# Target to print the highest tag version
print-highest-tag: HIGHEST_TAG:=$(shell git tag | sort -V | tail -1)
print-highest-tag:
	@echo $(HIGHEST_TAG)

build: CC := clang
build:
	$(CC) main.c
"#;

    let options = ParseOptions::default();
    let targets = parse_makefile_content(content, "Makefile", &options).unwrap();

    // Should find the actual targets, not the variable assignment lines
    assert_eq!(targets.len(), 2);
    assert!(targets.iter().any(|t| t.name == "print-highest-tag"));
    assert!(targets.iter().any(|t| t.name == "build"));
}

#[test]
fn test_is_variable_assignment() {
    assert!(is_variable_assignment("CC := gcc"));
    assert!(is_variable_assignment("CFLAGS ?= -Wall"));
    assert!(is_variable_assignment("LDFLAGS += -lm"));
    assert!(is_variable_assignment("FOO = bar"));

    // These are NOT simple variable assignments
    assert!(!is_variable_assignment("build:"));
    assert!(!is_variable_assignment("build: dep1 dep2"));
    assert!(!is_variable_assignment("target: VAR := value"));
}

#[test]
fn test_is_target_specific_variable() {
    assert!(is_target_specific_variable(
        "print-highest-tag: HIGHEST_TAG:=$(shell git tag)"
    ));
    assert!(is_target_specific_variable("build: CC := clang"));
    assert!(is_target_specific_variable("test: CFLAGS += -g"));
    assert!(is_target_specific_variable("foo: BAR = baz"));

    // These are NOT target-specific variables
    assert!(!is_target_specific_variable("build:"));
    assert!(!is_target_specific_variable("build: dep1 dep2"));
    assert!(!is_target_specific_variable("CC := gcc"));
}

#[test]
fn test_extract_required_vars_from_usage_comment() {
    let content = r#"
# Bump version (usage: make bump V=patch|minor|major)
bump:
	cargo set-version --bump $(V)
"#;

    let options = ParseOptions::default();
    let targets = parse_makefile_content(content, "Makefile", &options).unwrap();

    let bump = targets.iter().find(|t| t.name == "bump").unwrap();
    assert_eq!(bump.required_vars.len(), 1);
    assert_eq!(bump.required_vars[0].name, "V");
    assert_eq!(bump.required_vars[0].hint, Some("patch|minor|major".to_string()));
}

#[test]
fn test_extract_multiple_required_vars() {
    let content = r#"
# Run with args (usage: make run-args ARGS="list" ENV=dev|prod)
run-args:
	cargo run -- $(ARGS)
"#;

    let options = ParseOptions::default();
    let targets = parse_makefile_content(content, "Makefile", &options).unwrap();

    let run_args = targets.iter().find(|t| t.name == "run-args").unwrap();
    assert_eq!(run_args.required_vars.len(), 2);
    assert!(run_args.required_vars.iter().any(|v| v.name == "ARGS"));
    assert!(run_args.required_vars.iter().any(|v| v.name == "ENV"));
}

#[test]
fn test_extract_required_vars_inline_comment() {
    let content = r#"
build: ## Build with MODE=debug|release
	cargo build --$(MODE)
"#;

    let options = ParseOptions::default();
    let targets = parse_makefile_content(content, "Makefile", &options).unwrap();

    let build = targets.iter().find(|t| t.name == "build").unwrap();
    assert_eq!(build.required_vars.len(), 1);
    assert_eq!(build.required_vars[0].name, "MODE");
    assert_eq!(build.required_vars[0].hint, Some("debug|release".to_string()));
}

#[test]
fn test_no_required_vars() {
    let content = r#"
# Build the project
build:
	cargo build
"#;

    let options = ParseOptions::default();
    let targets = parse_makefile_content(content, "Makefile", &options).unwrap();

    let build = targets.iter().find(|t| t.name == "build").unwrap();
    assert!(build.required_vars.is_empty());
}

#[test]
fn test_extract_vars_from_recipe_without_hint() {
    let content = r#"
# Test target
mood2:
	@echo "I'm feeling $(FEELING) today!"
"#;

    let options = ParseOptions::default();
    let targets = parse_makefile_content(content, "Makefile", &options).unwrap();

    let mood2 = targets.iter().find(|t| t.name == "mood2").unwrap();
    assert_eq!(mood2.required_vars.len(), 1);
    assert_eq!(mood2.required_vars[0].name, "FEELING");
    assert_eq!(mood2.required_vars[0].hint, None); // No hint from comment
}

#[test]
fn test_extract_vars_from_recipe_with_braces() {
    let content = r#"
greet:
	@echo "Hello, ${NAME}!"
"#;

    let options = ParseOptions::default();
    let targets = parse_makefile_content(content, "Makefile", &options).unwrap();

    let greet = targets.iter().find(|t| t.name == "greet").unwrap();
    assert_eq!(greet.required_vars.len(), 1);
    assert_eq!(greet.required_vars[0].name, "NAME");
}

#[test]
fn test_skip_builtin_vars() {
    let content = r#"
compile:
	$(CC) $(CFLAGS) -o $@ $< $(MYVAR)
"#;

    let options = ParseOptions::default();
    let targets = parse_makefile_content(content, "Makefile", &options).unwrap();

    let compile = targets.iter().find(|t| t.name == "compile").unwrap();
    // Should only have MYVAR, not CC, CFLAGS, @, or <
    assert_eq!(compile.required_vars.len(), 1);
    assert_eq!(compile.required_vars[0].name, "MYVAR");
}

#[test]
fn test_recipe_vars_merged_with_comment_hints() {
    let content = r#"
# Deploy (usage: make deploy ENV=dev|staging|prod)
deploy:
	@echo "Deploying to $(ENV) with version $(VERSION)"
"#;

    let options = ParseOptions::default();
    let targets = parse_makefile_content(content, "Makefile", &options).unwrap();

    let deploy = targets.iter().find(|t| t.name == "deploy").unwrap();
    assert_eq!(deploy.required_vars.len(), 2);

    // ENV should have hint from comment
    let env_var = deploy.required_vars.iter().find(|v| v.name == "ENV").unwrap();
    assert_eq!(env_var.hint, Some("dev|staging|prod".to_string()));

    // VERSION should have no hint (only found in recipe)
    let version_var = deploy.required_vars.iter().find(|v| v.name == "VERSION").unwrap();
    assert_eq!(version_var.hint, None);
}
