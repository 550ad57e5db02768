use maki::prompt::{hint_options, prompt_for, prompt_for_variables, Prompt};
use maki::target::RequiredVar;

#[test]
fn test_hint_parsing() {
    let hint = "patch|minor|major";
    let options = hint_options(hint);

    assert_eq!(options.len(), 3);
    assert_eq!(options[0], "patch");
    assert_eq!(options[1], "minor");
    assert_eq!(options[2], "major");
}

#[test]
fn test_single_option_hint() {
    let hint = "value";
    let options = hint_options(hint);

    assert_eq!(options.len(), 1);
}

#[test]
fn hint_options_keep_empty_pieces() {
    assert_eq!(hint_options(""), vec![""]);
    assert_eq!(hint_options("a|"), vec!["a", ""]);
    assert_eq!(hint_options("|a||b"), vec!["", "a", "", "b"]);
}

#[test]
fn prompts_follow_the_hints() {
    let vars = vec![
        RequiredVar { name: "V".to_string(), hint: Some("patch|minor".to_string()) },
        RequiredVar { name: "ARGS".to_string(), hint: Some("list".to_string()) },
        RequiredVar { name: "NAME".to_string(), hint: None },
    ];
    let prompts = prompt_for_variables(&vars);
    assert_eq!(
        prompts,
        vec![
            Prompt::Choose {
                name: "V".to_string(),
                options: vec!["patch".to_string(), "minor".to_string()]
            },
            Prompt::Ask { name: "ARGS".to_string(), hint: Some("list".to_string()) },
            Prompt::Ask { name: "NAME".to_string(), hint: None },
        ]
    );
    assert_eq!(prompt_for(&vars[2]), prompts[2]);
}
