use maki::executor::{build_command, format_command, ExecuteOptions};

#[test]
fn test_build_command_simple() {
    let options = ExecuteOptions::default();
    let cmd = build_command("build", &options);

    assert_eq!(cmd, vec!["make", "build"]);
}

#[test]
fn test_build_command_with_makefile() {
    let options = ExecuteOptions {
        makefile: Some("custom.mk".to_string()),
        ..Default::default()
    };
    let cmd = build_command("test", &options);

    assert_eq!(cmd, vec!["make", "-f", "custom.mk", "test"]);
}

#[test]
fn test_format_command() {
    let cmd = vec![
        "make".to_string(),
        "-f".to_string(),
        "Makefile".to_string(),
        "build".to_string(),
    ];

    assert_eq!(format_command(&cmd), "make -f Makefile build");
}

#[test]
fn build_command_passes_variables() {
    let options = ExecuteOptions {
        variables: vec![
            ("ENV".to_string(), "prod".to_string()),
            ("V".to_string(), "".to_string()),
        ],
        ..Default::default()
    };
    let cmd = build_command("deploy", &options);
    assert_eq!(cmd, vec!["make", "deploy", "ENV=prod", "V="]);
    assert_eq!(format_command(&cmd), "make deploy ENV=prod V=");
}

#[test]
fn format_command_of_nothing_and_of_one_word() {
    assert_eq!(format_command(&vec![]), "");
    assert_eq!(format_command(&vec!["make".to_string()]), "make");
}
