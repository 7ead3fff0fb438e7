use auger::json::string_field;
use auger::provider::ToolCallRequest;
use auger::shell_policy::BashAutoApprovalPolicy;

fn policy() -> BashAutoApprovalPolicy {
    BashAutoApprovalPolicy::new("/workspace/project")
}

fn command_args(command: &str) -> String {
    let mut map = serde_json::Map::new();
    map.insert("command".to_string(), serde_json::Value::String(command.to_string()));
    serde_json::Value::Object(map).to_string()
}

fn approved(command: &str) -> bool {
    let call = ToolCallRequest { id: "test".into(), name: "shell".into(), arguments: command_args(command) };
    policy().is_approved(&call)
}

fn approved_with_args(arguments: &str) -> bool {
    let call = ToolCallRequest { id: "test".into(), name: "shell".into(), arguments: arguments.into() };
    policy().is_approved(&call)
}

#[test]
fn approves_safe_commands_and_composition() {
    assert!(approved("pwd"));
    assert!(approved("ls -la src"));
    assert!(approved("grep -R 'needle' src"));
    assert!(approved("rg 'needle' src"));
    assert!(approved("find . -name '*.rs'"));
    assert!(approved("pwd && ls . | rg 'src'"));
    assert!(approved("grep 'a&&b' './file'"));
}

#[test]
fn rejects_shell_control_and_expansion_syntax() {
    for command in [
        "pwd; ls",
        "pwd && find .",
        "find . | rg rs",
        "x=$(pwd)",
        "echo `pwd`",
        "(pwd)",
        "A=1 pwd",
        "pwd > output",
        "pwd &",
        "rg $PATTERN src",
        "rg *.rs src",
        "xargs rg rs",
        "find . -exec cat {} \\;",
    ] {
        assert!(!approved(command), "unexpected approval: {command}");
    }
}

#[test]
fn rejects_unsafe_commands_options_and_paths() {
    for command in [
        "/bin/pwd",
        "ls /workspace",
        "ls ../other",
        "grep --include '*.rs' rs .",
        "rg --pre cat rs .",
        "find . -delete",
        "find . -fprint output",
    ] {
        assert!(!approved(command), "unexpected approval: {command}");
    }
}

#[test]
fn rejects_malformed_arguments() {
    assert!(!approved_with_args("{"));
    assert!(!approved_with_args("{}"));
    assert!(!approved_with_args(r#"{"command": 42}"#));
}

#[test]
fn other_tools_are_never_approved() {
    let call = ToolCallRequest { id: "t".into(), name: "grep".into(), arguments: command_args("pwd") };
    assert!(!policy().is_approved(&call));
}

#[test]
fn a_policy_reads_its_directory_normalised() {
    let plain = BashAutoApprovalPolicy::new("/workspace/project");
    let dotted = BashAutoApprovalPolicy::new("/workspace/./project/x/..");
    for command in ["ls src", "cat /workspace/project/a.txt", "cat /etc/passwd", "grep -R x ../other", "pwd"] {
        let call = ToolCallRequest { id: "t".into(), name: "shell".into(), arguments: command_args(command) };
        assert_eq!(plain.is_approved(&call), dotted.is_approved(&call), "{command}");
    }
}

#[test]
fn string_fields_are_read_from_json_objects() {
    assert_eq!(string_field(r#"{"a":"x","b":1}"#, "a"), Some("x".to_string()));
    assert_eq!(string_field(r#"{"a":"x","b":1}"#, "b"), None);
    assert_eq!(string_field(r#"{"a":"x"}"#, "c"), None);
    assert_eq!(string_field("not json", "a"), None);
    assert_eq!(string_field(r#"["a"]"#, "a"), None);
}
