use ontology_core::cli::CommandOutput;
use ontology_core::console::{
    parse_listable_command, parse_listable_commands, CommandExecution, DoctorSnapshotRequest,
    GenerationRequest, ListableCommand, TaskRunRequest,
};

#[test]
fn parse_listable_command_supports_single_space_separator() {
    let command = parse_listable_command("model Generates a new model");

    assert_eq!(
        command,
        Some(ListableCommand {
            command: "model".into(),
            summary: "Generates a new model".into(),
        })
    );
}

#[test]
fn parse_listable_command_supports_tab_separator() {
    let command = parse_listable_command("migration\tGenerates a migration");

    assert_eq!(
        command,
        Some(ListableCommand {
            command: "migration".into(),
            summary: "Generates a migration".into(),
        })
    );
}

#[test]
fn listing_headings_options_and_blanks_are_skipped() {
    assert_eq!(parse_listable_command(""), None);
    assert_eq!(parse_listable_command("   \t "), None);
    assert_eq!(parse_listable_command("Generators:"), None);
    assert_eq!(parse_listable_command("  -h, --help  Print help"), None);
    assert_eq!(parse_listable_command("lonely"), None);
}

#[test]
fn listing_entry_is_trimmed() {
    assert_eq!(
        parse_listable_command("   scaffold    Generates a scaffold   "),
        Some(ListableCommand {
            command: "scaffold".into(),
            summary: "Generates a scaffold".into(),
        })
    );
    assert_eq!(
        parse_listable_command("été\u{3000}résumé ok"),
        Some(ListableCommand { command: "été".into(), summary: "résumé ok".into() })
    );
}

#[test]
fn command_execution_from_output() {
    let execution = CommandExecution::from(CommandOutput::new(1, "out", "err"));
    assert_eq!(
        execution,
        CommandExecution { status: 1, stdout: "out".to_string(), stderr: "err".to_string() }
    );
}

#[test]
fn listing_lines_are_read_in_order() {
    let stdout = "Generators:\r\nmodel\tGenerates a new model\r\n  migration   Generates a new migration\n\n  -h, --help  Print help\nscaffold x";
    let entries = parse_listable_commands(stdout);
    assert_eq!(
        entries,
        vec![
            ListableCommand { command: "model".into(), summary: "Generates a new model".into() },
            ListableCommand { command: "migration".into(), summary: "Generates a new migration".into() },
            ListableCommand { command: "scaffold".into(), summary: "x".into() },
        ]
    );
    assert!(parse_listable_commands("").is_empty());
}

#[test]
fn run_task_merges_arguments_and_params() {
    let payload = TaskRunRequest {
        task: "parse_args".into(),
        arguments: vec!["foo:bar".into()],
        params: vec![("beta".into(), "two".into()), ("alpha".into(), "zero".into()), ("alpha".into(), "one".into())],
        environment: Some("test".into()),
    };
    let request = payload.into_run_request();
    assert_eq!(request.task, "parse_args");
    assert_eq!(request.environment, Some("test".into()));
    assert_eq!(request.arguments, vec!["foo:bar", "alpha:one", "beta:two"]);
}

#[test]
fn console_requests_map_to_runs() {
    let run = GenerationRequest {
        generator: "model".into(),
        arguments: vec!["posts".into()],
        environment: None,
    }
    .into_run_request();
    assert_eq!(run.generator, "model");
    assert_eq!(run.arguments, vec!["posts".to_string()]);
    let doctor = DoctorSnapshotRequest { production: true, graph: true, ..DoctorSnapshotRequest::default() }
        .into_run_request();
    assert!(doctor.production && doctor.graph && !doctor.config && !doctor.assistant);
}
