use std::sync::{Arc, Mutex};

use ontology_core::cli::{
    CargoAutomationCommandBuilder, CargoCliAutomationService, CliAutomationService, CliCommand,
    CliError, CommandExecutor, CommandOutput, EnqueueJobRequest, JobStatusRequest,
    ListGeneratorsRequest, ListJobsRequest, ListTasksRequest, RunDoctorRequest,
    RunGeneratorRequest, RunTaskRequest,
};

#[derive(Clone)]
struct FakeCommandExecutor {
    commands: Arc<Mutex<Vec<CliCommand>>>,
    output: CommandOutput,
}

impl FakeCommandExecutor {
    fn new(output: CommandOutput) -> Self {
        Self { commands: Arc::new(Mutex::new(Vec::new())), output }
    }

    fn recorded(&self) -> Vec<CliCommand> {
        self.commands.lock().expect("lock poisoned").clone()
    }
}

impl Default for FakeCommandExecutor {
    fn default() -> Self {
        Self::new(CommandOutput::default())
    }
}

impl CommandExecutor for FakeCommandExecutor {
    fn execute(&self, command: &CliCommand) -> Result<CommandOutput, CliError> {
        self.commands.lock().expect("lock poisoned").push(command.clone());
        Ok(self.output.clone())
    }
}

fn service_with_executor(executor: &FakeCommandExecutor) -> CargoCliAutomationService<FakeCommandExecutor> {
    CargoCliAutomationService::new(executor.clone())
}

fn strings(items: &[&str]) -> Vec<String> {
    items.iter().map(|s| s.to_string()).collect()
}

#[test]
fn list_generators_uses_generate_help() {
    let executor = FakeCommandExecutor::default();
    let service = service_with_executor(&executor);
    let request = ListGeneratorsRequest { environment: Some("development".into()) };

    let output = service.list_generators(&request).expect("command to succeed");

    assert_eq!(output.status, 0);
    let commands = executor.recorded();
    assert_eq!(commands.len(), 1);
    assert_eq!(commands[0].program, "cargo");
    assert_eq!(
        commands[0].args,
        strings(&["loco", "generate", "--help", "--environment", "development"])
    );
}

#[test]
fn run_generator_composes_arguments() {
    let executor = FakeCommandExecutor::default();
    let service = service_with_executor(&executor);
    let request = RunGeneratorRequest {
        generator: "model".into(),
        arguments: vec!["posts".into(), "title:string".into()],
        ..RunGeneratorRequest::default()
    };

    service.run_generator(&request).expect("command to succeed");

    let commands = executor.recorded();
    assert_eq!(commands.len(), 1);
    assert_eq!(commands[0].args, strings(&["loco", "generate", "model", "posts", "title:string"]));
}

#[test]
fn list_tasks_honours_environment() {
    let executor = FakeCommandExecutor::default();
    let service = service_with_executor(&executor);
    let request = ListTasksRequest { environment: Some("qa".into()) };

    service.list_tasks(&request).expect("command to succeed");

    let commands = executor.recorded();
    assert_eq!(commands.len(), 1);
    assert_eq!(commands[0].args, strings(&["loco", "task", "--environment", "qa"]));
}

#[test]
fn run_task_composes_arguments() {
    let executor = FakeCommandExecutor::default();
    let service = service_with_executor(&executor);
    let request = RunTaskRequest {
        environment: Some("dev".into()),
        task: "parse_args".into(),
        arguments: vec!["foo:bar".into(), "alpha:one".into()],
    };

    service.run_task(&request).expect("command to succeed");

    let commands = executor.recorded();
    assert_eq!(commands.len(), 1);
    assert_eq!(
        commands[0].args,
        strings(&["loco", "task", "parse_args", "foo:bar", "alpha:one", "--environment", "dev"])
    );
}

#[test]
fn list_jobs_includes_filters() {
    let executor = FakeCommandExecutor::default();
    let service = service_with_executor(&executor);
    let request = ListJobsRequest {
        environment: Some("staging".into()),
        config_path: Some("config/scheduler.yml".into()),
        name: Some("nightly".into()),
        tag: Some("reports".into()),
    };

    service.list_jobs(&request).expect("command to succeed");

    let commands = executor.recorded();
    assert_eq!(commands.len(), 1);
    assert_eq!(
        commands[0].args,
        strings(&[
            "loco",
            "scheduler",
            "--list",
            "--config",
            "config/scheduler.yml",
            "--name",
            "nightly",
            "--tag",
            "reports",
            "--environment",
            "staging",
        ])
    );
}

#[test]
fn enqueue_job_appends_all_options() {
    let executor = FakeCommandExecutor::default();
    let service = service_with_executor(&executor);
    let request = EnqueueJobRequest {
        environment: Some("test".into()),
        job_name: "CleanupJob".into(),
        queue: Some("critical".into()),
        run_at: Some("2024-01-01T00:00:00Z".into()),
        tags: vec!["fast".into(), "nightly".into()],
        payload: Some("{\"scope\":\"all\"}".into()),
        arguments: vec!["priority=high".into()],
    };

    service.enqueue_job(&request).expect("command to succeed");

    let commands = executor.recorded();
    assert_eq!(commands.len(), 1);
    assert_eq!(
        commands[0].args,
        strings(&[
            "loco",
            "jobs",
            "enqueue",
            "CleanupJob",
            "--queue",
            "critical",
            "--run-at",
            "2024-01-01T00:00:00Z",
            "--tag",
            "fast",
            "--tag",
            "nightly",
            "--payload",
            "{\"scope\":\"all\"}",
            "priority=high",
            "--environment",
            "test",
        ])
    );
}

#[test]
fn run_doctor_pushes_flags() {
    let executor = FakeCommandExecutor::default();
    let service = service_with_executor(&executor);
    let request = RunDoctorRequest {
        environment: Some("production".into()),
        production: true,
        config: true,
        graph: false,
        assistant: false,
    };

    service.run_doctor(&request).expect("command to succeed");

    let commands = executor.recorded();
    assert_eq!(commands.len(), 1);
    assert_eq!(
        commands[0].args,
        strings(&["loco", "doctor", "--production", "--config", "--environment", "production"])
    );
}

#[test]
fn job_status_builds_command_with_environment() {
    let request = JobStatusRequest { environment: Some("prod".into()), job_id: "job-9".into() };
    let command = CargoAutomationCommandBuilder::job_status(&request);
    assert_eq!(command.program, "cargo");
    assert_eq!(
        command.args,
        strings(&["loco", "jobs", "status", "job-9", "--environment", "prod"])
    );
}

#[test]
fn doctor_graph_and_assistant_flags() {
    let request = RunDoctorRequest { graph: true, assistant: true, ..RunDoctorRequest::default() };
    let command = CargoAutomationCommandBuilder::run_doctor(&request);
    assert_eq!(command.args, strings(&["loco", "doctor", "--graph", "--assistant"]));
}

#[test]
fn command_line_joins_arguments_with_spaces() {
    let command = CliCommand::new("cargo", strings(&["loco", "task"]));
    assert_eq!(command.to_command_line(), "cargo loco task");
    let bare = CliCommand::new("cargo", Vec::new());
    assert_eq!(bare.to_command_line(), "cargo");
}

#[test]
fn command_output_keeps_its_parts() {
    let output = CommandOutput::new(3, "out", "err");
    assert_eq!(output.status, 3);
    assert_eq!(output.stdout, "out");
    assert_eq!(output.stderr, "err");
}
