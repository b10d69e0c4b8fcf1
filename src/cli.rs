//! The commands of `cargo loco` that are offered for automation, built as
//! argument lists, and the ports that run them.
use vstd::prelude::*;
use vstd::string::StringExecFns;

verus! {

/// A program and its arguments.
#[derive(Clone, Debug, PartialEq, Eq)]
pub struct CliCommand {
    pub program: String,
    pub args: Vec<String>,
}

/// The texts of a sequence of strings.
pub open spec fn strs(v: Seq<String>) -> Seq<Seq<char>> {
    v.map_values(|s: String| s@)
}

/// The program followed by each argument after a space.
pub open spec fn command_line(program: Seq<char>, args: Seq<Seq<char>>) -> Seq<char>
    decreases args.len(),
{
    if args.len() == 0 {
        program
    } else {
        command_line(program, args.drop_last()) + " "@ + args.last()
    }
}

impl CliCommand {
    pub fn new(program: &str, args: Vec<String>) -> (r: CliCommand)
        ensures
            r.program@ == program@,
            r.args@ == args@,
    {
        CliCommand { program: program.to_owned(), args }
    }

    /// The command as one line: the program, then each argument after a space.
    pub fn to_command_line(&self) -> (r: String)
        ensures
            r@ == command_line(self.program@, strs(self.args@)),
    {
        let mut line = self.program.clone();
        let mut i: usize = 0;
        assert(strs(self.args@).subrange(0, 0) =~= Seq::<Seq<char>>::empty());
        while i < self.args.len()
            invariant
                i <= self.args.len(),
                line@ == command_line(self.program@, strs(self.args@).subrange(0, i as int)),
            decreases self.args.len() - i,
        {
            line.append(" ");
            line.append(self.args[i].as_str());
            assert(strs(self.args@).subrange(0, i + 1).drop_last() =~= strs(self.args@).subrange(
                0,
                i as int,
            ));
            i = i + 1;
        }
        assert(strs(self.args@).subrange(0, i as int) =~= strs(self.args@));
        line
    }
}

/// What a finished command printed, and its exit status.
#[derive(Clone, Debug, Default, PartialEq, Eq)]
pub struct CommandOutput {
    pub status: i32,
    pub stdout: String,
    pub stderr: String,
}

impl CommandOutput {
    pub fn new(status: i32, stdout: &str, stderr: &str) -> (r: CommandOutput)
        ensures
            r.status == status,
            r.stdout@ == stdout@,
            r.stderr@ == stderr@,
    {
        CommandOutput { status, stdout: stdout.to_owned(), stderr: stderr.to_owned() }
    }
}

/// Why a command could not be run or did not succeed.
#[derive(Clone, Debug, PartialEq, Eq)]
pub enum CliError {
    Message(String),
}

/// Runs operating-system commands.
pub trait CommandExecutor {
    fn execute(&self, command: &CliCommand) -> Result<CommandOutput, CliError>;
}

/// The subset of `cargo loco` commands that automation may run.
pub trait CliAutomationService {
    fn list_generators(&self, request: &ListGeneratorsRequest) -> Result<CommandOutput, CliError>;

    fn run_generator(&self, request: &RunGeneratorRequest) -> Result<CommandOutput, CliError>;

    fn list_tasks(&self, request: &ListTasksRequest) -> Result<CommandOutput, CliError>;

    fn run_task(&self, request: &RunTaskRequest) -> Result<CommandOutput, CliError>;

    fn list_jobs(&self, request: &ListJobsRequest) -> Result<CommandOutput, CliError>;

    fn enqueue_job(&self, request: &EnqueueJobRequest) -> Result<CommandOutput, CliError>;

    fn run_doctor(&self, request: &RunDoctorRequest) -> Result<CommandOutput, CliError>;
}

#[derive(Clone, Debug, Default, PartialEq, Eq)]
pub struct ListGeneratorsRequest {
    pub environment: Option<String>,
}

#[derive(Clone, Debug, Default, PartialEq, Eq)]
pub struct RunGeneratorRequest {
    pub environment: Option<String>,
    pub generator: String,
    pub arguments: Vec<String>,
}

#[derive(Clone, Debug, Default, PartialEq, Eq)]
pub struct ListTasksRequest {
    pub environment: Option<String>,
}

#[derive(Clone, Debug, Default, PartialEq, Eq)]
pub struct RunTaskRequest {
    pub environment: Option<String>,
    pub task: String,
    pub arguments: Vec<String>,
}

#[derive(Clone, Debug, Default, PartialEq, Eq)]
pub struct ListJobsRequest {
    pub environment: Option<String>,
    pub config_path: Option<String>,
    pub name: Option<String>,
    pub tag: Option<String>,
}

#[derive(Clone, Debug, Default, PartialEq, Eq)]
pub struct EnqueueJobRequest {
    pub environment: Option<String>,
    pub job_name: String,
    pub queue: Option<String>,
    pub run_at: Option<String>,
    pub tags: Vec<String>,
    pub payload: Option<String>,
    pub arguments: Vec<String>,
}

#[derive(Clone, Debug, Default, PartialEq, Eq)]
pub struct JobStatusRequest {
    pub environment: Option<String>,
    pub job_id: String,
}

#[derive(Clone, Debug, Default, PartialEq, Eq)]
pub struct RunDoctorRequest {
    pub environment: Option<String>,
    pub production: bool,
    pub config: bool,
    pub graph: bool,
    pub assistant: bool,
}

/// `flag` and the value where there is one, nothing otherwise.
pub open spec fn opt_flag(flag: Seq<char>, value: Option<String>) -> Seq<Seq<char>> {
    match value {
        Some(v) => seq![flag, v@],
        None => Seq::empty(),
    }
}

/// The flag alone where it is set.
pub open spec fn bool_flag(flag: Seq<char>, set: bool) -> Seq<Seq<char>> {
    if set {
        seq![flag]
    } else {
        Seq::empty()
    }
}

/// `--tag` before each tag.
pub open spec fn tag_flags(tags: Seq<String>) -> Seq<Seq<char>>
    decreases tags.len(),
{
    if tags.len() == 0 {
        Seq::empty()
    } else {
        tag_flags(tags.drop_last()) + seq!["--tag"@, tags.last()@]
    }
}

fn push_str(args: &mut Vec<String>, s: &str)
    ensures
        strs(final(args)@) == strs(old(args)@).push(s@),
{
    args.push(s.to_owned());
    assert(strs(args@) =~= strs(old(args)@).push(s@));
}

fn push_opt_flag(args: &mut Vec<String>, flag: &str, value: &Option<String>)
    ensures
        strs(final(args)@) == strs(old(args)@) + opt_flag(flag@, *value),
{
    match value {
        Some(v) => {
            push_str(args, flag);
            push_str(args, v.as_str());
            assert(strs(args@) =~= strs(old(args)@) + opt_flag(flag@, *value));
        },
        None => {
            assert(strs(args@) =~= strs(old(args)@) + opt_flag(flag@, *value));
        },
    }
}

fn push_bool_flag(args: &mut Vec<String>, flag: &str, set: bool)
    ensures
        strs(final(args)@) == strs(old(args)@) + bool_flag(flag@, set),
{
    if set {
        push_str(args, flag);
    }
    assert(strs(args@) =~= strs(old(args)@) + bool_flag(flag@, set));
}

fn push_all(args: &mut Vec<String>, more: &Vec<String>)
    ensures
        strs(final(args)@) == strs(old(args)@) + strs(more@),
{
    let mut i: usize = 0;
    while i < more.len()
        invariant
            i <= more.len(),
            strs(args@) == strs(old(args)@) + strs(more@).subrange(0, i as int),
        decreases more.len() - i,
    {
        push_str(args, more[i].as_str());
        assert(strs(more@).subrange(0, i + 1) =~= strs(more@).subrange(0, i as int).push(
            more@[i as int]@,
        ));
        i = i + 1;
        assert(strs(args@) =~= strs(old(args)@) + strs(more@).subrange(0, i as int));
    }
    assert(strs(more@).subrange(0, i as int) =~= strs(more@));
}

fn push_tags(args: &mut Vec<String>, tags: &Vec<String>)
    ensures
        strs(final(args)@) == strs(old(args)@) + tag_flags(tags@),
{
    let mut i: usize = 0;
    assert(tags@.subrange(0, 0) =~= Seq::<String>::empty());
    while i < tags.len()
        invariant
            i <= tags.len(),
            strs(args@) == strs(old(args)@) + tag_flags(tags@.subrange(0, i as int)),
        decreases tags.len() - i,
    {
        push_str(args, "--tag");
        push_str(args, tags[i].as_str());
        assert(tags@.subrange(0, i + 1).drop_last() =~= tags@.subrange(0, i as int));
        i = i + 1;
        assert(strs(args@) =~= strs(old(args)@) + tag_flags(tags@.subrange(0, i as int)));
    }
    assert(tags@.subrange(0, i as int) =~= tags@);
}

/// Builds the `cargo loco` invocations offered for automation.
#[derive(Default)]
pub struct CargoAutomationCommandBuilder;

impl CargoAutomationCommandBuilder {
    fn apply_environment(args: &mut Vec<String>, environment: &Option<String>)
        ensures
            strs(final(args)@) == strs(old(args)@) + opt_flag("--environment"@, *environment),
    {
        push_opt_flag(args, "--environment", environment);
    }

    fn build_command(args: Vec<String>, environment: &Option<String>) -> (r: CliCommand)
        ensures
            r.program@ == "cargo"@,
            strs(r.args@) == strs(args@) + opt_flag("--environment"@, *environment),
    {
        let mut args = args;
        Self::apply_environment(&mut args, environment);
        CliCommand::new("cargo", args)
    }

    fn start(a: &str, b: &str) -> (r: Vec<String>)
        ensures
            strs(r@) == seq![a@, b@],
    {
        let mut args: Vec<String> = Vec::new();
        push_str(&mut args, a);
        push_str(&mut args, b);
        assert(strs(args@) =~= seq![a@, b@]);
        args
    }

    /// `cargo loco generate --help`.
    pub fn list_generators(request: &ListGeneratorsRequest) -> (r: CliCommand)
        ensures
            r.program@ == "cargo"@,
            strs(r.args@) == seq!["loco"@, "generate"@, "--help"@] + opt_flag(
                "--environment"@,
                request.environment,
            ),
    {
        let mut args = Self::start("loco", "generate");
        push_str(&mut args, "--help");
        assert(strs(args@) =~= seq!["loco"@, "generate"@, "--help"@]);
        Self::build_command(args, &request.environment)
    }

    /// `cargo loco generate <generator> <arguments...>`.
    pub fn run_generator(request: &RunGeneratorRequest) -> (r: CliCommand)
        ensures
            r.program@ == "cargo"@,
            strs(r.args@) == seq!["loco"@, "generate"@, request.generator@] + strs(
                request.arguments@,
            ) + opt_flag("--environment"@, request.environment),
    {
        let mut args = Self::start("loco", "generate");
        push_str(&mut args, request.generator.as_str());
        assert(strs(args@) =~= seq!["loco"@, "generate"@, request.generator@]);
        push_all(&mut args, &request.arguments);
        Self::build_command(args, &request.environment)
    }

    /// `cargo loco task`.
    pub fn list_tasks(request: &ListTasksRequest) -> (r: CliCommand)
        ensures
            r.program@ == "cargo"@,
            strs(r.args@) == seq!["loco"@, "task"@] + opt_flag(
                "--environment"@,
                request.environment,
            ),
    {
        let args = Self::start("loco", "task");
        Self::build_command(args, &request.environment)
    }

    /// `cargo loco task <task> <arguments...>`.
    pub fn run_task(request: &RunTaskRequest) -> (r: CliCommand)
        ensures
            r.program@ == "cargo"@,
            strs(r.args@) == seq!["loco"@, "task"@, request.task@] + strs(request.arguments@)
                + opt_flag("--environment"@, request.environment),
    {
        let mut args = Self::start("loco", "task");
        push_str(&mut args, request.task.as_str());
        assert(strs(args@) =~= seq!["loco"@, "task"@, request.task@]);
        push_all(&mut args, &request.arguments);
        Self::build_command(args, &request.environment)
    }

    /// `cargo loco scheduler --list` with the filters that are set.
    pub fn list_jobs(request: &ListJobsRequest) -> (r: CliCommand)
        ensures
            r.program@ == "cargo"@,
            strs(r.args@) == seq!["loco"@, "scheduler"@, "--list"@] + opt_flag(
                "--config"@,
                request.config_path,
            ) + opt_flag("--name"@, request.name) + opt_flag("--tag"@, request.tag) + opt_flag(
                "--environment"@,
                request.environment,
            ),
    {
        let mut args = Self::start("loco", "scheduler");
        push_str(&mut args, "--list");
        assert(strs(args@) =~= seq!["loco"@, "scheduler"@, "--list"@]);
        push_opt_flag(&mut args, "--config", &request.config_path);
        push_opt_flag(&mut args, "--name", &request.name);
        push_opt_flag(&mut args, "--tag", &request.tag);
        Self::build_command(args, &request.environment)
    }

    /// `cargo loco jobs enqueue <job>` with its options and arguments.
    pub fn enqueue_job(request: &EnqueueJobRequest) -> (r: CliCommand)
        ensures
            r.program@ == "cargo"@,
            strs(r.args@) == seq!["loco"@, "jobs"@, "enqueue"@, request.job_name@] + opt_flag(
                "--queue"@,
                request.queue,
            ) + opt_flag("--run-at"@, request.run_at) + tag_flags(request.tags@) + opt_flag(
                "--payload"@,
                request.payload,
            ) + strs(request.arguments@) + opt_flag("--environment"@, request.environment),
    {
        let mut args = Self::start("loco", "jobs");
        push_str(&mut args, "enqueue");
        push_str(&mut args, request.job_name.as_str());
        assert(strs(args@) =~= seq!["loco"@, "jobs"@, "enqueue"@, request.job_name@]);
        push_opt_flag(&mut args, "--queue", &request.queue);
        push_opt_flag(&mut args, "--run-at", &request.run_at);
        push_tags(&mut args, &request.tags);
        push_opt_flag(&mut args, "--payload", &request.payload);
        push_all(&mut args, &request.arguments);
        Self::build_command(args, &request.environment)
    }

    /// `cargo loco jobs status <job id>`.
    pub fn job_status(request: &JobStatusRequest) -> (r: CliCommand)
        ensures
            r.program@ == "cargo"@,
            strs(r.args@) == seq!["loco"@, "jobs"@, "status"@, request.job_id@] + opt_flag(
                "--environment"@,
                request.environment,
            ),
    {
        let mut args = Self::start("loco", "jobs");
        push_str(&mut args, "status");
        push_str(&mut args, request.job_id.as_str());
        assert(strs(args@) =~= seq!["loco"@, "jobs"@, "status"@, request.job_id@]);
        Self::build_command(args, &request.environment)
    }

    /// `cargo loco doctor` with the flags that are set.
    pub fn run_doctor(request: &RunDoctorRequest) -> (r: CliCommand)
        ensures
            r.program@ == "cargo"@,
            strs(r.args@) == seq!["loco"@, "doctor"@] + bool_flag(
                "--production"@,
                request.production,
            ) + bool_flag("--config"@, request.config) + bool_flag("--graph"@, request.graph)
                + bool_flag("--assistant"@, request.assistant) + opt_flag(
                "--environment"@,
                request.environment,
            ),
    {
        let mut args = Self::start("loco", "doctor");
        push_bool_flag(&mut args, "--production", request.production);
        push_bool_flag(&mut args, "--config", request.config);
        push_bool_flag(&mut args, "--graph", request.graph);
        push_bool_flag(&mut args, "--assistant", request.assistant);
        Self::build_command(args, &request.environment)
    }
}

/// Runs the automation commands through an executor.
pub struct CargoCliAutomationService<E: CommandExecutor> {
    executor: E,
}

impl<E: CommandExecutor> CargoCliAutomationService<E> {
    pub fn new(executor: E) -> Self {
        CargoCliAutomationService { executor }
    }

    fn execute(&self, command: CliCommand) -> Result<CommandOutput, CliError> {
        self.executor.execute(&command)
    }
}

impl<E: CommandExecutor> CliAutomationService for CargoCliAutomationService<E> {
    fn list_generators(&self, request: &ListGeneratorsRequest) -> Result<CommandOutput, CliError> {
        self.execute(CargoAutomationCommandBuilder::list_generators(request))
    }

    fn run_generator(&self, request: &RunGeneratorRequest) -> Result<CommandOutput, CliError> {
        self.execute(CargoAutomationCommandBuilder::run_generator(request))
    }

    fn list_tasks(&self, request: &ListTasksRequest) -> Result<CommandOutput, CliError> {
        self.execute(CargoAutomationCommandBuilder::list_tasks(request))
    }

    fn run_task(&self, request: &RunTaskRequest) -> Result<CommandOutput, CliError> {
        self.execute(CargoAutomationCommandBuilder::run_task(request))
    }

    fn list_jobs(&self, request: &ListJobsRequest) -> Result<CommandOutput, CliError> {
        self.execute(CargoAutomationCommandBuilder::list_jobs(request))
    }

    fn enqueue_job(&self, request: &EnqueueJobRequest) -> Result<CommandOutput, CliError> {
        self.execute(CargoAutomationCommandBuilder::enqueue_job(request))
    }

    fn run_doctor(&self, request: &RunDoctorRequest) -> Result<CommandOutput, CliError> {
        self.execute(CargoAutomationCommandBuilder::run_doctor(request))
    }
}

} // verus!
