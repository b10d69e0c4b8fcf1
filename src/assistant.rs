//! The introspection assistant: a prompt written from the application graph and
//! doctor findings, a conversation kept across calls, and a rule-based client.
use vstd::prelude::*;
use vstd::string::StringExecFns;

use crate::graph::{
    sort_dedup, sorted_texts, texts_of, BackgroundWorkerDescriptor, BackgroundWorkerRepository,
    RouteDescriptor, RoutesRepository, SchedulerJobDescriptor, SchedulerRepository, TaskDescriptor,
    TaskRepository,
};

verus! {

/// How a doctor check came out.
#[derive(Debug, Clone, Copy, PartialEq, Eq)]
pub enum DoctorStatus {
    Passing,
    Failing,
    Warning,
}

pub open spec fn status_label(s: DoctorStatus) -> Seq<char> {
    match s {
        DoctorStatus::Passing => "passing"@,
        DoctorStatus::Failing => "failing"@,
        DoctorStatus::Warning => "warning"@,
    }
}

impl DoctorStatus {
    pub fn label(self) -> (r: &'static str)
        ensures
            r@ == status_label(self),
    {
        match self {
            DoctorStatus::Passing => "passing",
            DoctorStatus::Failing => "failing",
            DoctorStatus::Warning => "warning",
        }
    }
}

/// A doctor check result as the assistant reads it.
#[derive(Debug, Clone, PartialEq, Eq)]
pub struct DoctorFinding {
    pub resource: String,
    pub status: DoctorStatus,
    pub message: String,
    pub detail: Option<String>,
}

/// Who spoke a turn of the conversation.
#[derive(Debug, Clone, PartialEq, Eq)]
pub enum ConversationRole {
    User,
    Assistant,
}

/// One turn of the conversation.
#[derive(Debug, Clone, PartialEq, Eq)]
pub struct ConversationTurn {
    pub role: ConversationRole,
    pub content: String,
}

impl ConversationTurn {
    pub fn user(content: &str) -> (r: ConversationTurn)
        ensures
            r.role == ConversationRole::User,
            r.content@ == content@,
    {
        ConversationTurn { role: ConversationRole::User, content: content.to_owned() }
    }

    pub fn assistant(content: &str) -> (r: ConversationTurn)
        ensures
            r.role == ConversationRole::Assistant,
            r.content@ == content@,
    {
        ConversationTurn { role: ConversationRole::Assistant, content: content.to_owned() }
    }
}

/// The parts of the application that the graph holds.
#[derive(Debug, Clone, PartialEq, Eq)]
pub struct GraphDependencies {
    pub background_workers: Vec<BackgroundWorkerDescriptor>,
    pub scheduler_jobs: Vec<SchedulerJobDescriptor>,
    pub tasks: Vec<TaskDescriptor>,
}

/// Whether the graph could be read.
#[derive(Debug, Clone, Copy, PartialEq, Eq)]
pub struct GraphHealth {
    pub ok: bool,
}

/// The routes and dependencies of the application at one moment.
#[derive(Debug, Clone, PartialEq, Eq)]
pub struct GraphSnapshot {
    pub routes: Vec<RouteDescriptor>,
    pub dependencies: GraphDependencies,
    pub health: GraphHealth,
}

/// Reads the application graph.
pub trait GraphQueryService {
    fn snapshot(&self) -> GraphSnapshot;
}

/// Reads a snapshot from the four sources of the application's parts.
pub fn snapshot_of<R: RoutesRepository, B: BackgroundWorkerRepository, S: SchedulerRepository, T: TaskRepository>(
    routes: &R,
    workers: &B,
    scheduler: &S,
    tasks: &T,
) -> (r: GraphSnapshot)
    ensures
        r.health.ok,
{
    GraphSnapshot {
        routes: routes.routes(),
        dependencies: GraphDependencies {
            background_workers: workers.workers(),
            scheduler_jobs: scheduler.jobs(),
            tasks: tasks.tasks(),
        },
        health: GraphHealth { ok: true },
    }
}

/// What the provider is asked.
#[derive(Debug, Clone, PartialEq, Eq)]
pub struct AssistantPrompt {
    pub system: String,
    pub history: Vec<ConversationTurn>,
    pub user: String,
}

/// A request to the provider, with the data the prompt was written from.
#[derive(Debug, Clone, PartialEq, Eq)]
pub struct AssistantRequest {
    pub app_name: String,
    pub prompt: AssistantPrompt,
    pub graph: GraphSnapshot,
    pub doctor_findings: Vec<DoctorFinding>,
}

/// A recommendation about one node of the graph.
#[derive(Debug, Clone, PartialEq, Eq)]
pub struct AssistantSuggestion {
    pub node_id: String,
    pub summary: String,
    pub rationale: Option<String>,
}

/// The advice handed back to callers.
#[derive(Debug, Clone, PartialEq, Eq)]
pub struct AssistantAdvice {
    pub response: String,
    pub suggestions: Vec<AssistantSuggestion>,
}

/// What the provider answers.
#[derive(Debug, Clone, PartialEq, Eq)]
pub struct AssistantCompletion {
    pub reply: String,
    pub suggestions: Vec<AssistantSuggestion>,
}

/// The conversation kept between calls.
#[derive(Debug, Clone, Default, PartialEq, Eq)]
pub struct AssistantState {
    pub history: Vec<ConversationTurn>,
}

/// Where the conversation is kept.
pub trait ConversationStore {
    fn load(&self) -> AssistantState;

    fn save(&self, state: AssistantState);
}

/// Why the assistant could not answer.
#[derive(Debug, Clone, PartialEq, Eq)]
pub enum AssistantError {
    Client(String),
}

/// A provider of completions.
pub trait AssistantClient {
    fn complete(&self, request: AssistantRequest) -> Result<AssistantCompletion, AssistantError>;
}

// ----- the prompt -----

/// The texts joined with `sep` between them.
pub open spec fn joined(items: Seq<Seq<char>>, sep: Seq<char>) -> Seq<char>
    decreases items.len(),
{
    if items.len() == 0 {
        Seq::empty()
    } else if items.len() == 1 {
        items[0]
    } else {
        joined(items.drop_last(), sep) + sep + items.last()
    }
}

/// The texts joined with `sep`, or `fallback` where there are none.
pub open spec fn joined_or(items: Seq<Seq<char>>, sep: Seq<char>, fallback: Seq<char>) -> Seq<char> {
    if items.len() == 0 {
        fallback
    } else {
        joined(items, sep)
    }
}

pub open spec fn route_line(r: RouteDescriptor) -> Seq<char> {
    "- route:"@ + r.path@ + " (methods: "@ + joined_or(sorted_texts(r.methods@), ", "@, "unknown"@)
        + ")\n"@
}

pub open spec fn worker_line(w: BackgroundWorkerDescriptor) -> Seq<char> {
    "- worker:"@ + w.name@ + " (queue: "@ + match w.queue {
        Some(q) => q@,
        None => "unspecified"@,
    } + ")\n"@
}

pub open spec fn job_line(j: SchedulerJobDescriptor) -> Seq<char> {
    "- scheduler:"@ + j.name@ + " (schedule: "@ + j.schedule@ + ", command: "@ + j.command@
        + ", tags: "@ + joined_or(texts_of(j.tags@), ", "@, "none"@) + ")\n"@
}

pub open spec fn task_line(t: TaskDescriptor) -> Seq<char> {
    match t.detail {
        Some(d) => "- task:"@ + t.name@ + " (detail: "@ + d@ + ")\n"@,
        None => "- task:"@ + t.name@ + "\n"@,
    }
}

pub open spec fn finding_line(f: DoctorFinding) -> Seq<char> {
    "- "@ + f.resource@ + " => "@ + status_label(f.status) + " ("@ + f.message@ + match f.detail {
        Some(d) => " - "@ + d@,
        None => Seq::empty(),
    } + ")\n"@
}

pub open spec fn route_lines(s: Seq<RouteDescriptor>) -> Seq<char>
    decreases s.len(),
{
    if s.len() == 0 {
        Seq::empty()
    } else {
        route_lines(s.drop_last()) + route_line(s.last())
    }
}

pub open spec fn worker_lines(s: Seq<BackgroundWorkerDescriptor>) -> Seq<char>
    decreases s.len(),
{
    if s.len() == 0 {
        Seq::empty()
    } else {
        worker_lines(s.drop_last()) + worker_line(s.last())
    }
}

pub open spec fn job_lines(s: Seq<SchedulerJobDescriptor>) -> Seq<char>
    decreases s.len(),
{
    if s.len() == 0 {
        Seq::empty()
    } else {
        job_lines(s.drop_last()) + job_line(s.last())
    }
}

pub open spec fn task_lines(s: Seq<TaskDescriptor>) -> Seq<char>
    decreases s.len(),
{
    if s.len() == 0 {
        Seq::empty()
    } else {
        task_lines(s.drop_last()) + task_line(s.last())
    }
}

pub open spec fn finding_lines(s: Seq<DoctorFinding>) -> Seq<char>
    decreases s.len(),
{
    if s.len() == 0 {
        Seq::empty()
    } else {
        finding_lines(s.drop_last()) + finding_line(s.last())
    }
}

/// A section: its heading, then its lines and a blank line, or the note for
/// none and a blank line.
pub open spec fn section(heading: Seq<char>, count: nat, lines: Seq<char>, none: Seq<char>) -> Seq<char> {
    heading + if count == 0 {
        none + "\n"@
    } else {
        lines + "\n"@
    }
}

/// The prompt written for `app` from the snapshot and the findings.
pub open spec fn prompt_text(app: Seq<char>, g: GraphSnapshot, findings: Seq<DoctorFinding>) -> Seq<char> {
    let d = g.dependencies;
    "Application: "@ + app + "\n"@ + "Graph health: "@ + (if g.health.ok {
        "ok"@
    } else {
        "not ok"@
    }) + "\n"@ + "\n"@ + section(
        "Routes:\n"@,
        g.routes@.len(),
        route_lines(g.routes@),
        "- none defined\n"@,
    ) + section(
        "Background workers:\n"@,
        d.background_workers@.len(),
        worker_lines(d.background_workers@),
        "- none registered\n"@,
    ) + section(
        "Scheduler jobs:\n"@,
        d.scheduler_jobs@.len(),
        job_lines(d.scheduler_jobs@),
        "- none configured\n"@,
    ) + section(
        "Tasks:\n"@,
        d.tasks@.len(),
        task_lines(d.tasks@),
        "- none registered\n"@,
    ) + "Doctor findings:\n"@ + (if findings.len() == 0 {
        "- no doctor data provided\n"@
    } else {
        finding_lines(findings)
    }) + "\nProvide actionable recommendations that reference the node identifiers above."@
}

fn append_joined(buf: &mut String, items: &Vec<String>, sep: &str, fallback: &str)
    ensures
        final(buf)@ == old(buf)@ + joined_or(texts_of(items@), sep@, fallback@),
{
    if items.len() == 0 {
        buf.append(fallback);
        return;
    }
    let ghost base = buf@;
    buf.append(items[0].as_str());
    let mut i: usize = 1;
    assert(texts_of(items@).subrange(0, 1) =~= seq![items@[0]@]);
    while i < items.len()
        invariant
            1 <= i <= items.len(),
            buf@ == base + joined(texts_of(items@).subrange(0, i as int), sep@),
        decreases items.len() - i,
    {
        buf.append(sep);
        buf.append(items[i].as_str());
        assert(texts_of(items@).subrange(0, i + 1).drop_last() =~= texts_of(items@).subrange(0, i as int));
        i = i + 1;
        assert(buf@ =~= base + joined(texts_of(items@).subrange(0, i as int), sep@));
    }
    assert(texts_of(items@).subrange(0, i as int) =~= texts_of(items@));
}

fn append_routes(buf: &mut String, routes: &Vec<RouteDescriptor>)
    ensures
        final(buf)@ == old(buf)@ + section("Routes:\n"@, routes@.len(), route_lines(routes@), "- none defined\n"@),
{
    buf.append("Routes:\n");
    if routes.len() == 0 {
        buf.append("- none defined\n");
        buf.append("\n");
        return;
    }
    let ghost base = buf@;
    let mut i: usize = 0;
    assert(routes@.subrange(0, 0) =~= Seq::<RouteDescriptor>::empty());
    while i < routes.len()
        invariant
            i <= routes.len(),
            buf@ == base + route_lines(routes@.subrange(0, i as int)),
        decreases routes.len() - i,
    {
        let r = &routes[i];
        let methods = sort_dedup(r.methods.clone());
        buf.append("- route:");
        buf.append(r.path.as_str());
        buf.append(" (methods: ");
        append_joined(buf, &methods, ", ", "unknown");
        buf.append(")\n");
        assert(routes@.subrange(0, i + 1).drop_last() =~= routes@.subrange(0, i as int));
        i = i + 1;
        assert(buf@ =~= base + route_lines(routes@.subrange(0, i as int)));
    }
    assert(routes@.subrange(0, i as int) =~= routes@);
    buf.append("\n");
}

fn append_workers(buf: &mut String, workers: &Vec<BackgroundWorkerDescriptor>)
    ensures
        final(buf)@ == old(buf)@ + section("Background workers:\n"@, workers@.len(), worker_lines(workers@), "- none registered\n"@),
{
    buf.append("Background workers:\n");
    if workers.len() == 0 {
        buf.append("- none registered\n");
        buf.append("\n");
        return;
    }
    let ghost base = buf@;
    let mut i: usize = 0;
    assert(workers@.subrange(0, 0) =~= Seq::<BackgroundWorkerDescriptor>::empty());
    while i < workers.len()
        invariant
            i <= workers.len(),
            buf@ == base + worker_lines(workers@.subrange(0, i as int)),
        decreases workers.len() - i,
    {
        let w = &workers[i];
        buf.append("- worker:");
        buf.append(w.name.as_str());
        buf.append(" (queue: ");
        match &w.queue {
            Some(q) => buf.append(q.as_str()),
            None => buf.append("unspecified"),
        }
        buf.append(")\n");
        assert(workers@.subrange(0, i + 1).drop_last() =~= workers@.subrange(0, i as int));
        i = i + 1;
        assert(buf@ =~= base + worker_lines(workers@.subrange(0, i as int)));
    }
    assert(workers@.subrange(0, i as int) =~= workers@);
    buf.append("\n");
}

fn append_jobs(buf: &mut String, jobs: &Vec<SchedulerJobDescriptor>)
    ensures
        final(buf)@ == old(buf)@ + section("Scheduler jobs:\n"@, jobs@.len(), job_lines(jobs@), "- none configured\n"@),
{
    buf.append("Scheduler jobs:\n");
    if jobs.len() == 0 {
        buf.append("- none configured\n");
        buf.append("\n");
        return;
    }
    let ghost base = buf@;
    let mut i: usize = 0;
    assert(jobs@.subrange(0, 0) =~= Seq::<SchedulerJobDescriptor>::empty());
    while i < jobs.len()
        invariant
            i <= jobs.len(),
            buf@ == base + job_lines(jobs@.subrange(0, i as int)),
        decreases jobs.len() - i,
    {
        let j = &jobs[i];
        buf.append("- scheduler:");
        buf.append(j.name.as_str());
        buf.append(" (schedule: ");
        buf.append(j.schedule.as_str());
        buf.append(", command: ");
        buf.append(j.command.as_str());
        buf.append(", tags: ");
        append_joined(buf, &j.tags, ", ", "none");
        buf.append(")\n");
        assert(jobs@.subrange(0, i + 1).drop_last() =~= jobs@.subrange(0, i as int));
        i = i + 1;
        assert(buf@ =~= base + job_lines(jobs@.subrange(0, i as int)));
    }
    assert(jobs@.subrange(0, i as int) =~= jobs@);
    buf.append("\n");
}

fn append_tasks(buf: &mut String, tasks: &Vec<TaskDescriptor>)
    ensures
        final(buf)@ == old(buf)@ + section("Tasks:\n"@, tasks@.len(), task_lines(tasks@), "- none registered\n"@),
{
    buf.append("Tasks:\n");
    if tasks.len() == 0 {
        buf.append("- none registered\n");
        buf.append("\n");
        return;
    }
    let ghost base = buf@;
    let mut i: usize = 0;
    assert(tasks@.subrange(0, 0) =~= Seq::<TaskDescriptor>::empty());
    while i < tasks.len()
        invariant
            i <= tasks.len(),
            buf@ == base + task_lines(tasks@.subrange(0, i as int)),
        decreases tasks.len() - i,
    {
        let t = &tasks[i];
        buf.append("- task:");
        buf.append(t.name.as_str());
        match &t.detail {
            Some(d) => {
                buf.append(" (detail: ");
                buf.append(d.as_str());
                buf.append(")\n");
            },
            None => {
                buf.append("\n");
            },
        }
        assert(tasks@.subrange(0, i + 1).drop_last() =~= tasks@.subrange(0, i as int));
        i = i + 1;
        assert(buf@ =~= base + task_lines(tasks@.subrange(0, i as int)));
    }
    assert(tasks@.subrange(0, i as int) =~= tasks@);
    buf.append("\n");
}

fn append_findings(buf: &mut String, findings: &Vec<DoctorFinding>)
    ensures
        final(buf)@ == old(buf)@ + "Doctor findings:\n"@ + (if findings@.len() == 0 {
            "- no doctor data provided\n"@
        } else {
            finding_lines(findings@)
        }),
{
    buf.append("Doctor findings:\n");
    if findings.len() == 0 {
        buf.append("- no doctor data provided\n");
        return;
    }
    let ghost base = buf@;
    let mut i: usize = 0;
    assert(findings@.subrange(0, 0) =~= Seq::<DoctorFinding>::empty());
    while i < findings.len()
        invariant
            i <= findings.len(),
            buf@ == base + finding_lines(findings@.subrange(0, i as int)),
        decreases findings.len() - i,
    {
        let f = &findings[i];
        buf.append("- ");
        buf.append(f.resource.as_str());
        buf.append(" => ");
        buf.append(f.status.label());
        buf.append(" (");
        buf.append(f.message.as_str());
        if let Some(d) = &f.detail {
            buf.append(" - ");
            buf.append(d.as_str());
        }
        buf.append(")\n");
        assert(findings@.subrange(0, i + 1).drop_last() =~= findings@.subrange(0, i as int));
        i = i + 1;
        assert(buf@ =~= base + finding_lines(findings@.subrange(0, i as int)));
    }
    assert(findings@.subrange(0, i as int) =~= findings@);
}

/// The prompt for `app_name` from the snapshot and the findings.
pub fn build_prompt(app_name: &str, snapshot: &GraphSnapshot, findings: &Vec<DoctorFinding>) -> (r: String)
    ensures
        r@ == prompt_text(app_name@, *snapshot, findings@),
{
    let mut prompt = "Application: ".to_owned();
    prompt.append(app_name);
    prompt.append("\n");
    prompt.append("Graph health: ");
    if snapshot.health.ok {
        prompt.append("ok");
    } else {
        prompt.append("not ok");
    }
    prompt.append("\n");
    prompt.append("\n");
    append_routes(&mut prompt, &snapshot.routes);
    append_workers(&mut prompt, &snapshot.dependencies.background_workers);
    append_jobs(&mut prompt, &snapshot.dependencies.scheduler_jobs);
    append_tasks(&mut prompt, &snapshot.dependencies.tasks);
    append_findings(&mut prompt, findings);
    prompt.append("\nProvide actionable recommendations that reference the node identifiers above.");
    assert(prompt@ =~= prompt_text(app_name@, *snapshot, findings@));
    prompt
}

/// The standing instruction to the provider.
pub const SYSTEM_PROMPT: &'static str = "You are an engineering assistant analysing Loco introspection data. Reference node identifiers when recommending changes.";

/// Asks a provider for advice on the application, keeping the conversation.
pub struct IntrospectionAssistant<'a, Q: GraphQueryService, C: AssistantClient, S: ConversationStore> {
    app_name: &'a str,
    graph: &'a Q,
    client: &'a C,
    store: &'a S,
}

impl<'a, Q: GraphQueryService, C: AssistantClient, S: ConversationStore> IntrospectionAssistant<'a, Q, C, S> {
    pub closed spec fn app_name_view(&self) -> Seq<char> {
        self.app_name@
    }

    pub fn new(app_name: &'a str, graph: &'a Q, client: &'a C, store: &'a S) -> (r: Self)
        ensures
            r.app_name_view() == app_name@,
    {
        IntrospectionAssistant { app_name, graph, client, store }
    }

    /// The request for the provider: the standing instruction, the conversation so
    /// far, and the prompt written from the snapshot and the findings.
    pub fn request_for(
        &self,
        snapshot: GraphSnapshot,
        history: Vec<ConversationTurn>,
        findings: &Vec<DoctorFinding>,
    ) -> (r: AssistantRequest)
        ensures
            r.app_name@ == self.app_name_view(),
            r.prompt.system@ == SYSTEM_PROMPT@,
            r.prompt.history == history,
            r.prompt.user@ == prompt_text(self.app_name_view(), snapshot, findings@),
            r.graph == snapshot,
    {
        let user = build_prompt(self.app_name, &snapshot, findings);
        AssistantRequest {
            app_name: self.app_name.to_owned(),
            prompt: AssistantPrompt { system: SYSTEM_PROMPT.to_owned(), history, user },
            graph: snapshot,
            doctor_findings: findings.clone(),
        }
    }

    /// Asks the provider, then records the prompt and the reply in the conversation.
    pub fn advise(&self, findings: &Vec<DoctorFinding>) -> Result<AssistantAdvice, AssistantError> {
        let snapshot = self.graph.snapshot();
        let mut state = self.store.load();
        let request = self.request_for(snapshot, state.history.clone(), findings);
        let prompt_text = request.prompt.user.clone();
        let completion = self.client.complete(request)?;
        state.history.push(ConversationTurn::user(prompt_text.as_str()));
        state.history.push(ConversationTurn::assistant(completion.reply.as_str()));
        self.store.save(state);
        Ok(AssistantAdvice { response: completion.reply, suggestions: completion.suggestions })
    }
}

/// What a suggestion says.
pub ghost struct SuggestionView {
    pub node_id: Seq<char>,
    pub summary: Seq<char>,
    pub rationale: Option<Seq<char>>,
}

pub open spec fn suggestion_view(s: AssistantSuggestion) -> SuggestionView {
    SuggestionView {
        node_id: s.node_id@,
        summary: s.summary@,
        rationale: match s.rationale {
            Some(r) => Some(r@),
            None => None,
        },
    }
}

/// One suggestion to look into each finding that is not passing, in order.
pub open spec fn finding_suggestions(app: Seq<char>, fs: Seq<DoctorFinding>) -> Seq<SuggestionView>
    decreases fs.len(),
{
    if fs.len() == 0 {
        Seq::empty()
    } else {
        let rest = finding_suggestions(app, fs.drop_last());
        let f = fs.last();
        if f.status == DoctorStatus::Passing {
            rest
        } else {
            rest.push(
                SuggestionView {
                    node_id: "app:"@ + app,
                    summary: "Investigate "@ + f.resource@,
                    rationale: Some(
                        f.message@ + match f.detail {
                            Some(d) => " - "@ + d@,
                            None => Seq::empty(),
                        },
                    ),
                },
            )
        }
    }
}

/// The suggestions of the rule-based client: one per finding that is not
/// passing; where there is none, a review of the first route, or a note that the
/// system looks healthy.
pub open spec fn rule_suggestions(app: Seq<char>, fs: Seq<DoctorFinding>, routes: Seq<RouteDescriptor>) -> Seq<SuggestionView> {
    let found = finding_suggestions(app, fs);
    if found.len() > 0 {
        found
    } else if routes.len() > 0 {
        seq![
            SuggestionView {
                node_id: "route:"@ + routes[0].path@,
                summary: "Review "@ + routes[0].path@ + " route for optimisation opportunities"@,
                rationale: Some(
                    "No doctor warnings were reported; consider confirming the route behaviour."@,
                ),
            },
        ]
    } else {
        seq![
            SuggestionView {
                node_id: "app:"@ + app,
                summary: "System appears healthy. Continue monitoring."@,
                rationale: Some("No doctor warnings were reported."@),
            },
        ]
    }
}

fn concat(a: &str, b: &str) -> (r: String)
    ensures
        r@ == a@ + b@,
{
    let mut s = a.to_owned();
    s.append(b);
    s
}

/// Suggestions from fixed rules, for when no remote provider is configured.
#[derive(Debug, Default, Clone, Copy)]
pub struct RuleBasedAssistantClient;

impl RuleBasedAssistantClient {
    /// The rule-based completion of a request.
    pub fn suggest(&self, request: &AssistantRequest) -> (r: AssistantCompletion)
        ensures
            r.reply@ == "Generated suggestions from local rules."@,
            r.suggestions@.map_values(|s: AssistantSuggestion| suggestion_view(s)) == rule_suggestions(
                request.app_name@,
                request.doctor_findings@,
                request.graph.routes@,
            ),
    {
        let findings = &request.doctor_findings;
        let mut suggestions: Vec<AssistantSuggestion> = Vec::new();
        let mut i: usize = 0;
        assert(findings@.subrange(0, 0) =~= Seq::<DoctorFinding>::empty());
        assert(suggestions@.map_values(|s: AssistantSuggestion| suggestion_view(s)) =~= Seq::<SuggestionView>::empty());
        while i < findings.len()
            invariant
                i <= findings.len(),
                suggestions@.map_values(|s: AssistantSuggestion| suggestion_view(s)) == finding_suggestions(
                    request.app_name@,
                    findings@.subrange(0, i as int),
                ),
            decreases findings.len() - i,
        {
            let f = &findings[i];
            let ghost before = suggestions@;
            assert(findings@.subrange(0, i + 1).drop_last() =~= findings@.subrange(0, i as int));
            let passing = match f.status {
                DoctorStatus::Passing => true,
                _ => false,
            };
            if !passing {
                let rationale = match &f.detail {
                    Some(d) => {
                        let with = concat(f.message.as_str(), " - ");
                        concat(with.as_str(), d.as_str())
                    },
                    None => f.message.clone(),
                };
                let s = AssistantSuggestion {
                    node_id: concat("app:", request.app_name.as_str()),
                    summary: concat("Investigate ", f.resource.as_str()),
                    rationale: Some(rationale),
                };
                suggestions.push(s);
                assert(suggestions@.map_values(|s: AssistantSuggestion| suggestion_view(s)) =~= before.map_values(|s: AssistantSuggestion| suggestion_view(s)).push(suggestion_view(s)));
                assert(suggestion_view(s).rationale == Some(
                    f.message@ + match f.detail {
                        Some(d) => " - "@ + d@,
                        None => Seq::<char>::empty(),
                    },
                )) by {
                    if f.detail is None {
                        assert(f.message@ + Seq::<char>::empty() =~= f.message@);
                    }
                }
            }
            i = i + 1;
        }
        assert(findings@.subrange(0, i as int) =~= findings@);
        if suggestions.len() == 0 {
            if request.graph.routes.len() > 0 {
                let path = request.graph.routes[0].path.as_str();
                let review = concat("Review ", path);
                suggestions.push(
                    AssistantSuggestion {
                        node_id: concat("route:", path),
                        summary: concat(review.as_str(), " route for optimisation opportunities"),
                        rationale: Some(
                            "No doctor warnings were reported; consider confirming the route behaviour.".to_owned(),
                        ),
                    },
                );
            } else {
                suggestions.push(
                    AssistantSuggestion {
                        node_id: concat("app:", request.app_name.as_str()),
                        summary: "System appears healthy. Continue monitoring.".to_owned(),
                        rationale: Some("No doctor warnings were reported.".to_owned()),
                    },
                );
            }
            assert(suggestions@.map_values(|s: AssistantSuggestion| suggestion_view(s)) =~= rule_suggestions(
                request.app_name@,
                request.doctor_findings@,
                request.graph.routes@,
            ));
        }
        AssistantCompletion { reply: "Generated suggestions from local rules.".to_owned(), suggestions }
    }
}

impl AssistantClient for RuleBasedAssistantClient {
    fn complete(&self, request: AssistantRequest) -> Result<AssistantCompletion, AssistantError> {
        Ok(self.suggest(&request))
    }
}

} // verus!
