use std::sync::Mutex;

use ontology_core::assistant::{
    build_prompt, AssistantClient, AssistantCompletion, AssistantError, AssistantRequest,
    AssistantState, AssistantSuggestion, ConversationRole, ConversationStore, ConversationTurn,
    DoctorFinding, DoctorStatus, GraphDependencies, GraphHealth, GraphQueryService, GraphSnapshot,
    IntrospectionAssistant, RuleBasedAssistantClient,
};
use ontology_core::graph::{
    BackgroundWorkerDescriptor, RouteDescriptor, SchedulerJobDescriptor, TaskDescriptor,
};

#[derive(Clone)]
struct StubGraphService {
    snapshot: GraphSnapshot,
}

impl GraphQueryService for StubGraphService {
    fn snapshot(&self) -> GraphSnapshot {
        self.snapshot.clone()
    }
}

struct RecordingClient {
    last: Mutex<Option<AssistantRequest>>,
    completion: AssistantCompletion,
}

impl RecordingClient {
    fn new(completion: AssistantCompletion) -> Self {
        Self { last: Mutex::new(None), completion }
    }

    fn captured(&self) -> AssistantRequest {
        self.last.lock().unwrap().clone().expect("request was captured")
    }
}

impl AssistantClient for RecordingClient {
    fn complete(&self, request: AssistantRequest) -> Result<AssistantCompletion, AssistantError> {
        *self.last.lock().unwrap() = Some(request);
        Ok(self.completion.clone())
    }
}

#[derive(Default)]
struct MemoryStore {
    state: Mutex<Option<AssistantState>>,
}

impl ConversationStore for MemoryStore {
    fn load(&self) -> AssistantState {
        self.state.lock().unwrap().clone().unwrap_or_default()
    }

    fn save(&self, state: AssistantState) {
        *self.state.lock().unwrap() = Some(state);
    }
}

fn sample_snapshot() -> GraphSnapshot {
    GraphSnapshot {
        routes: vec![RouteDescriptor { path: "/health".to_string(), methods: vec!["GET".to_string()] }],
        dependencies: GraphDependencies {
            background_workers: vec![BackgroundWorkerDescriptor {
                name: "mailer".to_string(),
                queue: Some("redis".to_string()),
            }],
            scheduler_jobs: vec![SchedulerJobDescriptor {
                name: "daily".to_string(),
                schedule: "0 0 * * *".to_string(),
                command: "task cleanup".to_string(),
                run_on_start: false,
                shell: true,
                tags: vec!["maintenance".to_string()],
            }],
            tasks: vec![TaskDescriptor {
                name: "cleanup".to_string(),
                detail: Some("remove temp files".to_string()),
            }],
        },
        health: GraphHealth { ok: true },
    }
}

fn failing_finding() -> DoctorFinding {
    DoctorFinding {
        resource: "Queue".to_string(),
        status: DoctorStatus::Failing,
        message: "queue connection: failed".to_string(),
        detail: Some("redis is unreachable".to_string()),
    }
}

#[test]
fn formats_prompt_and_returns_suggestions() {
    let graph = StubGraphService { snapshot: sample_snapshot() };
    let store = MemoryStore::default();
    let completion = AssistantCompletion {
        reply: "Mock reply".to_string(),
        suggestions: vec![AssistantSuggestion {
            node_id: "route:/health".to_string(),
            summary: "Verify health endpoint".to_string(),
            rationale: Some("Ensure monitoring matches requirements.".to_string()),
        }],
    };
    let client = RecordingClient::new(completion.clone());
    let assistant = IntrospectionAssistant::new("demo", &graph, &client, &store);

    let advice = assistant.advise(&vec![failing_finding()]).expect("assistant advice");

    let captured = client.captured();
    assert!(captured.prompt.user.contains("route:/health"));
    assert!(captured.prompt.user.contains("Doctor findings"));
    assert_eq!(advice.suggestions, completion.suggestions);

    let state = store.state.lock().unwrap().clone().expect("state stored in shared store");
    assert_eq!(state.history.len(), 2);
}

#[test]
fn reuses_conversation_history_between_calls() {
    let graph = StubGraphService { snapshot: sample_snapshot() };
    let store = MemoryStore::default();

    let first = RecordingClient::new(AssistantCompletion { reply: "First".to_string(), suggestions: vec![] });
    let assistant = IntrospectionAssistant::new("demo", &graph, &first, &store);
    assistant.advise(&vec![failing_finding()]).expect("first call succeeds");

    let second = RecordingClient::new(AssistantCompletion { reply: "Second".to_string(), suggestions: vec![] });
    let assistant = IntrospectionAssistant::new("demo", &graph, &second, &store);
    assistant.advise(&vec![]).expect("second call succeeds");

    let captured = second.captured();
    assert_eq!(captured.prompt.history.len(), 2);
    assert!(captured.prompt.history.iter().any(|turn| matches!(turn.role, ConversationRole::Assistant)));
}

#[test]
fn prompt_lists_every_section() {
    let prompt = build_prompt("demo", &sample_snapshot(), &vec![failing_finding()]);
    assert_eq!(
        prompt,
        "Application: demo\nGraph health: ok\n\nRoutes:\n- route:/health (methods: GET)\n\n\
Background workers:\n- worker:mailer (queue: redis)\n\n\
Scheduler jobs:\n- scheduler:daily (schedule: 0 0 * * *, command: task cleanup, tags: maintenance)\n\n\
Tasks:\n- task:cleanup (detail: remove temp files)\n\n\
Doctor findings:\n- Queue => failing (queue connection: failed - redis is unreachable)\n\
\nProvide actionable recommendations that reference the node identifiers above."
    );
    let empty = GraphSnapshot {
        routes: vec![],
        dependencies: GraphDependencies { background_workers: vec![], scheduler_jobs: vec![], tasks: vec![] },
        health: GraphHealth { ok: false },
    };
    assert_eq!(
        build_prompt("x", &empty, &vec![]),
        "Application: x\nGraph health: not ok\n\nRoutes:\n- none defined\n\n\
Background workers:\n- none registered\n\nScheduler jobs:\n- none configured\n\n\
Tasks:\n- none registered\n\nDoctor findings:\n- no doctor data provided\n\
\nProvide actionable recommendations that reference the node identifiers above."
    );
}

#[test]
fn rule_based_client_follows_findings() {
    let client = RuleBasedAssistantClient;
    let request = |findings: Vec<DoctorFinding>, routes: Vec<RouteDescriptor>| AssistantRequest {
        app_name: "demo".to_string(),
        prompt: ontology_core::assistant::AssistantPrompt {
            system: String::new(),
            history: vec![],
            user: String::new(),
        },
        graph: GraphSnapshot { routes, ..sample_snapshot() },
        doctor_findings: findings,
    };
    let passing = DoctorFinding {
        resource: "Database".to_string(),
        status: DoctorStatus::Passing,
        message: "ok".to_string(),
        detail: None,
    };
    let done = client.complete(request(vec![passing.clone(), failing_finding()], vec![])).unwrap();
    assert_eq!(done.reply, "Generated suggestions from local rules.");
    assert_eq!(
        done.suggestions,
        vec![AssistantSuggestion {
            node_id: "app:demo".to_string(),
            summary: "Investigate Queue".to_string(),
            rationale: Some("queue connection: failed - redis is unreachable".to_string()),
        }]
    );
    let healthy = client.complete(request(vec![passing.clone()], sample_snapshot().routes)).unwrap();
    assert_eq!(healthy.suggestions[0].node_id, "route:/health");
    assert_eq!(healthy.suggestions[0].summary, "Review /health route for optimisation opportunities");
    let bare = client.complete(request(vec![], vec![])).unwrap();
    assert_eq!(bare.suggestions[0].summary, "System appears healthy. Continue monitoring.");
    assert_eq!(ConversationTurn::user("hi").role, ConversationRole::User);
    assert_eq!(DoctorStatus::Warning.label(), "warning");
}
