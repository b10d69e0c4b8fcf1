use std::sync::Mutex;

use ontology_core::knowledge::{
    build_plan, KnowledgeAssistant, KnowledgeResponseBody, KnowledgeSynthesis, KnowledgeTask, PlanError,
    ReasoningStep, KnowledgeAssistantError, KnowledgeOrchestrator, KnowledgeOrchestratorError,
    KnowledgeRequest, KnowledgeResponse, ReasoningCommand, ReasoningOutcome,
};
use ontology_core::{
    Class, InMemoryReasoner, Individual, InferenceSettings, Iri, Ontology, OntologyRepository,
    OntologyStore, ReasonerBackend, ReasonerSettings,
};

fn iri(text: &str) -> Iri {
    Iri::new(text).unwrap()
}

fn settings() -> ReasonerSettings {
    ReasonerSettings {
        backend: ReasonerBackend::Native,
        inference: InferenceSettings { class_hierarchy: true, property_assertions: true, property_paths: true },
    }
}

/// Class (an individual too) under Parent; Other is an unconnected individual.
fn store() -> OntologyStore {
    let mut ontology = Ontology::new(iri("https://example.org/ontology"));
    ontology.add_class(Class::new(iri("https://example.org/Parent"))).unwrap();
    let mut class = Class::new(iri("https://example.org/Class"));
    class.add_parent(iri("https://example.org/Parent"));
    ontology.add_class(class).unwrap();
    ontology.add_individual(Individual::new(iri("https://example.org/Class"))).unwrap();
    ontology.add_individual(Individual::new(iri("https://example.org/Other"))).unwrap();
    let mut store = OntologyStore::new();
    store.insert(ontology).unwrap();
    store
}

struct MockAssistant {
    last_request: Mutex<Option<KnowledgeRequest>>,
    response: KnowledgeResponse,
}

impl Default for MockAssistant {
    fn default() -> Self {
        Self { last_request: Mutex::new(None), response: KnowledgeResponse { message: String::new() } }
    }
}

impl KnowledgeAssistant for &MockAssistant {
    fn respond(&self, request: KnowledgeRequest) -> Result<KnowledgeResponse, KnowledgeAssistantError> {
        *self.last_request.lock().unwrap() = Some(request);
        Ok(self.response.clone())
    }
}

#[test]
fn orchestrator_executes_reasoning_plan() {
    let store = store();
    let reasoner = InMemoryReasoner::new(&store, settings());
    let assistant = MockAssistant {
        response: KnowledgeResponse { message: "ack".to_string() },
        ..MockAssistant::default()
    };
    let orchestrator = KnowledgeOrchestrator::new(reasoner, &assistant);
    let ontology = iri("https://example.org/ontology");
    let class = iri("https://example.org/Class");
    let synthesis = orchestrator
        .run(
            ontology.clone(),
            "Explain the hierarchy".to_string(),
            vec![
                ReasoningCommand::Ancestors { class: class.clone() },
                ReasoningCommand::ShortestPath {
                    start: class.clone(),
                    end: iri("https://example.org/Other"),
                },
            ],
        )
        .expect("orchestrator to succeed");

    assert_eq!(synthesis.message, "ack");
    assert_eq!(synthesis.inferences.len(), 2);
    assert_eq!(
        synthesis.inferences[0],
        ReasoningOutcome::Ancestors { class: class.clone(), ancestors: vec![iri("https://example.org/Parent")] }
    );
    assert_eq!(
        synthesis.inferences[1],
        ReasoningOutcome::ShortestPath { start: class.clone(), end: iri("https://example.org/Other"), path: None }
    );
    let recorded = assistant
        .last_request
        .lock()
        .unwrap()
        .as_ref()
        .cloned()
        .expect("request to be recorded");
    assert_eq!(recorded.prompt, "Explain the hierarchy");
    assert_eq!(recorded.ontology, ontology);
    assert_eq!(recorded.inferences.len(), 2);
}

#[test]
fn reasoner_error_stops_the_plan() {
    let store = store();
    let assistant = MockAssistant::default();
    let orchestrator = KnowledgeOrchestrator::new(InMemoryReasoner::new(&store, settings()), &assistant);
    let result = orchestrator.run(
        iri("https://example.org/missing"),
        "prompt".to_string(),
        vec![
            ReasoningCommand::Ancestors { class: iri("https://example.org/A") },
            ReasoningCommand::Descendants { class: iri("https://example.org/A") },
        ],
    );
    assert!(matches!(result, Err(KnowledgeOrchestratorError::Reasoner(_))));
    assert!(assistant.last_request.lock().unwrap().is_none());
}

#[test]
fn outcomes_are_described() {
    let ancestors = ReasoningOutcome::Ancestors {
        class: iri("https://example.org/C"),
        ancestors: vec![iri("https://example.org/A"), iri("https://example.org/B")],
    };
    assert_eq!(
        ancestors.describe(),
        "Ancestors of class `https://example.org/C` (2 items):\n  - https://example.org/A\n  - https://example.org/B"
    );
    let none = ReasoningOutcome::ShortestPath {
        start: iri("https://example.org/a"),
        end: iri("https://example.org/b"),
        path: None,
    };
    assert_eq!(none.describe(), "No path discovered between `https://example.org/a` and `https://example.org/b`.");
    let many: Vec<Iri> = (0..12).map(|i| iri(&format!("https://example.org/n{i}"))).collect();
    let hops = ReasoningOutcome::ShortestPath {
        start: iri("https://example.org/a"),
        end: iri("https://example.org/b"),
        path: Some(many),
    };
    assert!(hops
        .describe()
        .starts_with("Shortest path between `https://example.org/a` and `https://example.org/b` (12 hops):\n  - https://example.org/n0"));
    let related = ReasoningOutcome::RelatedIndividuals {
        property: iri("https://example.org/p"),
        individual: iri("https://example.org/i"),
        related: vec![],
    };
    assert_eq!(
        related.describe(),
        "Individuals related to `https://example.org/i` via `https://example.org/p` (0 items):"
    );
}

#[test]
fn context_joins_descriptions() {
    let empty = KnowledgeRequest {
        prompt: "p".to_string(),
        ontology: iri("https://example.org/o"),
        inferences: vec![],
    };
    assert_eq!(empty.context_as_text(), "No ontology inferences were requested.");
    let request = KnowledgeRequest {
        prompt: "p".to_string(),
        ontology: iri("https://example.org/o"),
        inferences: vec![
            ReasoningOutcome::Descendants { class: iri("https://example.org/C"), descendants: vec![] },
            ReasoningOutcome::Descendants {
                class: iri("https://example.org/D"),
                descendants: vec![iri("https://example.org/E")],
            },
        ],
    };
    assert_eq!(
        request.context_as_text(),
        "Descendants of class `https://example.org/C` (0 items):\n\nDescendants of class `https://example.org/D` (1 items):\n  - https://example.org/E"
    );
}

#[test]
fn plan_reads_identifiers_in_order() {
    let steps = vec![
        ReasoningStep::Ancestors { class: "https://example.org/C".into() },
        ReasoningStep::RelatedIndividuals {
            property: "https://example.org/p".into(),
            individual: "https://example.org/i".into(),
        },
    ];
    let plan = build_plan(&steps).expect("valid plan");
    assert_eq!(
        plan,
        vec![
            ReasoningCommand::Ancestors { class: iri("https://example.org/C") },
            ReasoningCommand::RelatedIndividuals {
                property: iri("https://example.org/p"),
                individual: iri("https://example.org/i"),
            },
        ]
    );
    let bad = vec![
        ReasoningStep::ShortestPath { start: "https://example.org/a".into(), end: "not an iri".into() },
        ReasoningStep::Descendants { class: "also bad".into() },
    ];
    assert_eq!(
        build_plan(&bad),
        Err(PlanError::InvalidIri { field: "end".into(), value: "not an iri".into() })
    );
}

#[test]
fn response_body_lists_outcome_kinds() {
    let synthesis = KnowledgeSynthesis {
        message: "done".into(),
        inferences: vec![
            ReasoningOutcome::Descendants { class: iri("https://example.org/C"), descendants: vec![] },
            ReasoningOutcome::ShortestPath {
                start: iri("https://example.org/a"),
                end: iri("https://example.org/b"),
                path: None,
            },
        ],
    };
    let body = KnowledgeResponseBody::from_synthesis(synthesis);
    assert_eq!(body.message, "done");
    assert_eq!(body.reasoning.len(), 2);
    assert_eq!(body.reasoning[0].kind, "descendants");
    assert_eq!(body.reasoning[1].kind, "shortest-path");
    assert_eq!(
        body.reasoning[1].summary,
        "No path discovered between `https://example.org/a` and `https://example.org/b`."
    );
}

fn vars(pairs: &[(&str, &str)]) -> Vec<(String, String)> {
    pairs.iter().map(|(k, v)| (k.to_string(), v.to_string())).collect()
}

#[test]
fn task_plan_follows_the_variables() {
    let cli = vars(&[
        ("prompt", "Summarize"),
        ("ontology", "https://example.org/ontology"),
        ("class", "https://example.org/root"),
        ("path_start", "https://example.org/a"),
    ]);
    let plan = KnowledgeTask::build_plan(&cli).expect("plan");
    assert_eq!(
        plan,
        vec![
            ReasoningCommand::Ancestors { class: iri("https://example.org/root") },
            ReasoningCommand::Descendants { class: iri("https://example.org/root") },
        ]
    );
    let cli = vars(&[
        ("path_end", "https://example.org/b"),
        ("individual", "https://example.org/i"),
        ("path_start", "https://example.org/a"),
        ("property", "https://example.org/p"),
    ]);
    let plan = KnowledgeTask::build_plan(&cli).expect("plan");
    assert_eq!(
        plan,
        vec![
            ReasoningCommand::RelatedIndividuals {
                property: iri("https://example.org/p"),
                individual: iri("https://example.org/i"),
            },
            ReasoningCommand::ShortestPath { start: iri("https://example.org/a"), end: iri("https://example.org/b") },
        ]
    );
    assert_eq!(KnowledgeTask.name(), "ontology:assist");
}

#[test]
fn task_plan_rejects_invalid_identifiers() {
    let cli = vars(&[("path_start", "bad start"), ("path_end", "https://example.org/b"), ("class", "https://example.org/c")]);
    assert_eq!(
        KnowledgeTask::build_plan(&cli),
        Err(PlanError::InvalidIri { field: "path_start".into(), value: "bad start".into() })
    );
    let cli = vars(&[("property", "not an iri")]);
    assert_eq!(KnowledgeTask::build_plan(&cli), Ok(vec![]));
}
