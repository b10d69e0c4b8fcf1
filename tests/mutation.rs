use std::sync::Mutex;

use ontology_core::mutation::{
    FieldDefinition, GenerationError, GraphMutationService, NodeComponent, NodeCreationCommand,
    NodeCreationRequest, NodePresentation, ScaffoldGeneration, ScaffoldGenerator,
};

#[derive(Default)]
struct RecordingGenerator {
    commands: Mutex<Vec<NodeCreationCommand>>,
}

impl RecordingGenerator {
    fn take(&self) -> Vec<NodeCreationCommand> {
        self.commands.lock().unwrap().clone()
    }
}

impl ScaffoldGenerator for &RecordingGenerator {
    fn generate(&self, command: NodeCreationCommand) -> Result<ScaffoldGeneration, GenerationError> {
        self.commands.lock().unwrap().push(command);
        Ok(ScaffoldGeneration::new("ok"))
    }
}

#[test]
fn defaults_model_timestamps_to_true() {
    let generator = RecordingGenerator::default();
    let service = GraphMutationService::new("demo", &generator);
    let request = NodeCreationRequest::Model {
        name: "post".into(),
        with_timestamps: None,
        fields: vec![FieldDefinition::new("title", "string")],
    };

    service.create_node(request).expect("model generation succeeds");

    let recorded = generator.take();
    assert_eq!(recorded.len(), 1);
    assert!(matches!(
        &recorded[0].component,
        NodeComponent::Model {
            name,
            with_timestamps,
            fields,
        } if name == "post" && *with_timestamps && fields == &vec![FieldDefinition::new("title", "string")]
    ));
}

#[test]
fn propagates_app_name_to_command() {
    let generator = RecordingGenerator::default();
    let service = GraphMutationService::new("my-app", &generator);
    let request = NodeCreationRequest::Task { name: "cleanup".into() };

    service.create_node(request).expect("task generation succeeds");

    let recorded = generator.take();
    assert_eq!(recorded.len(), 1);
    assert_eq!(recorded[0].app_name, "my-app");
    assert!(matches!(recorded[0].component, NodeComponent::Task { .. }));
}

#[test]
fn explicit_timestamps_are_kept() {
    let component = NodeCreationRequest::Scaffold {
        name: "post".into(),
        with_timestamps: Some(false),
        fields: vec![],
        interface: NodePresentation::Api,
    }
    .into_component();
    assert_eq!(
        component,
        NodeComponent::Scaffold {
            name: "post".into(),
            with_timestamps: false,
            fields: vec![],
            interface: NodePresentation::Api,
        }
    );
    assert_eq!(NodeCreationRequest::Scheduler {}.into_component(), NodeComponent::Scheduler);
}

#[test]
fn field_definition_pairs() {
    let field = FieldDefinition::new("title", "string");
    assert_eq!(field.as_pair(), ("title".to_string(), "string".to_string()));
    assert_eq!(field.into_pair(), ("title".to_string(), "string".to_string()));
}
