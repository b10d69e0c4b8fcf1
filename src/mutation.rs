//! Requests to add a component to the application, normalised into commands
//! for a scaffold generator.
use vstd::prelude::*;

verus! {

/// A field of a model or scaffold: its name and data type.
#[derive(Clone, Debug, PartialEq, Eq)]
pub struct FieldDefinition {
    pub name: String,
    pub data_type: String,
}

impl FieldDefinition {
    pub fn new(name: &str, data_type: &str) -> (r: FieldDefinition)
        ensures
            r.name@ == name@,
            r.data_type@ == data_type@,
    {
        FieldDefinition { name: name.to_owned(), data_type: data_type.to_owned() }
    }

    pub fn into_pair(self) -> (r: (String, String))
        ensures
            r.0 == self.name,
            r.1 == self.data_type,
    {
        (self.name, self.data_type)
    }

    pub fn as_pair(&self) -> (r: (String, String))
        ensures
            r.0@ == self.name@,
            r.1@ == self.data_type@,
    {
        (self.name.clone(), self.data_type.clone())
    }
}

/// How a generated scaffold is presented.
#[derive(Clone, Copy, Debug, PartialEq, Eq)]
pub enum NodePresentation {
    Htmx,
    Html,
    Api,
}

/// A request for a new component; timestamps default to on where unset.
#[derive(Clone, Debug, PartialEq, Eq)]
pub enum NodeCreationRequest {
    Model { name: String, with_timestamps: Option<bool>, fields: Vec<FieldDefinition> },
    Migration { name: String, with_timestamps: Option<bool>, fields: Vec<FieldDefinition> },
    Scaffold {
        name: String,
        with_timestamps: Option<bool>,
        fields: Vec<FieldDefinition>,
        interface: NodePresentation,
    },
    Controller { name: String, actions: Vec<String>, interface: NodePresentation },
    Task { name: String },
    Scheduler {},
    Worker { name: String },
    Mailer { name: String },
    Data { name: String },
}

/// A component with every choice made.
#[derive(Clone, Debug, PartialEq, Eq)]
pub enum NodeComponent {
    Model { name: String, with_timestamps: bool, fields: Vec<FieldDefinition> },
    Migration { name: String, with_timestamps: bool, fields: Vec<FieldDefinition> },
    Scaffold {
        name: String,
        with_timestamps: bool,
        fields: Vec<FieldDefinition>,
        interface: NodePresentation,
    },
    Controller { name: String, actions: Vec<String>, interface: NodePresentation },
    Task { name: String },
    Scheduler,
    Worker { name: String },
    Mailer { name: String },
    Data { name: String },
}

/// Timestamps are on unless the request turns them off.
pub open spec fn timestamps(choice: Option<bool>) -> bool {
    match choice {
        Some(b) => b,
        None => true,
    }
}

/// The component that a request asks for.
pub open spec fn component_of(request: NodeCreationRequest) -> NodeComponent {
    match request {
        NodeCreationRequest::Model { name, with_timestamps, fields } => NodeComponent::Model {
            name,
            with_timestamps: timestamps(with_timestamps),
            fields,
        },
        NodeCreationRequest::Migration { name, with_timestamps, fields } => NodeComponent::Migration {
            name,
            with_timestamps: timestamps(with_timestamps),
            fields,
        },
        NodeCreationRequest::Scaffold { name, with_timestamps, fields, interface } =>
            NodeComponent::Scaffold {
            name,
            with_timestamps: timestamps(with_timestamps),
            fields,
            interface,
        },
        NodeCreationRequest::Controller { name, actions, interface } => NodeComponent::Controller {
            name,
            actions,
            interface,
        },
        NodeCreationRequest::Task { name } => NodeComponent::Task { name },
        NodeCreationRequest::Scheduler {  } => NodeComponent::Scheduler,
        NodeCreationRequest::Worker { name } => NodeComponent::Worker { name },
        NodeCreationRequest::Mailer { name } => NodeComponent::Mailer { name },
        NodeCreationRequest::Data { name } => NodeComponent::Data { name },
    }
}

fn timestamps_or_default(choice: Option<bool>) -> (r: bool)
    ensures
        r == timestamps(choice),
{
    match choice {
        Some(b) => b,
        None => true,
    }
}

impl NodeCreationRequest {
    /// The component that the request asks for.
    pub fn into_component(self) -> (r: NodeComponent)
        ensures
            r == component_of(self),
    {
        match self {
            NodeCreationRequest::Model { name, with_timestamps, fields } => NodeComponent::Model {
                name,
                with_timestamps: timestamps_or_default(with_timestamps),
                fields,
            },
            NodeCreationRequest::Migration { name, with_timestamps, fields } =>
                NodeComponent::Migration {
                name,
                with_timestamps: timestamps_or_default(with_timestamps),
                fields,
            },
            NodeCreationRequest::Scaffold { name, with_timestamps, fields, interface } =>
                NodeComponent::Scaffold {
                name,
                with_timestamps: timestamps_or_default(with_timestamps),
                fields,
                interface,
            },
            NodeCreationRequest::Controller { name, actions, interface } =>
                NodeComponent::Controller { name, actions, interface },
            NodeCreationRequest::Task { name } => NodeComponent::Task { name },
            NodeCreationRequest::Scheduler {  } => NodeComponent::Scheduler,
            NodeCreationRequest::Worker { name } => NodeComponent::Worker { name },
            NodeCreationRequest::Mailer { name } => NodeComponent::Mailer { name },
            NodeCreationRequest::Data { name } => NodeComponent::Data { name },
        }
    }
}

/// What a generator is asked to produce, for which application.
#[derive(Clone, Debug, PartialEq, Eq)]
pub struct NodeCreationCommand {
    pub app_name: String,
    pub component: NodeComponent,
}

/// What a generator reports back.
#[derive(Clone, Debug, PartialEq, Eq)]
pub struct ScaffoldGeneration {
    pub message: String,
}

impl ScaffoldGeneration {
    pub fn new(message: &str) -> (r: ScaffoldGeneration)
        ensures
            r.message@ == message@,
    {
        ScaffoldGeneration { message: message.to_owned() }
    }
}

/// Why a generator failed.
#[derive(Clone, Debug, PartialEq, Eq)]
pub enum GenerationError {
    Message(String),
}

/// Produces the code of a component.
pub trait ScaffoldGenerator {
    fn generate(&self, command: NodeCreationCommand) -> Result<ScaffoldGeneration, GenerationError>;
}

/// Turns requests into generator commands for one application.
pub struct GraphMutationService<G: ScaffoldGenerator> {
    app_name: String,
    generator: G,
}

impl<G: ScaffoldGenerator> GraphMutationService<G> {
    pub closed spec fn app_name_view(&self) -> Seq<char> {
        self.app_name@
    }

    pub fn new(app_name: &str, generator: G) -> (r: GraphMutationService<G>)
        ensures
            r.app_name_view() == app_name@,
    {
        GraphMutationService { app_name: app_name.to_owned(), generator }
    }

    /// The command that `create_node` hands to the generator.
    pub fn command_for(&self, request: NodeCreationRequest) -> (r: NodeCreationCommand)
        ensures
            r.app_name@ == self.app_name_view(),
            r.component == component_of(request),
    {
        NodeCreationCommand { app_name: self.app_name.clone(), component: request.into_component() }
    }

    /// Hands the generator the command for `request`.
    pub fn create_node(&self, request: NodeCreationRequest) -> Result<ScaffoldGeneration, GenerationError> {
        let command = self.command_for(request);
        self.generator.generate(command)
    }
}

} // verus!
