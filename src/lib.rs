//! An in-memory ontology store: classes, properties and individuals held in an
//! aggregate that checks its references, with structural reasoning queries over it
//! (ancestors, direct descendants, related individuals, shortest paths).
//!
//! Around it: reasoning plans handed to a knowledge assistant, the application
//! graph and its introspection assistant, and the `cargo loco` commands offered
//! for automation with the parsing of their listings.
pub mod assistant;
pub mod cli;
pub mod config;
pub mod console;
pub mod entities;
pub mod graph;
pub mod iri;
pub mod keyed;
pub mod knowledge;
pub mod mutation;
pub mod reasoner;
pub mod reasoning;
pub mod repositories;
pub mod service;
pub mod store;

pub use config::{
    InferenceSettings, OntologyBackend, OntologySettings, ReasonerBackend, ReasonerSettings,
    SeedPath, SeedPathKind,
};
pub use entities::{Class, Individual, Ontology, OntologyError, Property, PropertyAssertion, PropertyKind};
pub use iri::{Iri, IriError};
pub use reasoner::InMemoryReasoner;
pub use repositories::{OntologyRepository, OntologySnapshot, OntologySummary, ReasoningQuery};
pub use service::OntologyService;
pub use store::{OntologyServiceError, OntologyStore};
