//! Settings that select the storage and reasoning back ends and gate the queries.
use vstd::prelude::*;

verus! {

/// Storage back ends of the ontology store.
#[derive(Clone, Copy, Debug, PartialEq, Eq)]
pub enum OntologyBackend {
    /// Ontologies held in memory for the life of the process.
    InMemory,
}

/// What a configured seed path was found to be when it was examined.
#[derive(Clone, Debug, PartialEq, Eq)]
pub enum SeedPathKind {
    File,
    Directory,
    /// It exists but is neither a file nor a directory.
    Other,
    /// It could not be examined; the text says why.
    Inaccessible(String),
}

/// A configured seed path and what it was found to be.
#[derive(Clone, Debug, PartialEq, Eq)]
pub struct SeedPath {
    pub path: String,
    pub kind: SeedPathKind,
}

/// Settings of the ontology store.
#[derive(Clone, Debug, PartialEq, Eq)]
pub struct OntologySettings {
    pub backend: OntologyBackend,
    pub seeds: Vec<SeedPath>,
}

/// Reasoning back ends.
#[derive(Clone, Copy, Debug, PartialEq, Eq)]
pub enum ReasonerBackend {
    /// The reasoner that works on the in-memory store.
    Native,
}

/// Switches that gate the reasoning queries.
#[derive(Clone, Copy, Debug, PartialEq, Eq)]
pub struct InferenceSettings {
    /// Gates `ancestors_of` and `descendants_of`.
    pub class_hierarchy: bool,
    /// Gates `related_individuals`.
    pub property_assertions: bool,
    /// Gates `shortest_path`.
    pub property_paths: bool,
}

/// Settings of the reasoner.
#[derive(Clone, Copy, Debug, PartialEq, Eq)]
pub struct ReasonerSettings {
    pub backend: ReasonerBackend,
    pub inference: InferenceSettings,
}

} // verus!
