use ontology_core::reasoner::targets_of;
use ontology_core::{
    Class, InMemoryReasoner, InferenceSettings, Individual, Iri, IriError, Ontology,
    OntologyBackend, OntologyError, OntologyRepository, OntologyService, OntologyServiceError,
    OntologySettings, OntologyStore, Property, PropertyAssertion, PropertyKind, ReasonerBackend,
    ReasonerSettings, ReasoningQuery, SeedPath, SeedPathKind,
};

fn iri(text: &str) -> Iri {
    Iri::new(text).expect("valid iri")
}

fn settings(class_hierarchy: bool, property_assertions: bool, property_paths: bool) -> ReasonerSettings {
    ReasonerSettings {
        backend: ReasonerBackend::Native,
        inference: InferenceSettings { class_hierarchy, property_assertions, property_paths },
    }
}

/// Base <- Derived <- Specialized; link: alice -> bob; carol unconnected.
fn sample_ontology() -> Ontology {
    let mut ontology = Ontology::new(iri("https://example.org/onto"));
    let base = Class::new(iri("https://example.org/Base"));
    let mut derived = Class::new(iri("https://example.org/Derived"));
    derived.add_parent(base.id().clone());
    let mut specialized = Class::new(iri("https://example.org/Specialized"));
    specialized.add_parent(derived.id().clone());
    ontology.add_class(base.clone()).expect("base");
    ontology.add_class(derived.clone()).expect("derived");
    ontology.add_class(specialized.clone()).expect("specialized");

    let mut link = Property::new(iri("https://example.org/link"), PropertyKind::Object);
    link.add_domain(base.id().clone());
    link.add_range(base.id().clone());
    ontology.add_property(link).expect("link");

    let mut alice = Individual::new(iri("https://example.org/alice"));
    alice.assert_type(base.id().clone());
    alice.add_property_assertion(
        iri("https://example.org/link"),
        PropertyAssertion::Individual(iri("https://example.org/bob")),
    );
    ontology.add_individual(alice).expect("alice");

    let mut bob = Individual::new(iri("https://example.org/bob"));
    bob.assert_type(base.id().clone());
    ontology.add_individual(bob).expect("bob");

    let mut carol = Individual::new(iri("https://example.org/carol"));
    carol.assert_type(base.id().clone());
    ontology.add_individual(carol).expect("carol");
    ontology
}

fn sample_store() -> OntologyStore {
    let mut store = OntologyStore::new();
    store.insert(sample_ontology()).expect("insert");
    store
}

#[test]
fn accepts_valid_iri() {
    let iri = Iri::new("https://example.org/resource").expect("valid IRI");
    assert_eq!(iri.as_str(), "https://example.org/resource");
}

#[test]
fn rejects_invalid_iri() {
    let err = Iri::new("not an iri").expect_err("invalid IRI");
    assert!(matches!(err, IriError::Invalid { value } if value == "not an iri"));
}

#[test]
fn iri_order_is_lexical() {
    let a = iri("https://example.org/A");
    let b = iri("https://example.org/B");
    let ab = iri("https://example.org/AB");
    assert!(a.precedes(&b));
    assert!(!b.precedes(&a));
    assert!(a.precedes(&ab));
    assert!(ab.precedes(&b));
    assert!(!a.precedes(&a));
    assert!(a.same(&iri("https://example.org/A")));
    assert!(!a.same(&b));
}

#[test]
fn iri_parses_from_str() {
    let parsed: Iri = "urn:isbn:0451450523".parse().expect("valid");
    assert_eq!(parsed.as_str(), "urn:isbn:0451450523");
    assert!("no scheme here".parse::<Iri>().is_err());
}

#[test]
fn relative_reference_is_rejected() {
    assert!(Iri::new("/relative/path").is_err());
    assert!(Iri::new("").is_err());
}

#[test]
fn class_parents_are_tracked() {
    let mut class = Class::new(iri("https://example.org/Class"))
        .with_label("Example")
        .with_comment("Demo");
    assert_eq!(class.label(), Some("Example"));
    assert_eq!(class.comment(), Some("Demo"));
    assert!(class.add_parent(iri("https://example.org/Base")));
    assert!(class.parents().contains(&iri("https://example.org/Base")));
    assert!(class.remove_parent(&iri("https://example.org/Base")));
    assert!(class.parents().is_empty());
}

#[test]
fn parents_are_kept_in_order_without_repeats() {
    let mut class = Class::new(iri("https://example.org/Class"));
    assert!(class.add_parent(iri("https://example.org/Zeta")));
    assert!(class.add_parent(iri("https://example.org/Alpha")));
    assert!(!class.add_parent(iri("https://example.org/Zeta")));
    assert!(!class.remove_parent(&iri("https://example.org/Missing")));
    assert_eq!(
        class.parents(),
        &vec![iri("https://example.org/Alpha"), iri("https://example.org/Zeta")]
    );
}

#[test]
fn property_definitions_require_known_classes() {
    let mut ontology = Ontology::new(iri("https://example.org/onto"));
    let class = Class::new(iri("https://example.org/Class"));
    ontology.add_class(class).expect("class inserted");

    let mut property = Property::new(iri("https://example.org/prop"), PropertyKind::Object);
    property.add_domain(iri("https://example.org/Class"));
    property.add_range(iri("https://example.org/Class"));
    ontology
        .add_property(property.clone())
        .expect("property inserted");
    let stored = ontology.property(property.id()).expect("stored");
    assert_eq!(stored.id(), property.id());
    assert_eq!(stored.kind(), PropertyKind::Object);
    assert_eq!(stored.domains(), property.domains());
    assert_eq!(stored.ranges(), property.ranges());
}

#[test]
fn property_insertion_rejects_unknown_classes() {
    let mut ontology = Ontology::new(iri("https://example.org/onto"));
    let mut property = Property::new(iri("https://example.org/prop"), PropertyKind::Object);
    property.add_domain(iri("https://example.org/Class"));
    let err = ontology.add_property(property).expect_err("missing class");
    assert!(matches!(err, OntologyError::MissingClass { .. }));
}

#[test]
fn unknown_range_class_is_reported_and_nothing_added() {
    let mut ontology = Ontology::new(iri("https://example.org/onto"));
    ontology.add_class(Class::new(iri("https://example.org/Class"))).expect("class");
    let mut property = Property::new(iri("https://example.org/prop"), PropertyKind::Data);
    property.add_domain(iri("https://example.org/Class"));
    property.add_range(iri("https://example.org/Unknown"));
    let err = ontology.add_property(property).expect_err("missing range");
    assert_eq!(
        err,
        OntologyError::MissingClass {
            ontology: iri("https://example.org/onto"),
            class: iri("https://example.org/Unknown"),
        }
    );
    assert!(ontology.properties().is_empty());
    assert!(ontology.property(&iri("https://example.org/prop")).is_none());
}

#[test]
fn individual_insertion_checks_references() {
    let mut ontology = Ontology::new(iri("https://example.org/onto"));
    let class = Class::new(iri("https://example.org/Class"));
    ontology.add_class(class).expect("class inserted");
    let mut property = Property::new(iri("https://example.org/prop"), PropertyKind::Object);
    property.add_domain(iri("https://example.org/Class"));
    property.add_range(iri("https://example.org/Class"));
    ontology.add_property(property).expect("property inserted");

    let mut individual = Individual::new(iri("https://example.org/alice"));
    individual.assert_type(iri("https://example.org/Class"));
    individual.add_property_assertion(
        iri("https://example.org/prop"),
        PropertyAssertion::Individual(iri("https://example.org/bob")),
    );

    ontology
        .add_individual(individual)
        .expect("individual inserted");
}

#[test]
fn individual_insertion_rejects_mismatched_property_kind() {
    let mut ontology = Ontology::new(iri("https://example.org/onto"));
    let class = Class::new(iri("https://example.org/Class"));
    ontology.add_class(class).expect("class inserted");
    let mut property = Property::new(iri("https://example.org/prop"), PropertyKind::Data);
    property.add_domain(iri("https://example.org/Class"));
    ontology.add_property(property).expect("property inserted");

    let mut individual = Individual::new(iri("https://example.org/alice"));
    individual.assert_type(iri("https://example.org/Class"));
    individual.add_property_assertion(
        iri("https://example.org/prop"),
        PropertyAssertion::Individual(iri("https://example.org/bob")),
    );

    let err = ontology
        .add_individual(individual)
        .expect_err("mismatched property kind");
    assert!(matches!(err, OntologyError::InvalidPropertyAssertion { .. }));
    assert!(ontology.individuals().is_empty());
}

#[test]
fn duplicate_class_is_rejected_and_existing_kept() {
    let mut ontology = Ontology::new(iri("https://example.org/onto"));
    ontology
        .add_class(Class::new(iri("https://example.org/Class")).with_label("first"))
        .expect("class");
    let err = ontology
        .add_class(Class::new(iri("https://example.org/Class")).with_label("second"))
        .expect_err("duplicate");
    assert_eq!(err, OntologyError::DuplicateClass(iri("https://example.org/Class")));
    assert_eq!(ontology.classes().len(), 1);
    let kept = ontology.class(&iri("https://example.org/Class")).expect("kept");
    assert_eq!(kept.label(), Some("first"));
}

#[test]
fn duplicate_property_and_individual_are_rejected() {
    let mut ontology = sample_ontology();
    let again = Property::new(iri("https://example.org/link"), PropertyKind::Data);
    assert_eq!(
        ontology.add_property(again).expect_err("duplicate"),
        OntologyError::DuplicateProperty(iri("https://example.org/link"))
    );
    let bob = Individual::new(iri("https://example.org/bob"));
    assert_eq!(
        ontology.add_individual(bob).expect_err("duplicate"),
        OntologyError::DuplicateIndividual(iri("https://example.org/bob"))
    );
}

#[test]
fn individual_errors_name_the_missing_reference() {
    let mut ontology = sample_ontology();
    let mut dave = Individual::new(iri("https://example.org/dave"));
    dave.assert_type(iri("https://example.org/Unknown"));
    assert_eq!(
        ontology.add_individual(dave).expect_err("missing type"),
        OntologyError::MissingClass {
            ontology: iri("https://example.org/onto"),
            class: iri("https://example.org/Unknown"),
        }
    );
    let mut erin = Individual::new(iri("https://example.org/erin"));
    erin.add_property_assertion(
        iri("https://example.org/nope"),
        PropertyAssertion::Literal("x".to_string()),
    );
    assert_eq!(
        ontology.add_individual(erin).expect_err("missing property"),
        OntologyError::MissingProperty {
            ontology: iri("https://example.org/onto"),
            property: iri("https://example.org/nope"),
        }
    );
    assert_eq!(ontology.individuals().len(), 3);
}

#[test]
fn collections_are_in_identifier_order() {
    let ontology = sample_ontology();
    let ids: Vec<&str> = ontology.classes().iter().map(|c| c.id().as_str()).collect();
    assert_eq!(
        ids,
        vec!["https://example.org/Base", "https://example.org/Derived", "https://example.org/Specialized"]
    );
    let people: Vec<&str> = ontology.individuals().iter().map(|i| i.id().as_str()).collect();
    assert_eq!(
        people,
        vec!["https://example.org/alice", "https://example.org/bob", "https://example.org/carol"]
    );
}

#[test]
fn assertions_accumulate_under_their_property() {
    let mut individual = Individual::new(iri("https://example.org/alice"));
    individual.add_property_assertion(iri("https://example.org/p"), PropertyAssertion::Literal("a".to_string()));
    individual.add_property_assertion(iri("https://example.org/p"), PropertyAssertion::Literal("b".to_string()));
    individual.add_property_assertion(iri("https://example.org/o"), PropertyAssertion::Literal("c".to_string()));
    assert_eq!(individual.properties().len(), 2);
    assert_eq!(individual.properties()[0].0, iri("https://example.org/o"));
    assert_eq!(
        individual.assertions_for(&iri("https://example.org/p")),
        Some(&vec![
            PropertyAssertion::Literal("a".to_string()),
            PropertyAssertion::Literal("b".to_string())
        ])
    );
    assert!(individual.assertions_for(&iri("https://example.org/q")).is_none());
}

#[test]
fn repository_crud_roundtrip() {
    let mut repo = OntologyStore::new();
    let mut ontology = Ontology::new(iri("https://example.org/onto"));
    repo.insert(ontology.clone()).expect("insert");

    ontology = ontology.with_label("Example");
    repo.update(ontology.clone()).expect("update");

    let fetched = repo.get(ontology.id()).expect("get").expect("ontology exists");
    assert_eq!(fetched.ontology.label(), Some("Example"));

    let summaries = repo.list().expect("list");
    assert_eq!(summaries.len(), 1);
    assert_eq!(summaries[0].label.as_deref(), Some("Example"));

    repo.delete(ontology.id()).expect("delete");
    assert!(repo.get(ontology.id()).expect("get").is_none());
}

#[test]
fn repository_rejects_duplicates_and_missing() {
    let mut repo = OntologyStore::new();
    let ontology = Ontology::new(iri("https://example.org/onto"));
    repo.insert(ontology.clone()).expect("insert");
    assert!(matches!(
        repo.insert(ontology.clone()),
        Err(OntologyServiceError::Duplicate { .. })
    ));
    let other = Ontology::new(iri("https://example.org/other"));
    assert!(matches!(repo.update(other), Err(OntologyServiceError::Missing { .. })));
    assert!(matches!(
        repo.delete(&iri("https://example.org/other")),
        Err(OntologyServiceError::Missing { .. })
    ));
    assert!(matches!(
        repo.attach_class(&iri("https://example.org/other"), Class::new(iri("https://example.org/C"))),
        Err(OntologyServiceError::Missing { .. })
    ));
}

#[test]
fn list_summarises_in_identifier_order() {
    let mut repo = sample_store();
    repo.insert(Ontology::new(iri("https://example.org/a-first"))).expect("insert");
    let summaries = repo.list().expect("list");
    assert_eq!(summaries.len(), 2);
    assert_eq!(summaries[0].iri, iri("https://example.org/a-first"));
    assert_eq!(summaries[1].class_count, 3);
    assert_eq!(summaries[1].property_count, 1);
    assert_eq!(summaries[1].individual_count, 3);
}

#[test]
fn repository_maintains_domain_invariants() {
    let mut repo = OntologyStore::new();
    let ontology = Ontology::new(iri("https://example.org/onto"));
    repo.insert(ontology.clone()).expect("insert");

    let class = Class::new(iri("https://example.org/Class"));
    repo.attach_class(ontology.id(), class).expect("class");

    let mut property = Property::new(iri("https://example.org/prop"), PropertyKind::Object);
    property.add_domain(iri("https://example.org/Class"));
    property.add_range(iri("https://example.org/Class"));
    repo.attach_property(ontology.id(), property).expect("property");

    let mut individual = Individual::new(iri("https://example.org/alice"));
    individual.assert_type(iri("https://example.org/Class"));
    individual.add_property_assertion(
        iri("https://example.org/prop"),
        PropertyAssertion::Individual(iri("https://example.org/bob")),
    );
    repo.attach_individual(ontology.id(), individual).expect("individual");

    let updated = repo.get(ontology.id()).expect("get").expect("exists");
    assert_eq!(updated.ontology.individuals().len(), 1);
}

#[test]
fn failed_attach_leaves_ontology_unchanged() {
    let mut repo = sample_store();
    let onto = iri("https://example.org/onto");
    let mut property = Property::new(iri("https://example.org/p2"), PropertyKind::Object);
    property.add_domain(iri("https://example.org/Nowhere"));
    let err = repo.attach_property(&onto, property).expect_err("missing class");
    assert!(matches!(err, OntologyServiceError::Domain(OntologyError::MissingClass { .. })));
    let stored = repo.get(&onto).expect("get").expect("exists");
    assert_eq!(stored.ontology.properties().len(), 1);
}

#[test]
fn attached_property_is_visible_to_get() {
    let mut repo = sample_store();
    let onto = iri("https://example.org/onto");
    let mut property = Property::new(iri("https://example.org/name"), PropertyKind::Data);
    property.add_domain(iri("https://example.org/Base"));
    repo.attach_property(&onto, property).expect("attach");
    let stored = repo.get(&onto).expect("get").expect("exists");
    let found = stored.ontology.property(&iri("https://example.org/name")).expect("visible");
    assert_eq!(found.kind(), PropertyKind::Data);
}

#[test]
fn reasoning_operations_traverse_graphs() {
    let repo = sample_store();
    let reasoner = InMemoryReasoner::new(&repo, settings(true, true, true));
    let onto = iri("https://example.org/onto");

    let invalid_ontology = iri("https://example.org/invalid");
    let ancestors = reasoner.ancestors_of(&invalid_ontology, &iri("https://example.org/Derived"));
    assert!(ancestors.is_err(), "invalid ontology iri should error");

    let ancestors = reasoner
        .ancestors_of(&onto, &iri("https://example.org/Derived"))
        .expect("ancestors");
    assert_eq!(ancestors, vec![iri("https://example.org/Base")]);

    let ancestors = reasoner
        .ancestors_of(&onto, &iri("https://example.org/Specialized"))
        .expect("ancestors");
    assert_eq!(ancestors, vec![iri("https://example.org/Base"), iri("https://example.org/Derived")]);

    let descendants = reasoner
        .descendants_of(&onto, &iri("https://example.org/Base"))
        .expect("descendants");
    assert_eq!(descendants, vec![iri("https://example.org/Derived")]);

    let related = reasoner
        .related_individuals(&onto, &iri("https://example.org/link"), &iri("https://example.org/alice"))
        .expect("related");
    assert_eq!(related, vec![iri("https://example.org/bob")]);

    let path = reasoner
        .shortest_path(&onto, &iri("https://example.org/alice"), &iri("https://example.org/bob"))
        .expect("path");
    assert_eq!(path, Some(vec![iri("https://example.org/alice"), iri("https://example.org/bob")]));
}

#[test]
fn unconnected_individuals_have_no_path() {
    let repo = sample_store();
    let reasoner = InMemoryReasoner::new(&repo, settings(true, true, true));
    let onto = iri("https://example.org/onto");
    let path = reasoner
        .shortest_path(&onto, &iri("https://example.org/alice"), &iri("https://example.org/carol"))
        .expect("path");
    assert_eq!(path, None);
    let same = reasoner
        .shortest_path(&onto, &iri("https://example.org/carol"), &iri("https://example.org/carol"))
        .expect("path");
    assert_eq!(same, Some(vec![iri("https://example.org/carol")]));
    assert!(matches!(
        reasoner.shortest_path(&onto, &iri("https://example.org/alice"), &iri("https://example.org/zed")),
        Err(OntologyServiceError::MissingIndividual { .. })
    ));
}

#[test]
fn shortest_path_takes_fewest_hops() {
    let mut ontology = Ontology::new(iri("https://example.org/onto"));
    ontology.add_class(Class::new(iri("https://example.org/T"))).expect("class");
    ontology
        .add_property(Property::new(iri("https://example.org/next"), PropertyKind::Object))
        .expect("property");
    let edges = [("a", vec!["b", "d"]), ("b", vec!["c"]), ("c", vec!["d"]), ("d", vec![])];
    for (from, tos) in edges.iter() {
        let mut ind = Individual::new(iri(&format!("https://example.org/{from}")));
        for to in tos {
            ind.add_property_assertion(
                iri("https://example.org/next"),
                PropertyAssertion::Individual(iri(&format!("https://example.org/{to}"))),
            );
        }
        ontology.add_individual(ind).expect("individual");
    }
    let mut repo = OntologyStore::new();
    repo.insert(ontology).expect("insert");
    let reasoner = InMemoryReasoner::new(&repo, settings(true, true, true));
    let path = reasoner
        .shortest_path(&iri("https://example.org/onto"), &iri("https://example.org/a"), &iri("https://example.org/d"))
        .expect("path");
    assert_eq!(path, Some(vec![iri("https://example.org/a"), iri("https://example.org/d")]));
}

#[test]
fn literal_assertions_are_not_related() {
    let mut ontology = sample_ontology();
    let mut dave = Individual::new(iri("https://example.org/dave"));
    dave.add_property_assertion(iri("https://example.org/link"), PropertyAssertion::Individual(iri("https://example.org/bob")));
    ontology.add_individual(dave).expect("dave");
    let mut repo = OntologyStore::new();
    repo.insert(ontology).expect("insert");
    let reasoner = InMemoryReasoner::new(&repo, settings(true, true, true));
    let onto = iri("https://example.org/onto");
    let related = reasoner
        .related_individuals(&onto, &iri("https://example.org/link"), &iri("https://example.org/bob"))
        .expect("related");
    assert!(related.is_empty());
    let related = reasoner
        .related_individuals(&onto, &iri("https://example.org/link"), &iri("https://example.org/dave"))
        .expect("related");
    assert_eq!(related, vec![iri("https://example.org/bob")]);
}

#[test]
fn literal_values_are_not_targets() {
    let values = vec![
        PropertyAssertion::Literal("bob".to_string()),
        PropertyAssertion::Individual(iri("https://example.org/bob")),
        PropertyAssertion::Literal("x".to_string()),
        PropertyAssertion::Individual(iri("https://example.org/carol")),
    ];
    assert_eq!(
        targets_of(&values),
        vec![iri("https://example.org/bob"), iri("https://example.org/carol")]
    );
    assert!(targets_of(&vec![PropertyAssertion::Literal("only".to_string())]).is_empty());
}

#[test]
fn data_property_is_not_a_relation() {
    let mut ontology = sample_ontology();
    let mut name = Property::new(iri("https://example.org/name"), PropertyKind::Data);
    name.add_domain(iri("https://example.org/Base"));
    ontology.add_property(name).expect("name");
    let mut repo = OntologyStore::new();
    repo.insert(ontology).expect("insert");
    let reasoner = InMemoryReasoner::new(&repo, settings(true, true, true));
    let onto = iri("https://example.org/onto");
    assert!(matches!(
        reasoner.related_individuals(&onto, &iri("https://example.org/name"), &iri("https://example.org/alice")),
        Err(OntologyServiceError::Domain(OntologyError::InvalidPropertyAssertion { .. }))
    ));
    assert!(matches!(
        reasoner.related_individuals(&onto, &iri("https://example.org/none"), &iri("https://example.org/alice")),
        Err(OntologyServiceError::MissingProperty { .. })
    ));
}

#[test]
fn cyclic_hierarchy_terminates() {
    let mut ontology = Ontology::new(iri("https://example.org/onto"));
    let mut a = Class::new(iri("https://example.org/A"));
    a.add_parent(iri("https://example.org/B"));
    let mut b = Class::new(iri("https://example.org/B"));
    b.add_parent(iri("https://example.org/A"));
    b.add_parent(iri("https://example.org/External"));
    ontology.add_class(a).expect("a");
    ontology.add_class(b).expect("b");
    let mut repo = OntologyStore::new();
    repo.insert(ontology).expect("insert");
    let reasoner = InMemoryReasoner::new(&repo, settings(true, true, true));
    let ancestors = reasoner
        .ancestors_of(&iri("https://example.org/onto"), &iri("https://example.org/A"))
        .expect("ancestors");
    assert_eq!(
        ancestors,
        vec![iri("https://example.org/A"), iri("https://example.org/B"), iri("https://example.org/External")]
    );
    assert!(matches!(
        reasoner.ancestors_of(&iri("https://example.org/onto"), &iri("https://example.org/Z")),
        Err(OntologyServiceError::MissingClass { .. })
    ));
}

#[test]
fn switched_off_queries_answer_empty() {
    let repo = sample_store();
    let reasoner = InMemoryReasoner::new(&repo, settings(false, false, false));
    let onto = iri("https://example.org/onto");
    assert_eq!(reasoner.ancestors_of(&onto, &iri("https://example.org/Specialized")).expect("ok"), vec![]);
    assert_eq!(reasoner.descendants_of(&onto, &iri("https://example.org/Base")).expect("ok"), vec![]);
    assert_eq!(
        reasoner
            .related_individuals(&onto, &iri("https://example.org/link"), &iri("https://example.org/alice"))
            .expect("ok"),
        vec![]
    );
    assert_eq!(
        reasoner
            .shortest_path(&onto, &iri("https://example.org/alice"), &iri("https://example.org/bob"))
            .expect("ok"),
        None
    );
}

#[test]
fn context_exposes_reasoner_from_config() {
    let ontology_settings = OntologySettings {
        backend: OntologyBackend::InMemory,
        seeds: vec![SeedPath { path: "/tmp/ontology.seed".to_string(), kind: SeedPathKind::File }],
    };
    let mut service = OntologyService::from_config(&ontology_settings, &settings(true, true, true))
        .expect("context creation");

    let ontology_id = Iri::new("https://example.org/ontology").expect("ontology iri");
    let base_class_id = Iri::new("https://example.org/Base").expect("base class");
    let derived_class_id = Iri::new("https://example.org/Derived").expect("derived class");
    let property_id = Iri::new("https://example.org/related").expect("related property");
    let alice_id = Iri::new("https://example.org/Alice").expect("alice");
    let bob_id = Iri::new("https://example.org/Bob").expect("bob");

    let mut ontology = Ontology::new(ontology_id.clone());
    let base_class = Class::new(base_class_id.clone());
    let mut derived_class = Class::new(derived_class_id.clone());
    derived_class.add_parent(base_class_id.clone());
    ontology.add_class(base_class).expect("base class");
    ontology.add_class(derived_class).expect("derived class");

    let mut property = Property::new(property_id.clone(), PropertyKind::Object);
    property.add_domain(base_class_id.clone());
    property.add_range(base_class_id.clone());
    ontology.add_property(property).expect("property");

    let mut alice = Individual::new(alice_id.clone());
    alice.assert_type(base_class_id.clone());
    alice.add_property_assertion(property_id.clone(), PropertyAssertion::Individual(bob_id.clone()));
    ontology.add_individual(alice).expect("alice individual");

    let mut bob = Individual::new(bob_id.clone());
    bob.assert_type(base_class_id.clone());
    ontology.add_individual(bob).expect("bob individual");

    service.repository().insert(ontology).expect("ontology inserted");
    let reasoner = service.reasoner();

    let ancestors = reasoner.ancestors_of(&ontology_id, &derived_class_id).expect("ancestors");
    assert_eq!(ancestors, vec![base_class_id.clone()]);

    let descendants = reasoner.descendants_of(&ontology_id, &base_class_id).expect("descendants");
    assert_eq!(descendants, vec![derived_class_id.clone()]);

    let related = reasoner
        .related_individuals(&ontology_id, &property_id, &alice_id)
        .expect("related individuals");
    assert_eq!(related, vec![bob_id.clone()]);

    let shortest = reasoner.shortest_path(&ontology_id, &alice_id, &bob_id).expect("shortest path");
    assert_eq!(shortest, Some(vec![alice_id.clone(), bob_id.clone()]));
}

#[test]
fn unusable_seed_is_reported() {
    let ontology_settings = OntologySettings {
        backend: OntologyBackend::InMemory,
        seeds: vec![
            SeedPath { path: "/tmp/ok".to_string(), kind: SeedPathKind::Directory },
            SeedPath { path: "/dev/null".to_string(), kind: SeedPathKind::Other },
            SeedPath { path: "/missing".to_string(), kind: SeedPathKind::Inaccessible("gone".to_string()) },
        ],
    };
    match OntologyService::from_config(&ontology_settings, &settings(true, true, true)) {
        Err(OntologyServiceError::SeedIo { path, .. }) => assert_eq!(path, "/dev/null"),
        _ => panic!("expected a seed error"),
    }
}
