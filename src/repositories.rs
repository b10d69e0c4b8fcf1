//! The two ports over stored ontologies: one to change them, one to query them.
use vstd::prelude::*;

use crate::config::InferenceSettings;
use crate::entities::{first_bad_entry, first_missing, id_set, Class, Individual, Ontology, OntologyView, Property};
use crate::iri::Iri;
use crate::keyed::Keyed;
use crate::reasoning::{connects, is_ancestor, is_child, is_walk, object_targets, sorted_ids, texts};

verus! {

/// A stored ontology handed out whole.
#[derive(Debug)]
pub struct OntologySnapshot {
    pub ontology: Ontology,
}

impl From<Ontology> for OntologySnapshot {
    fn from(ontology: Ontology) -> (r: OntologySnapshot) {
        OntologySnapshot { ontology }
    }
}

impl vstd::std_specs::convert::FromSpecImpl<Ontology> for OntologySnapshot {
    open spec fn obeys_from_spec() -> bool {
        true
    }

    open spec fn from_spec(ontology: Ontology) -> OntologySnapshot {
        OntologySnapshot { ontology }
    }
}

/// A stored ontology described by its identifier, label and counts.
#[derive(Clone, Debug, PartialEq, Eq)]
pub struct OntologySummary {
    pub iri: Iri,
    pub label: Option<String>,
    pub class_count: usize,
    pub property_count: usize,
    pub individual_count: usize,
}

impl Keyed for OntologySummary {
    open spec fn key(&self) -> Seq<char> {
        self.iri@
    }
}

impl OntologySummary {
    /// The summary describes `o`.
    pub open spec fn describes(&self, o: OntologyView) -> bool {
        &&& self.iri@ == o.id
        &&& crate::entities::opt_view(self.label) == o.label
        &&& self.class_count == o.classes.len()
        &&& self.property_count == o.properties.len()
        &&& self.individual_count == o.individuals.len()
    }

    /// Summarises an ontology.
    pub fn of(ontology: &Ontology) -> (r: OntologySummary)
        ensures
            r.describes(ontology@),
    {
        let label = match ontology.label() {
            Some(l) => Some(l.to_owned()),
            None => None,
        };
        OntologySummary {
            iri: ontology.id().clone(),
            label,
            class_count: ontology.classes().len(),
            property_count: ontology.properties().len(),
            individual_count: ontology.individuals().len(),
        }
    }
}

/// Changes to stored ontologies, each applied whole or not at all.
pub trait OntologyRepository {
    type Error;

    /// The stored ontologies by identifier.
    spec fn stored(&self) -> Map<Seq<char>, OntologyView>;

    spec fn inv(&self) -> bool;

    /// Stores a new ontology; fails where its identifier is taken.
    fn insert(&mut self, ontology: Ontology) -> (r: Result<(), Self::Error>)
        requires
            old(self).inv(),
            ontology.wf(),
        ensures
            final(self).inv(),
            r is Ok <==> !old(self).stored().contains_key(ontology@.id),
            r is Ok ==> final(self).stored() == old(self).stored().insert(ontology@.id, ontology@),
            r is Err ==> final(self).stored() == old(self).stored(),
    ;

    /// Replaces a stored ontology; fails where none has its identifier.
    fn update(&mut self, ontology: Ontology) -> (r: Result<(), Self::Error>)
        requires
            old(self).inv(),
            ontology.wf(),
        ensures
            final(self).inv(),
            r is Ok <==> old(self).stored().contains_key(ontology@.id),
            r is Ok ==> final(self).stored() == old(self).stored().insert(ontology@.id, ontology@),
            r is Err ==> final(self).stored() == old(self).stored(),
    ;

    /// The stored ontology with that identifier, `None` where there is none.
    fn get(&self, iri: &Iri) -> (r: Result<Option<OntologySnapshot>, Self::Error>)
        requires
            self.inv(),
        ensures
            r matches Ok(Some(s)) ==> self.stored().contains_key(iri@) && s.ontology@
                == self.stored()[iri@] && s.ontology.wf(),
            r matches Ok(None) ==> !self.stored().contains_key(iri@),
    ;

    /// Removes a stored ontology with all it holds; fails where there is none.
    fn delete(&mut self, iri: &Iri) -> (r: Result<(), Self::Error>)
        requires
            old(self).inv(),
        ensures
            final(self).inv(),
            r is Ok <==> old(self).stored().contains_key(iri@),
            final(self).stored() == old(self).stored().remove(iri@),
    ;

    /// One summary per stored ontology, in identifier order.
    fn list(&self) -> (r: Result<Vec<OntologySummary>, Self::Error>)
        requires
            self.inv(),
        ensures
            r matches Ok(v) ==> crate::keyed::sorted_keys(v@) && id_set(v@) == self.stored().dom()
                && forall|i: int|
                0 <= i < v.len() ==> (#[trigger] v@[i]).describes(self.stored()[v@[i].iri@]),
    ;

    /// Adds a class to a stored ontology, as `Ontology::add_class` does.
    fn attach_class(&mut self, ontology: &Iri, class: Class) -> (r: Result<(), Self::Error>)
        requires
            old(self).inv(),
            class.wf(),
        ensures
            final(self).inv(),
            r is Ok <==> (old(self).stored().contains_key(ontology@) && !old(
                self,
            ).stored()[ontology@].class_map().contains_key(class@.id)),
            r is Ok ==> final(self).stored() == old(self).stored().insert(
                ontology@,
                final(self).stored()[ontology@],
            ) && final(self).stored()[ontology@] == (OntologyView {
                classes: final(self).stored()[ontology@].classes,
                ..old(self).stored()[ontology@]
            }) && final(self).stored()[ontology@].class_map() == old(
                self,
            ).stored()[ontology@].class_map().insert(class@.id, class@),
            r is Err ==> final(self).stored() == old(self).stored(),
    ;

    /// Adds a property to a stored ontology, as `Ontology::add_property` does.
    fn attach_property(&mut self, ontology: &Iri, property: Property) -> (r: Result<
        (),
        Self::Error,
    >)
        requires
            old(self).inv(),
            property.wf(),
        ensures
            final(self).inv(),
            r is Ok <==> (old(self).stored().contains_key(ontology@) && !old(
                self,
            ).stored()[ontology@].property_map().contains_key(property@.id) && old(
                self,
            ).stored()[ontology@].missing_class_for(property@) is None),
            r is Ok ==> final(self).stored() == old(self).stored().insert(
                ontology@,
                final(self).stored()[ontology@],
            ) && final(self).stored()[ontology@] == (OntologyView {
                properties: final(self).stored()[ontology@].properties,
                ..old(self).stored()[ontology@]
            }) && final(self).stored()[ontology@].property_map() == old(
                self,
            ).stored()[ontology@].property_map().insert(property@.id, property@),
            r is Err ==> final(self).stored() == old(self).stored(),
    ;

    /// Adds an individual to a stored ontology, as `Ontology::add_individual` does.
    fn attach_individual(&mut self, ontology: &Iri, individual: Individual) -> (r: Result<
        (),
        Self::Error,
    >)
        requires
            old(self).inv(),
            individual.wf(),
        ensures
            final(self).inv(),
            r is Ok <==> (old(self).stored().contains_key(ontology@) && !old(
                self,
            ).stored()[ontology@].individual_map().contains_key(individual@.id) && first_missing(
                old(self).stored()[ontology@].class_map().dom(),
                individual@.types,
            ) is None && first_bad_entry(
                old(self).stored()[ontology@].property_map(),
                individual@.properties,
            ) is None),
            r is Ok ==> final(self).stored() == old(self).stored().insert(
                ontology@,
                final(self).stored()[ontology@],
            ) && final(self).stored()[ontology@] == (OntologyView {
                individuals: final(self).stored()[ontology@].individuals,
                ..old(self).stored()[ontology@]
            }) && final(self).stored()[ontology@].individual_map() == old(
                self,
            ).stored()[ontology@].individual_map().insert(individual@.id, individual@),
            r is Err ==> final(self).stored() == old(self).stored(),
    ;
}

/// Read-only traversals of a stored ontology. A query whose switch is off
/// answers with an empty result.
pub trait ReasoningQuery {
    type Error;

    /// The ontologies that the queries read, by identifier.
    spec fn snapshot(&self) -> Map<Seq<char>, OntologyView>;

    /// The switches in force.
    spec fn inference(&self) -> InferenceSettings;

    spec fn inv(&self) -> bool;

    /// Every class reached from `class` by following declared parents one or more
    /// times, in identifier order.
    fn ancestors_of(&self, ontology: &Iri, class: &Iri) -> (r: Result<Vec<Iri>, Self::Error>)
        requires
            self.inv(),
        ensures
            !self.inference().class_hierarchy ==> (r matches Ok(v) && v@.len() == 0),
            r matches Ok(v) ==> sorted_ids(v@),
            (self.inference().class_hierarchy && r is Ok) ==> ({
                let o = self.snapshot()[ontology@];
                &&& self.snapshot().contains_key(ontology@)
                &&& o.class_map().contains_key(class@)
                &&& forall|a: Seq<char>|
                    #[trigger] id_set(r->Ok_0@).contains(a) <==> is_ancestor(o, class@, a)
            }),
    ;

    /// The classes that declare `class` as a direct parent, in identifier order.
    fn descendants_of(&self, ontology: &Iri, class: &Iri) -> (r: Result<Vec<Iri>, Self::Error>)
        requires
            self.inv(),
        ensures
            !self.inference().class_hierarchy ==> (r matches Ok(v) && v@.len() == 0),
            r matches Ok(v) ==> sorted_ids(v@),
            (self.inference().class_hierarchy && r is Ok) ==> ({
                let o = self.snapshot()[ontology@];
                &&& self.snapshot().contains_key(ontology@)
                &&& o.class_map().contains_key(class@)
                &&& forall|d: Seq<char>|
                    #[trigger] id_set(r->Ok_0@).contains(d) <==> is_child(o, class@, d)
            }),
    ;

    /// The individuals that `individual` asserts under the object property
    /// `via_property`, in the order of the assertions; literals are passed over.
    fn related_individuals(&self, ontology: &Iri, via_property: &Iri, individual: &Iri) -> (r:
        Result<Vec<Iri>, Self::Error>)
        requires
            self.inv(),
        ensures
            !self.inference().property_assertions ==> (r matches Ok(v) && v@.len() == 0),
            (self.inference().property_assertions && r is Ok) ==> ({
                let o = self.snapshot()[ontology@];
                &&& self.snapshot().contains_key(ontology@)
                &&& o.property_map().contains_key(via_property@)
                &&& o.property_map()[via_property@].kind == crate::entities::PropertyKind::Object
                &&& o.individual_map().contains_key(individual@)
                &&& texts(r->Ok_0@) == object_targets(
                    o.individual_map()[individual@].values(via_property@),
                )
            }),
    ;

    /// A path of object-property assertions from `start` to `end`, both included,
    /// with no walk between them shorter, or `None` where no such path exists.
    fn shortest_path(&self, ontology: &Iri, start: &Iri, end: &Iri) -> (r: Result<
        Option<Vec<Iri>>,
        Self::Error,
    >)
        requires
            self.inv(),
        ensures
            !self.inference().property_paths ==> (r matches Ok(None)),
            (self.inference().property_paths && r is Ok) ==> ({
                let o = self.snapshot()[ontology@];
                &&& self.snapshot().contains_key(ontology@)
                &&& o.individual_map().contains_key(start@)
                &&& o.individual_map().contains_key(end@)
                &&& match r->Ok_0 {
                    Some(path) => path@.len() >= 1 && texts(path@)[0] == start@ && texts(
                        path@,
                    ).last() == end@ && is_walk(o, texts(path@)) && forall|w: Seq<Seq<char>>|
                        w.len() >= 1 && w[0] == start@ && w.last() == end@ && #[trigger] is_walk(o, w)
                            ==> path@.len() <= w.len(),
                    None => !connects(o, start@, end@),
                }
            }),
    ;
}

} // verus!
