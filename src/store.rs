//! The in-memory store of ontologies and its repository adapter.
use vstd::prelude::*;

use crate::entities::{id_set, Class, Individual, Ontology, OntologyError, OntologyView, Property};
use crate::iri::Iri;
use crate::keyed::{
    key_map, lemma_key_map_all, lemma_key_map_at, lemma_same_keys, lemma_update_at, locate,
    same_keys, sorted_keys, Keyed, KeyedExec,
};
use crate::repositories::{OntologyRepository, OntologySnapshot, OntologySummary};

verus! {

/// Errors raised by the store and the reasoner.
#[derive(Clone, Debug, PartialEq, Eq)]
pub enum OntologyServiceError {
    /// An ontology with that identifier is already stored.
    Duplicate { ontology: Iri },
    /// No ontology with that identifier is stored.
    Missing { ontology: Iri },
    /// The ontology holds no class with that identifier.
    MissingClass { ontology: Iri, class: Iri },
    /// The ontology holds no property with that identifier.
    MissingProperty { ontology: Iri, property: Iri },
    /// The ontology holds no individual with that identifier.
    MissingIndividual { ontology: Iri, individual: Iri },
    /// The ontology rejected a change or a query.
    Domain(OntologyError),
    /// A configured seed path is not a file or a directory.
    SeedIo { path: String, reason: String },
}

/// Ontologies held in memory, in identifier order.
#[derive(Debug)]
pub struct OntologyStore {
    ontologies: Vec<Ontology>,
}

impl View for OntologyStore {
    type V = Seq<OntologyView>;

    closed spec fn view(&self) -> Seq<OntologyView> {
        self.ontologies@.map_values(|o: Ontology| o@)
    }
}

impl OntologyStore {
    pub open spec fn wf(&self) -> bool {
        &&& sorted_keys(self@)
        &&& forall|i: int| 0 <= i < self@.len() ==> (#[trigger] self@[i]).wf()
    }

    /// The stored ontologies by identifier.
    pub open spec fn map(&self) -> Map<Seq<char>, OntologyView> {
        key_map(self@)
    }

    proof fn lemma_views(&self)
        ensures
            same_keys(self.ontologies@, self@),
            sorted_keys(self.ontologies@) == sorted_keys(self@),
            id_set(self.ontologies@) == id_set(self@),
    {
        assert forall|i: int| 0 <= i < self.ontologies@.len() implies #[trigger] self.ontologies@[i].key()
            == self@[i].key() by {}
        lemma_same_keys(self.ontologies@, self@);
    }

    /// An empty store.
    pub fn new() -> (r: OntologyStore)
        ensures
            r.wf(),
            r.map() == Map::<Seq<char>, OntologyView>::empty(),
    {
        let r = OntologyStore { ontologies: Vec::new() };
        assert(r@ =~= Seq::<OntologyView>::empty());
        assert(r.map() =~= Map::<Seq<char>, OntologyView>::empty());
        r
    }

    /// Where the ontology `id` is stored, with what the map holds there.
    fn position(&self, id: &Iri) -> (r: Option<usize>)
        requires
            self.wf(),
        ensures
            r is Some <==> self.map().contains_key(id@),
            r matches Some(i) ==> i < self@.len() && self@[i as int] == self.map()[id@]
                && self@[i as int].id == id@,
    {
        proof {
            self.lemma_views();
        }
        match locate(&self.ontologies, id.as_str()) {
            Ok(i) => {
                proof {
                    lemma_key_map_at(self@, i as int);
                }
                Some(i)
            },
            Err(_) => None,
        }
    }

    /// The stored ontology `id`, if any.
    pub fn ontology(&self, id: &Iri) -> (r: Option<&Ontology>)
        requires
            self.wf(),
        ensures
            r is Some <==> self.map().contains_key(id@),
            r matches Some(o) ==> o@ == self.map()[id@] && o.wf(),
    {
        match self.position(id) {
            Some(i) => Some(&self.ontologies[i]),
            None => None,
        }
    }

    /// Replaces the ontology at `i` by one with the same identifier.
    fn replace_at(&mut self, i: usize, o: Ontology)
        requires
            old(self).wf(),
            i < old(self)@.len(),
            o.wf(),
            o@.id == old(self)@[i as int].id,
        ensures
            final(self).wf(),
            final(self).map() == old(self).map().insert(o@.id, o@),
    {
        let ghost ov = o@;
        let ghost before = self@;
        self.ontologies.remove(i);
        self.ontologies.insert(i, o);
        proof {
            assert(self@ =~= before.update(i as int, ov));
            lemma_update_at(before, i as int, ov);
            assert forall|j: int| 0 <= j < self@.len() implies (#[trigger] self@[j]).wf() by {
                if j != i {
                    assert(self@[j] == before[j]);
                }
            }
        }
    }

    /// Takes the ontology at `i` out for a change; `replace_at` puts it back.
    fn take_at(&mut self, i: usize) -> (r: Ontology)
        requires
            old(self).wf(),
            i < old(self)@.len(),
        ensures
            r@ == old(self)@[i as int],
            r.wf(),
            final(self).ontologies@ == old(self).ontologies@.remove(i as int),
    {
        assert(self@[i as int] == self.ontologies@[i as int]@);
        self.ontologies.remove(i)
    }
}

impl OntologyRepository for OntologyStore {
    type Error = OntologyServiceError;

    open spec fn stored(&self) -> Map<Seq<char>, OntologyView> {
        self.map()
    }

    open spec fn inv(&self) -> bool {
        self.wf()
    }

    fn insert(&mut self, ontology: Ontology) -> (r: Result<(), OntologyServiceError>)
        ensures
            r matches Err(e) ==> e matches OntologyServiceError::Duplicate { ontology: x }
                && x@ == ontology@.id,
    {
        proof {
            self.lemma_views();
        }
        let ghost ov = ontology@;
        let ghost before = self@;
        let ghost before_exec = self.ontologies@;
        match locate(&self.ontologies, ontology.key_str()) {
            Ok(_) => Err(OntologyServiceError::Duplicate { ontology: ontology.id().clone() }),
            Err(p) => {
                self.ontologies.insert(p, ontology);
                proof {
                    assert(self@ =~= before.insert(p as int, ov));
                    assert forall|j: int| 0 <= j < p implies crate::iri::iri_lt(
                        #[trigger] before[j].key(),
                        ov.key(),
                    ) by {
                        assert(before[j].key() == before_exec[j].key());
                    }
                    assert forall|j: int| p <= j < before.len() implies crate::iri::iri_lt(
                        ov.key(),
                        #[trigger] before[j].key(),
                    ) by {
                        assert(before[j].key() == before_exec[j].key());
                    }
                    crate::keyed::lemma_insert_at(before, p as int, ov);
                    assert forall|j: int| 0 <= j < self@.len() implies (#[trigger] self@[j]).wf() by {
                        if j < p {
                            assert(self@[j] == before[j]);
                        } else if j > p {
                            assert(self@[j] == before[j - 1]);
                        }
                    }
                }
                Ok(())
            },
        }
    }

    fn update(&mut self, ontology: Ontology) -> (r: Result<(), OntologyServiceError>)
        ensures
            r matches Err(e) ==> e matches OntologyServiceError::Missing { ontology: x } && x@
                == ontology@.id,
    {
        match self.position(ontology.id()) {
            Some(i) => {
                self.replace_at(i, ontology);
                Ok(())
            },
            None => Err(OntologyServiceError::Missing { ontology: ontology.id().clone() }),
        }
    }

    fn get(&self, iri: &Iri) -> (r: Result<Option<OntologySnapshot>, OntologyServiceError>)
        ensures
            r is Ok,
    {
        match self.ontology(iri) {
            Some(o) => Ok(Some(OntologySnapshot { ontology: o.clone() })),
            None => Ok(None),
        }
    }

    fn delete(&mut self, iri: &Iri) -> (r: Result<(), OntologyServiceError>)
        ensures
            r matches Err(e) ==> e matches OntologyServiceError::Missing { ontology: x } && x@
                == iri@,
    {
        proof {
            self.lemma_views();
        }
        let ghost before = self@;
        let ghost before_exec = self.ontologies@;
        match locate(&self.ontologies, iri.as_str()) {
            Ok(p) => {
                self.ontologies.remove(p);
                proof {
                    assert(self@ =~= before.remove(p as int));
                    lemma_key_map_at(before, p as int);
                    crate::keyed::lemma_remove_at(before, p as int);
                    assert forall|j: int| 0 <= j < self@.len() implies (#[trigger] self@[j]).wf() by {
                        if j < p {
                            assert(self@[j] == before[j]);
                        } else {
                            assert(self@[j] == before[j + 1]);
                        }
                    }
                }
                Ok(())
            },
            Err(_) => {
                assert(self.map() =~= self.map().remove(iri@));
                Err(OntologyServiceError::Missing { ontology: iri.clone() })
            },
        }
    }

    fn list(&self) -> (r: Result<Vec<OntologySummary>, OntologyServiceError>)
        ensures
            r is Ok,
    {
        let mut out: Vec<OntologySummary> = Vec::new();
        let mut i: usize = 0;
        while i < self.ontologies.len()
            invariant
                self.wf(),
                i <= self.ontologies.len(),
                out.len() == i,
                forall|j: int| 0 <= j < i ==> #[trigger] out@[j].describes(self@[j]),
            decreases self.ontologies.len() - i,
        {
            let s = OntologySummary::of(&self.ontologies[i]);
            out.push(s);
            i = i + 1;
        }
        proof {
            assert(same_keys(out@, self@)) by {
                assert forall|j: int| 0 <= j < out@.len() implies #[trigger] out@[j].key() == self@[j].key() by {
                    assert(out@[j].describes(self@[j]));
                }
            }
            lemma_same_keys(out@, self@);
            lemma_key_map_all(self@);
            assert forall|j: int| 0 <= j < out.len() implies (#[trigger] out@[j]).describes(
                self.map()[out@[j].iri@],
            ) by {
                assert(out@[j].describes(self@[j]));
                assert(out@[j].iri@ == self@[j].key());
                assert(key_map(self@)[self@[j].key()] == self@[j]);
            }
        }
        Ok(out)
    }

    fn attach_class(&mut self, ontology: &Iri, class: Class) -> (r: Result<(), OntologyServiceError>)
        ensures
            !old(self).map().contains_key(ontology@) ==> (r matches Err(
                OntologyServiceError::Missing { ontology: x },
            ) && x@ == ontology@),
            old(self).map().contains_key(ontology@) && r is Err ==> (r matches Err(
                OntologyServiceError::Domain(OntologyError::DuplicateClass(c)),
            ) && c@ == class@.id),
    {
        let i = match self.position(ontology) {
            Some(i) => i,
            None => {
                return Err(OntologyServiceError::Missing { ontology: ontology.clone() });
            },
        };
        let ghost before = *self;
        let mut o = self.take_at(i);
        let r = o.add_class(class);
        let ghost ov = o@;
        proof {
            assert(self.ontologies@.insert(i as int, o) =~= before.ontologies@.update(i as int, o));
        }
        self.ontologies.insert(i, o);
        assert(self.ontologies@ == before.ontologies@.update(i as int, o));
        assert(self@ =~= before@.update(i as int, ov));
        proof {
            lemma_update_at(before@, i as int, ov);
            assert forall|j: int| 0 <= j < self@.len() implies (#[trigger] self@[j]).wf() by {
                if j != i {
                    assert(self@[j] == before@[j]);
                }
            }
            if r is Err {
                assert(self.map() =~= before.map());
            }
        }
        match r {
            Ok(()) => Ok(()),
            Err(e) => Err(OntologyServiceError::Domain(e)),
        }
    }

    fn attach_property(&mut self, ontology: &Iri, property: Property) -> (r: Result<(), OntologyServiceError>)
        ensures
            !old(self).map().contains_key(ontology@) ==> (r matches Err(
                OntologyServiceError::Missing { ontology: x },
            ) && x@ == ontology@),
            old(self).map().contains_key(ontology@) && r is Err ==> (r matches Err(
                OntologyServiceError::Domain(_),
            )),
            (old(self).map().contains_key(ontology@) && old(self).map()[ontology@].property_map().contains_key(
                property@.id,
            )) ==> (r matches Err(OntologyServiceError::Domain(OntologyError::DuplicateProperty(x)))
                && x@ == property@.id),
            (old(self).map().contains_key(ontology@) && !old(self).map()[ontology@].property_map().contains_key(
                property@.id,
            ) && old(self).map()[ontology@].missing_class_for(property@) is Some) ==> (r matches Err(
                OntologyServiceError::Domain(OntologyError::MissingClass { ontology: x, class: c }),
            ) && x@ == ontology@ && Some(c@) == old(self).map()[ontology@].missing_class_for(property@)),
    {
        let i = match self.position(ontology) {
            Some(i) => i,
            None => {
                return Err(OntologyServiceError::Missing { ontology: ontology.clone() });
            },
        };
        let ghost before = *self;
        let mut o = self.take_at(i);
        let r = o.add_property(property);
        let ghost ov = o@;
        proof {
            assert(self.ontologies@.insert(i as int, o) =~= before.ontologies@.update(i as int, o));
        }
        self.ontologies.insert(i, o);
        assert(self@ =~= before@.update(i as int, ov));
        proof {
            lemma_update_at(before@, i as int, ov);
            assert forall|j: int| 0 <= j < self@.len() implies (#[trigger] self@[j]).wf() by {
                if j != i {
                    assert(self@[j] == before@[j]);
                }
            }
            if r is Err {
                assert(self.map() =~= before.map());
            }
        }
        match r {
            Ok(()) => Ok(()),
            Err(e) => Err(OntologyServiceError::Domain(e)),
        }
    }

    fn attach_individual(&mut self, ontology: &Iri, individual: Individual) -> (r: Result<(), OntologyServiceError>)
        ensures
            !old(self).map().contains_key(ontology@) ==> (r matches Err(
                OntologyServiceError::Missing { ontology: x },
            ) && x@ == ontology@),
            old(self).map().contains_key(ontology@) && r is Err ==> (r matches Err(
                OntologyServiceError::Domain(_),
            )),
            (old(self).map().contains_key(ontology@) && old(self).map()[ontology@].individual_map().contains_key(
                individual@.id,
            )) ==> (r matches Err(OntologyServiceError::Domain(OntologyError::DuplicateIndividual(x)))
                && x@ == individual@.id),
            (old(self).map().contains_key(ontology@) && !old(self).map()[ontology@].individual_map().contains_key(
                individual@.id,
            ) && crate::entities::first_missing(old(self).map()[ontology@].class_map().dom(), individual@.types)
                is None && crate::entities::first_bad_entry(
                old(self).map()[ontology@].property_map(),
                individual@.properties,
            ) matches Some((_, false))) ==> (r matches Err(
                OntologyServiceError::Domain(OntologyError::InvalidPropertyAssertion { ontology: x, property: p }),
            ) && x@ == ontology@ && Some((p@, false)) == crate::entities::first_bad_entry(
                old(self).map()[ontology@].property_map(),
                individual@.properties,
            )),
    {
        let i = match self.position(ontology) {
            Some(i) => i,
            None => {
                return Err(OntologyServiceError::Missing { ontology: ontology.clone() });
            },
        };
        let ghost before = *self;
        let mut o = self.take_at(i);
        let r = o.add_individual(individual);
        let ghost ov = o@;
        proof {
            assert(self.ontologies@.insert(i as int, o) =~= before.ontologies@.update(i as int, o));
        }
        self.ontologies.insert(i, o);
        assert(self@ =~= before@.update(i as int, ov));
        proof {
            lemma_update_at(before@, i as int, ov);
            assert forall|j: int| 0 <= j < self@.len() implies (#[trigger] self@[j]).wf() by {
                if j != i {
                    assert(self@[j] == before@[j]);
                }
            }
            if r is Err {
                assert(self.map() =~= before.map());
            }
        }
        match r {
            Ok(()) => Ok(()),
            Err(e) => Err(OntologyServiceError::Domain(e)),
        }
    }
}

/// Once `attach_property` has succeeded, the ontology that `get` hands out holds
/// the property: the store goes from `before` to `after` as that call's contract
/// says, and `get` returns what `after` holds.
pub proof fn lemma_attached_property_visible(
    before: OntologyStore,
    after: OntologyStore,
    ontology: Seq<char>,
    property: crate::entities::PropertyView,
)
    requires
        before.map().contains_key(ontology),
        after.map() == before.map().insert(ontology, after.map()[ontology]),
        after.map()[ontology].property_map() == before.map()[ontology].property_map().insert(
            property.id,
            property,
        ),
    ensures
        after.map().contains_key(ontology),
        after.map()[ontology].property_map().contains_key(property.id),
        after.map()[ontology].property_map()[property.id] == property,
{
}

} // verus!
