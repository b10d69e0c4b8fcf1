//! Classes, properties and individuals, and the ontology aggregate that owns them
//! and checks their references.
use vstd::prelude::*;

use crate::iri::Iri;
use crate::keyed::{
    insert_keyed, key_map, lemma_insert_at, lemma_key_map_at, lemma_same_keys, lemma_update_at,
    locate, remove_keyed, same_keys, sorted_keys, Keyed, KeyedExec,
};

verus! {

/// The set of identifiers filed in a sorted sequence.
pub open spec fn id_set<T: Keyed>(s: Seq<T>) -> Set<Seq<char>> {
    key_map(s).dom()
}

pub open spec fn opt_view(o: Option<String>) -> Option<Seq<char>> {
    match o {
        Some(s) => Some(s@),
        None => None,
    }
}

pub open spec fn opt_str_view(o: Option<&str>) -> Option<Seq<char>> {
    match o {
        Some(s) => Some(s@),
        None => None,
    }
}

fn opt_as_str(o: &Option<String>) -> (r: Option<&str>)
    ensures
        opt_str_view(r) == opt_view(*o),
{
    match o {
        Some(s) => Some(s.as_str()),
        None => None,
    }
}

fn clone_opt(o: &Option<String>) -> (r: Option<String>)
    ensures
        r == *o,
{
    match o {
        Some(s) => Some(s.clone()),
        None => None,
    }
}

fn clone_ids(v: &Vec<Iri>) -> (r: Vec<Iri>)
    ensures
        r@ == v@,
{
    let r = v.clone();
    assert(r@ =~= v@);
    r
}

/// What a class is: identifier, optional label and comment, and its declared
/// parents in identifier order.
pub ghost struct ClassView {
    pub id: Seq<char>,
    pub label: Option<Seq<char>>,
    pub comment: Option<Seq<char>>,
    pub parents: Seq<Iri>,
}

/// A class with its metadata and its declared parent classes.
#[derive(Debug)]
pub struct Class {
    id: Iri,
    label: Option<String>,
    comment: Option<String>,
    super_classes: Vec<Iri>,
}

impl View for Class {
    type V = ClassView;

    closed spec fn view(&self) -> ClassView {
        ClassView {
            id: self.id@,
            label: opt_view(self.label),
            comment: opt_view(self.comment),
            parents: self.super_classes@,
        }
    }
}

impl ClassView {
    /// The parents are held in strictly increasing identifier order.
    pub open spec fn wf(&self) -> bool {
        sorted_keys(self.parents)
    }
}

impl Keyed for ClassView {
    open spec fn key(&self) -> Seq<char> {
        self.id
    }
}

impl Keyed for Class {
    open spec fn key(&self) -> Seq<char> {
        self@.id
    }
}

impl KeyedExec for Class {
    fn key_str(&self) -> (r: &str) {
        self.id.as_str()
    }
}

impl Class {
    pub open spec fn wf(&self) -> bool {
        self@.wf()
    }

    /// The set of declared parent identifiers.
    pub open spec fn parent_ids(&self) -> Set<Seq<char>> {
        id_set(self@.parents)
    }

    /// A class with no label, no comment and no parents.
    pub fn new(id: Iri) -> (r: Class)
        ensures
            r.wf(),
            r@ == (ClassView { id: id@, label: None, comment: None, parents: Seq::empty() }),
    {
        let r = Class { id, label: None, comment: None, super_classes: Vec::new() };
        assert(r@.parents =~= Seq::<Iri>::empty());
        r
    }

    /// Sets the label.
    pub fn with_label(self, label: &str) -> (r: Class)
        ensures
            r@ == (ClassView { label: Some(label@), ..self@ }),
    {
        let mut r = self;
        r.label = Some(label.to_owned());
        r
    }

    /// Sets the comment.
    pub fn with_comment(self, comment: &str) -> (r: Class)
        ensures
            r@ == (ClassView { comment: Some(comment@), ..self@ }),
    {
        let mut r = self;
        r.comment = Some(comment.to_owned());
        r
    }

    /// Declares a parent; returns whether it was not declared before.
    pub fn add_parent(&mut self, parent: Iri) -> (r: bool)
        requires
            old(self).wf(),
        ensures
            final(self).wf(),
            r == !old(self).parent_ids().contains(parent@),
            final(self).parent_ids() == old(self).parent_ids().insert(parent@),
            final(self)@.id == old(self)@.id,
            final(self)@.label == old(self)@.label,
            final(self)@.comment == old(self)@.comment,
    {
        let ghost k = parent@;
        let r = insert_keyed(&mut self.super_classes, parent);
        proof {
            if r {
                assert(id_set(self.super_classes@) =~= id_set(old(self).super_classes@).insert(k));
            } else {
                assert(id_set(self.super_classes@) =~= id_set(old(self).super_classes@).insert(k));
            }
        }
        r
    }

    /// Withdraws a parent; returns whether it was declared.
    pub fn remove_parent(&mut self, parent: &Iri) -> (r: bool)
        requires
            old(self).wf(),
        ensures
            final(self).wf(),
            r == old(self).parent_ids().contains(parent@),
            final(self).parent_ids() == old(self).parent_ids().remove(parent@),
            final(self)@.id == old(self)@.id,
            final(self)@.label == old(self)@.label,
            final(self)@.comment == old(self)@.comment,
    {
        let r = remove_keyed(&mut self.super_classes, parent);
        assert(id_set(self.super_classes@) =~= id_set(old(self).super_classes@).remove(parent@));
        r
    }

    pub fn id(&self) -> (r: &Iri)
        ensures
            r@ == self@.id,
    {
        &self.id
    }

    pub fn label(&self) -> (r: Option<&str>)
        ensures
            opt_str_view(r) == self@.label,
    {
        opt_as_str(&self.label)
    }

    pub fn comment(&self) -> (r: Option<&str>)
        ensures
            opt_str_view(r) == self@.comment,
    {
        opt_as_str(&self.comment)
    }

    /// The declared parents in identifier order.
    pub fn parents(&self) -> (r: &Vec<Iri>)
        ensures
            r@ == self@.parents,
    {
        &self.super_classes
    }
}

impl Clone for Class {
    fn clone(&self) -> (r: Class)
        ensures
            r@ == self@,
    {
        Class {
            id: self.id.clone(),
            label: clone_opt(&self.label),
            comment: clone_opt(&self.comment),
            super_classes: clone_ids(&self.super_classes),
        }
    }
}

/// Whether the values of a property are individuals or literals.
#[derive(Copy, Clone, Debug, PartialEq, Eq)]
pub enum PropertyKind {
    /// Values name other individuals.
    Object,
    /// Values are literal text.
    Data,
}

/// What a property is: identifier, optional label, kind, and its domain and
/// range classes in identifier order.
pub ghost struct PropertyView {
    pub id: Seq<char>,
    pub label: Option<Seq<char>>,
    pub kind: PropertyKind,
    pub domains: Seq<Iri>,
    pub ranges: Seq<Iri>,
}

/// A property with its kind and the classes it relates.
#[derive(Debug)]
pub struct Property {
    id: Iri,
    label: Option<String>,
    kind: PropertyKind,
    domains: Vec<Iri>,
    ranges: Vec<Iri>,
}

impl View for Property {
    type V = PropertyView;

    closed spec fn view(&self) -> PropertyView {
        PropertyView {
            id: self.id@,
            label: opt_view(self.label),
            kind: self.kind,
            domains: self.domains@,
            ranges: self.ranges@,
        }
    }
}

impl PropertyView {
    /// Domains and ranges are held in strictly increasing identifier order.
    pub open spec fn wf(&self) -> bool {
        sorted_keys(self.domains) && sorted_keys(self.ranges)
    }
}

impl Keyed for PropertyView {
    open spec fn key(&self) -> Seq<char> {
        self.id
    }
}

impl Keyed for Property {
    open spec fn key(&self) -> Seq<char> {
        self@.id
    }
}

impl KeyedExec for Property {
    fn key_str(&self) -> (r: &str) {
        self.id.as_str()
    }
}

impl Property {
    pub open spec fn wf(&self) -> bool {
        self@.wf()
    }

    /// A property of the given kind with no label, domains or ranges.
    pub fn new(id: Iri, kind: PropertyKind) -> (r: Property)
        ensures
            r.wf(),
            r@ == (PropertyView {
                id: id@,
                label: None,
                kind,
                domains: Seq::empty(),
                ranges: Seq::empty(),
            }),
    {
        let r = Property { id, label: None, kind, domains: Vec::new(), ranges: Vec::new() };
        assert(r@.domains =~= Seq::<Iri>::empty());
        assert(r@.ranges =~= Seq::<Iri>::empty());
        r
    }

    /// Sets the label.
    pub fn with_label(self, label: &str) -> (r: Property)
        ensures
            r@ == (PropertyView { label: Some(label@), ..self@ }),
    {
        let mut r = self;
        r.label = Some(label.to_owned());
        r
    }

    /// Declares a domain class; returns whether it was not declared before.
    pub fn add_domain(&mut self, class: Iri) -> (r: bool)
        requires
            old(self).wf(),
        ensures
            final(self).wf(),
            r == !id_set(old(self)@.domains).contains(class@),
            id_set(final(self)@.domains) == id_set(old(self)@.domains).insert(class@),
            final(self)@ == (PropertyView { domains: final(self)@.domains, ..old(self)@ }),
    {
        let ghost k = class@;
        let r = insert_keyed(&mut self.domains, class);
        assert(id_set(self.domains@) =~= id_set(old(self).domains@).insert(k));
        r
    }

    /// Declares a range class; returns whether it was not declared before.
    pub fn add_range(&mut self, class: Iri) -> (r: bool)
        requires
            old(self).wf(),
        ensures
            final(self).wf(),
            r == !id_set(old(self)@.ranges).contains(class@),
            id_set(final(self)@.ranges) == id_set(old(self)@.ranges).insert(class@),
            final(self)@ == (PropertyView { ranges: final(self)@.ranges, ..old(self)@ }),
    {
        let ghost k = class@;
        let r = insert_keyed(&mut self.ranges, class);
        assert(id_set(self.ranges@) =~= id_set(old(self).ranges@).insert(k));
        r
    }

    pub fn id(&self) -> (r: &Iri)
        ensures
            r@ == self@.id,
    {
        &self.id
    }

    pub fn label(&self) -> (r: Option<&str>)
        ensures
            opt_str_view(r) == self@.label,
    {
        opt_as_str(&self.label)
    }

    pub fn kind(&self) -> (r: PropertyKind)
        ensures
            r == self@.kind,
    {
        self.kind
    }

    /// The domain classes in identifier order.
    pub fn domains(&self) -> (r: &Vec<Iri>)
        ensures
            r@ == self@.domains,
    {
        &self.domains
    }

    /// The range classes in identifier order.
    pub fn ranges(&self) -> (r: &Vec<Iri>)
        ensures
            r@ == self@.ranges,
    {
        &self.ranges
    }
}

impl Clone for Property {
    fn clone(&self) -> (r: Property)
        ensures
            r@ == self@,
    {
        Property {
            id: self.id.clone(),
            label: clone_opt(&self.label),
            kind: self.kind,
            domains: clone_ids(&self.domains),
            ranges: clone_ids(&self.ranges),
        }
    }
}

/// A value asserted for a property of an individual.
#[derive(Debug, PartialEq, Eq)]
pub enum PropertyAssertion {
    /// Names another individual; fits object properties.
    Individual(Iri),
    /// Literal text; fits data properties.
    Literal(String),
}

impl Clone for PropertyAssertion {
    fn clone(&self) -> (r: PropertyAssertion)
        ensures
            r == *self,
    {
        match self {
            PropertyAssertion::Individual(i) => PropertyAssertion::Individual(i.clone()),
            PropertyAssertion::Literal(s) => PropertyAssertion::Literal(s.clone()),
        }
    }
}

/// Whether an assertion has the variant that the property kind calls for.
pub open spec fn fits_kind(kind: PropertyKind, a: PropertyAssertion) -> bool {
    match kind {
        PropertyKind::Object => a is Individual,
        PropertyKind::Data => a is Literal,
    }
}

/// The assertions filed under one property.
pub type AssertionEntry = (Iri, Vec<PropertyAssertion>);

/// What an entry of assertions is: the property and the assertions in order.
pub type AssertionEntryView = (Iri, Seq<PropertyAssertion>);

impl Keyed for (Iri, Vec<PropertyAssertion>) {
    open spec fn key(&self) -> Seq<char> {
        self.0@
    }
}

impl KeyedExec for (Iri, Vec<PropertyAssertion>) {
    fn key_str(&self) -> (r: &str) {
        self.0.as_str()
    }
}

impl Keyed for (Iri, Seq<PropertyAssertion>) {
    open spec fn key(&self) -> Seq<char> {
        self.0@
    }
}

pub open spec fn entries_view(s: Seq<AssertionEntry>) -> Seq<AssertionEntryView> {
    s.map_values(|e: AssertionEntry| (e.0, e.1@))
}

/// The assertions filed under property `k`, empty where there are none.
pub open spec fn values_of(entries: Seq<AssertionEntryView>, k: Seq<char>) -> Seq<PropertyAssertion> {
    if key_map(entries).contains_key(k) {
        key_map(entries)[k].1
    } else {
        Seq::empty()
    }
}

/// What an individual is: identifier, asserted types in identifier order, and its
/// assertions grouped by property in identifier order.
pub ghost struct IndividualView {
    pub id: Seq<char>,
    pub types: Seq<Iri>,
    pub properties: Seq<AssertionEntryView>,
}

/// An individual with its asserted types and property assertions.
#[derive(Debug)]
pub struct Individual {
    id: Iri,
    types: Vec<Iri>,
    properties: Vec<AssertionEntry>,
}

impl View for Individual {
    type V = IndividualView;

    closed spec fn view(&self) -> IndividualView {
        IndividualView {
            id: self.id@,
            types: self.types@,
            properties: entries_view(self.properties@),
        }
    }
}

impl IndividualView {
    /// Types and property entries are held in strictly increasing identifier order.
    pub open spec fn wf(&self) -> bool {
        sorted_keys(self.types) && sorted_keys(self.properties)
    }

    /// The assertions filed under property `k`.
    pub open spec fn values(&self, k: Seq<char>) -> Seq<PropertyAssertion> {
        values_of(self.properties, k)
    }
}

impl Keyed for IndividualView {
    open spec fn key(&self) -> Seq<char> {
        self.id
    }
}

impl Keyed for Individual {
    open spec fn key(&self) -> Seq<char> {
        self@.id
    }
}

impl KeyedExec for Individual {
    fn key_str(&self) -> (r: &str) {
        self.id.as_str()
    }
}

impl Individual {
    pub open spec fn wf(&self) -> bool {
        self@.wf()
    }

    pub open spec fn values(&self, k: Seq<char>) -> Seq<PropertyAssertion> {
        self@.values(k)
    }

    /// An individual with no types and no assertions.
    pub fn new(id: Iri) -> (r: Individual)
        ensures
            r.wf(),
            r@ == (IndividualView { id: id@, types: Seq::empty(), properties: Seq::empty() }),
    {
        let r = Individual { id, types: Vec::new(), properties: Vec::new() };
        assert(r@.types =~= Seq::<Iri>::empty());
        assert(r@.properties =~= Seq::<AssertionEntryView>::empty());
        r
    }

    /// Declares that the individual is an instance of `class`; returns whether it
    /// was not declared before.
    pub fn assert_type(&mut self, class: Iri) -> (r: bool)
        requires
            old(self).wf(),
        ensures
            final(self).wf(),
            r == !id_set(old(self)@.types).contains(class@),
            id_set(final(self)@.types) == id_set(old(self)@.types).insert(class@),
            final(self)@.id == old(self)@.id,
            final(self)@.properties == old(self)@.properties,
    {
        let ghost k = class@;
        let r = insert_keyed(&mut self.types, class);
        assert(id_set(self.types@) =~= id_set(old(self).types@).insert(k));
        r
    }

    /// Appends an assertion under `property`, after those already there.
    pub fn add_property_assertion(&mut self, property: Iri, assertion: PropertyAssertion)
        requires
            old(self).wf(),
        ensures
            final(self).wf(),
            final(self)@.id == old(self)@.id,
            final(self)@.types == old(self)@.types,
            id_set(final(self)@.properties) == id_set(old(self)@.properties).insert(property@),
            final(self).values(property@) == old(self).values(property@).push(assertion),
            forall|k: Seq<char>|
                k != property@ ==> #[trigger] key_map(final(self)@.properties).get(k) == key_map(
                    old(self)@.properties,
                ).get(k),
    {
        let ghost k = property@;
        let ghost old_view = entries_view(self.properties@);
        proof {
            lemma_same_keys(self.properties@, old_view);
        }
        match locate(&self.properties, property.as_str()) {
            Ok(i) => {
                let (key, mut vals) = self.properties.remove(i);
                vals.push(assertion);
                let ghost entry = (key, vals@);
                self.properties.insert(i, (key, vals));
                proof {
                    lemma_key_map_at(old_view, i as int);
                    assert(entries_view(self.properties@) =~= old_view.update(i as int, entry));
                    lemma_update_at(old_view, i as int, entry);
                }
            },
            Err(p) => {
                let ghost entry = (property, seq![assertion]);
                let vals = vec![assertion];
                assert(vals@ =~= seq![assertion]);
                self.properties.insert(p, (property, vals));
                proof {
                    assert(entries_view(self.properties@) =~= old_view.insert(p as int, entry));
                    assert forall|j: int| 0 <= j < p implies crate::iri::iri_lt(
                        #[trigger] old_view[j].key(),
                        entry.key(),
                    ) by {
                        assert(old_view[j].key() == old(self).properties@[j].key());
                    }
                    assert forall|j: int| p <= j < old_view.len() implies crate::iri::iri_lt(
                        entry.key(),
                        #[trigger] old_view[j].key(),
                    ) by {
                        assert(old_view[j].key() == old(self).properties@[j].key());
                    }
                    lemma_insert_at(old_view, p as int, entry);
                }
            },
        }
        let ghost new_view = entries_view(self.properties@);
        assert(id_set(new_view) =~= id_set(old_view).insert(k));
    }

    pub fn id(&self) -> (r: &Iri)
        ensures
            r@ == self@.id,
    {
        &self.id
    }

    /// The asserted types in identifier order.
    pub fn types(&self) -> (r: &Vec<Iri>)
        ensures
            r@ == self@.types,
    {
        &self.types
    }

    /// The assertions grouped by property, in property identifier order.
    pub fn properties(&self) -> (r: &Vec<AssertionEntry>)
        ensures
            entries_view(r@) == self@.properties,
    {
        &self.properties
    }

    /// The assertions filed under `property`, if any are.
    pub fn assertions_for(&self, property: &Iri) -> (r: Option<&Vec<PropertyAssertion>>)
        requires
            self.wf(),
        ensures
            r is Some == key_map(self@.properties).contains_key(property@),
            r matches Some(v) ==> v@ == self.values(property@),
    {
        proof {
            lemma_same_keys(self.properties@, self@.properties);
        }
        match locate(&self.properties, property.as_str()) {
            Ok(i) => {
                proof {
                    lemma_key_map_at(self@.properties, i as int);
                }
                Some(&self.properties[i].1)
            },
            Err(_) => None,
        }
    }
}

fn clone_assertions(v: &Vec<PropertyAssertion>) -> (r: Vec<PropertyAssertion>)
    ensures
        r@ == v@,
{
    let r = v.clone();
    assert(r@ =~= v@);
    r
}

impl Clone for Individual {
    fn clone(&self) -> (r: Individual)
        ensures
            r@ == self@,
    {
        let mut properties: Vec<AssertionEntry> = Vec::new();
        let mut i: usize = 0;
        while i < self.properties.len()
            invariant
                i <= self.properties.len(),
                entries_view(properties@) == entries_view(self.properties@).subrange(0, i as int),
            decreases self.properties.len() - i,
        {
            let entry = (self.properties[i].0.clone(), clone_assertions(&self.properties[i].1));
            let ghost prev = properties@;
            let ghost ev = (entry.0, entry.1@);
            assert(ev == entries_view(self.properties@)[i as int]);
            properties.push(entry);
            assert(entries_view(properties@) =~= entries_view(prev).push(ev));
            i = i + 1;
            assert(entries_view(properties@) =~= entries_view(self.properties@).subrange(0, i as int));
        }
        assert(entries_view(self.properties@).subrange(0, i as int) =~= entries_view(self.properties@));
        Individual { id: self.id.clone(), types: clone_ids(&self.types), properties }
    }
}

/// The first identifier of `s` that is not in `known`.
pub open spec fn first_missing(known: Set<Seq<char>>, s: Seq<Iri>) -> Option<Seq<char>>
    decreases s.len(),
{
    if s.len() == 0 {
        None
    } else if !known.contains(s[0]@) {
        Some(s[0]@)
    } else {
        first_missing(known, s.drop_first())
    }
}

/// Whether every assertion fits the kind.
pub open spec fn all_fit(kind: PropertyKind, values: Seq<PropertyAssertion>) -> bool {
    forall|j: int| 0 <= j < values.len() ==> fits_kind(kind, #[trigger] values[j])
}

/// The first entry of assertions that names an unknown property (`true`) or holds
/// an assertion that does not fit its property's kind (`false`).
pub open spec fn first_bad_entry(
    properties: Map<Seq<char>, PropertyView>,
    entries: Seq<AssertionEntryView>,
) -> Option<(Seq<char>, bool)>
    decreases entries.len(),
{
    if entries.len() == 0 {
        None
    } else if !properties.contains_key(entries[0].0@) {
        Some((entries[0].0@, true))
    } else if !all_fit(properties[entries[0].0@].kind, entries[0].1) {
        Some((entries[0].0@, false))
    } else {
        first_bad_entry(properties, entries.drop_first())
    }
}

/// Errors raised when an ontology rejects a mutation.
#[derive(Clone, Debug, PartialEq, Eq)]
pub enum OntologyError {
    /// A class with that identifier is already present.
    DuplicateClass(Iri),
    /// A property with that identifier is already present.
    DuplicateProperty(Iri),
    /// An individual with that identifier is already present.
    DuplicateIndividual(Iri),
    /// A referenced class is not part of the ontology.
    MissingClass { ontology: Iri, class: Iri },
    /// A referenced property is not part of the ontology.
    MissingProperty { ontology: Iri, property: Iri },
    /// An assertion does not fit the kind of its property.
    InvalidPropertyAssertion { ontology: Iri, property: Iri },
}

/// What an ontology is: identifier, optional label, and its classes, properties
/// and individuals, each in identifier order.
pub ghost struct OntologyView {
    pub id: Seq<char>,
    pub label: Option<Seq<char>>,
    pub classes: Seq<ClassView>,
    pub properties: Seq<PropertyView>,
    pub individuals: Seq<IndividualView>,
}

impl OntologyView {
    pub open spec fn wf(&self) -> bool {
        &&& sorted_keys(self.classes)
        &&& sorted_keys(self.properties)
        &&& sorted_keys(self.individuals)
        &&& forall|i: int| 0 <= i < self.classes.len() ==> (#[trigger] self.classes[i]).wf()
        &&& forall|i: int| 0 <= i < self.properties.len() ==> (#[trigger] self.properties[i]).wf()
        &&& forall|i: int|
            0 <= i < self.individuals.len() ==> (#[trigger] self.individuals[i]).wf()
    }

    pub open spec fn class_map(&self) -> Map<Seq<char>, ClassView> {
        key_map(self.classes)
    }

    pub open spec fn property_map(&self) -> Map<Seq<char>, PropertyView> {
        key_map(self.properties)
    }

    pub open spec fn individual_map(&self) -> Map<Seq<char>, IndividualView> {
        key_map(self.individuals)
    }

    /// The class that a property names in its domains or ranges and that is
    /// missing here, the domains looked at first.
    pub open spec fn missing_class_for(&self, p: PropertyView) -> Option<Seq<char>> {
        match first_missing(self.class_map().dom(), p.domains) {
            Some(c) => Some(c),
            None => first_missing(self.class_map().dom(), p.ranges),
        }
    }
}

/// An ontology: the owner of its classes, properties and individuals, which
/// checks each addition against what it already holds.
#[derive(Debug)]
pub struct Ontology {
    id: Iri,
    label: Option<String>,
    classes: Vec<Class>,
    properties: Vec<Property>,
    individuals: Vec<Individual>,
}

impl View for Ontology {
    type V = OntologyView;

    closed spec fn view(&self) -> OntologyView {
        OntologyView {
            id: self.id@,
            label: opt_view(self.label),
            classes: self.classes@.map_values(|c: Class| c@),
            properties: self.properties@.map_values(|p: Property| p@),
            individuals: self.individuals@.map_values(|i: Individual| i@),
        }
    }
}

impl Keyed for OntologyView {
    open spec fn key(&self) -> Seq<char> {
        self.id
    }
}

impl Keyed for Ontology {
    open spec fn key(&self) -> Seq<char> {
        self@.id
    }
}

impl KeyedExec for Ontology {
    fn key_str(&self) -> (r: &str) {
        self.id.as_str()
    }
}

/// Finds the first identifier of `ids` that is not filed in `known`.
fn first_unknown<T: KeyedExec>(known: &Vec<T>, ids: &Vec<Iri>) -> (r: Option<usize>)
    requires
        sorted_keys(known@),
    ensures
        r matches Some(i) ==> i < ids.len() && first_missing(id_set(known@), ids@) == Some(
            ids@[i as int]@,
        ),
        r is None ==> first_missing(id_set(known@), ids@) is None,
{
    let ghost k = id_set(known@);
    let mut i: usize = 0;
    assert(ids@.skip(0) =~= ids@);
    while i < ids.len()
        invariant
            sorted_keys(known@),
            k == id_set(known@),
            i <= ids.len(),
            first_missing(k, ids@) == first_missing(k, ids@.skip(i as int)),
        decreases ids.len() - i,
    {
        if locate(known, ids[i].as_str()).is_err() {
            return Some(i);
        }
        assert(ids@.skip(i as int).drop_first() =~= ids@.skip(i + 1));
        i = i + 1;
    }
    None
}

impl Ontology {
    pub open spec fn wf(&self) -> bool {
        self@.wf()
    }

    proof fn lemma_views(&self)
        ensures
            same_keys(self.classes@, self@.classes),
            same_keys(self.properties@, self@.properties),
            same_keys(self.individuals@, self@.individuals),
            sorted_keys(self.classes@) == sorted_keys(self@.classes),
            sorted_keys(self.properties@) == sorted_keys(self@.properties),
            sorted_keys(self.individuals@) == sorted_keys(self@.individuals),
            id_set(self.classes@) == id_set(self@.classes),
            id_set(self.properties@) == id_set(self@.properties),
            id_set(self.individuals@) == id_set(self@.individuals),
    {
        assert forall|i: int| 0 <= i < self.classes@.len() implies #[trigger] self.classes@[i].key()
            == self@.classes[i].key() by {}
        assert forall|i: int| 0 <= i < self.properties@.len() implies
            #[trigger] self.properties@[i].key() == self@.properties[i].key() by {}
        assert forall|i: int| 0 <= i < self.individuals@.len() implies
            #[trigger] self.individuals@[i].key() == self@.individuals[i].key() by {}
        lemma_same_keys(self.classes@, self@.classes);
        lemma_same_keys(self.properties@, self@.properties);
        lemma_same_keys(self.individuals@, self@.individuals);
    }

    /// An empty ontology without a label.
    pub fn new(id: Iri) -> (r: Ontology)
        ensures
            r.wf(),
            r@ == (OntologyView {
                id: id@,
                label: None,
                classes: Seq::empty(),
                properties: Seq::empty(),
                individuals: Seq::empty(),
            }),
    {
        let r = Ontology {
            id,
            label: None,
            classes: Vec::new(),
            properties: Vec::new(),
            individuals: Vec::new(),
        };
        assert(r@.classes =~= Seq::<ClassView>::empty());
        assert(r@.properties =~= Seq::<PropertyView>::empty());
        assert(r@.individuals =~= Seq::<IndividualView>::empty());
        r
    }

    /// Sets the label.
    pub fn with_label(self, label: &str) -> (r: Ontology)
        ensures
            r@ == (OntologyView { label: Some(label@), ..self@ }),
    {
        let mut r = self;
        r.label = Some(label.to_owned());
        r
    }

    /// Adds a class unless one with its identifier is present.
    pub fn add_class(&mut self, class: Class) -> (r: Result<(), OntologyError>)
        requires
            old(self).wf(),
            class.wf(),
        ensures
            final(self).wf(),
            old(self)@.class_map().contains_key(class@.id) ==> (r matches Err(
                OntologyError::DuplicateClass(c),
            ) && c@ == class@.id),
            !old(self)@.class_map().contains_key(class@.id) ==> r is Ok,
            r is Ok ==> final(self)@ == (OntologyView { classes: final(self)@.classes, ..old(self)@ })
                && final(self)@.class_map() == old(self)@.class_map().insert(class@.id, class@),
            r is Err ==> final(self)@ == old(self)@,
    {
        proof {
            self.lemma_views();
        }
        let ghost cv = class@;
        let ghost old_classes = self.classes@;
        match locate(&self.classes, class.key_str()) {
            Ok(_) => Err(OntologyError::DuplicateClass(class.id.clone())),
            Err(p) => {
                self.classes.insert(p, class);
                proof {
                    let ov = old_classes.map_values(|c: Class| c@);
                    assert(self@.classes =~= ov.insert(p as int, cv));
                    assert forall|j: int| 0 <= j < p implies crate::iri::iri_lt(
                        #[trigger] ov[j].key(),
                        cv.key(),
                    ) by {
                        assert(ov[j].key() == old_classes[j].key());
                    }
                    assert forall|j: int| p <= j < ov.len() implies crate::iri::iri_lt(
                        cv.key(),
                        #[trigger] ov[j].key(),
                    ) by {
                        assert(ov[j].key() == old_classes[j].key());
                    }
                    lemma_insert_at(ov, p as int, cv);
                    assert forall|i: int| 0 <= i < self@.classes.len() implies (
                    #[trigger] self@.classes[i]).wf() by {
                        if i < p {
                            assert(self@.classes[i] == ov[i]);
                        } else if i > p {
                            assert(self@.classes[i] == ov[i - 1]);
                        }
                    }
                }
                Ok(())
            },
        }
    }

    /// Adds a property unless one with its identifier is present, after checking
    /// that every class it names in its domains and ranges is present.
    pub fn add_property(&mut self, property: Property) -> (r: Result<(), OntologyError>)
        requires
            old(self).wf(),
            property.wf(),
        ensures
            final(self).wf(),
            old(self)@.property_map().contains_key(property@.id) ==> (r matches Err(
                OntologyError::DuplicateProperty(x),
            ) && x@ == property@.id),
            (!old(self)@.property_map().contains_key(property@.id) && old(self)@.missing_class_for(
                property@,
            ) is Some) ==> (r matches Err(OntologyError::MissingClass { ontology, class })
                && ontology@ == old(self)@.id && Some(class@) == old(self)@.missing_class_for(
                property@,
            )),
            (!old(self)@.property_map().contains_key(property@.id) && old(self)@.missing_class_for(
                property@,
            ) is None) ==> r is Ok,
            r is Ok ==> final(self)@ == (OntologyView {
                properties: final(self)@.properties,
                ..old(self)@
            }) && final(self)@.property_map() == old(self)@.property_map().insert(
                property@.id,
                property@,
            ),
            r is Err ==> final(self)@ == old(self)@,
    {
        proof {
            self.lemma_views();
        }
        let ghost pv = property@;
        let ghost old_props = self.properties@;
        let p = match locate(&self.properties, property.key_str()) {
            Ok(_) => {
                return Err(OntologyError::DuplicateProperty(property.id.clone()));
            },
            Err(p) => p,
        };
        if let Some(i) = first_unknown(&self.classes, &property.domains) {
            return Err(
                OntologyError::MissingClass {
                    ontology: self.id.clone(),
                    class: property.domains[i].clone(),
                },
            );
        }
        if let Some(i) = first_unknown(&self.classes, &property.ranges) {
            return Err(
                OntologyError::MissingClass {
                    ontology: self.id.clone(),
                    class: property.ranges[i].clone(),
                },
            );
        }
        self.properties.insert(p, property);
        proof {
            let ov = old_props.map_values(|q: Property| q@);
            assert(self@.properties =~= ov.insert(p as int, pv));
            assert forall|j: int| 0 <= j < p implies crate::iri::iri_lt(
                #[trigger] ov[j].key(),
                pv.key(),
            ) by {
                assert(ov[j].key() == old_props[j].key());
            }
            assert forall|j: int| p <= j < ov.len() implies crate::iri::iri_lt(
                pv.key(),
                #[trigger] ov[j].key(),
            ) by {
                assert(ov[j].key() == old_props[j].key());
            }
            lemma_insert_at(ov, p as int, pv);
            assert forall|i: int| 0 <= i < self@.properties.len() implies (
            #[trigger] self@.properties[i]).wf() by {
                if i < p {
                    assert(self@.properties[i] == ov[i]);
                } else if i > p {
                    assert(self@.properties[i] == ov[i - 1]);
                }
            }
        }
        Ok(())
    }

    /// Finds the first entry of assertions that names an unknown property or holds
    /// an assertion that does not fit its property's kind.
    fn check_assertions(&self, entries: &Vec<AssertionEntry>) -> (r: Option<(usize, bool)>)
        requires
            self.wf(),
        ensures
            r matches Some((i, missing)) ==> i < entries.len() && first_bad_entry(
                self@.property_map(),
                entries_view(entries@),
            ) == Some((entries@[i as int].0@, missing)),
            r is None ==> first_bad_entry(self@.property_map(), entries_view(entries@)) is None,
    {
        proof {
            self.lemma_views();
        }
        let ghost ents = entries_view(entries@);
        let ghost pm = self@.property_map();
        let mut i: usize = 0;
        assert(ents.skip(0) =~= ents);
        while i < entries.len()
            invariant
                self.wf(),
                ents == entries_view(entries@),
                pm == self@.property_map(),
                sorted_keys(self.properties@),
                id_set(self.properties@) == pm.dom(),
                i <= entries.len(),
                first_bad_entry(pm, ents) == first_bad_entry(pm, ents.skip(i as int)),
            decreases entries.len() - i,
        {
            assert(ents.skip(i as int)[0] == ents[i as int]);
            assert(ents[i as int].0 == entries@[i as int].0);
            assert(ents[i as int].1 == entries@[i as int].1@);
            let pi = match locate(&self.properties, entries[i].0.as_str()) {
                Ok(pi) => pi,
                Err(_) => {
                    assert(!id_set(self.properties@).contains(entries@[i as int].0@));
                    return Some((i, true));
                },
            };
            proof {
                lemma_key_map_at(self@.properties, pi as int);
            }
            let kind = self.properties[pi].kind;
            let vals = &entries[i].1;
            assert(self@.properties[pi as int] == self.properties@[pi as int]@);
            let ghost k = entries@[i as int].0@;
            assert(kind == pm[k].kind);
            let mut j: usize = 0;
            while j < vals.len()
                invariant
                    j <= vals.len(),
                    i < entries.len(),
                    ents == entries_view(entries@),
                    first_bad_entry(pm, ents) == first_bad_entry(pm, ents.skip(i as int)),
                    ents.skip(i as int)[0] == ents[i as int],
                    k == ents[i as int].0@,
                    k == entries@[i as int].0@,
                    pm == self@.property_map(),
                    pm.contains_key(k),
                    kind == pm[k].kind,
                    vals@ == ents[i as int].1,
                    forall|jj: int| 0 <= jj < j ==> fits_kind(kind, #[trigger] vals@[jj]),
                decreases vals.len() - j,
            {
                let fits = match (kind, &vals[j]) {
                    (PropertyKind::Object, PropertyAssertion::Individual(_)) => true,
                    (PropertyKind::Data, PropertyAssertion::Literal(_)) => true,
                    _ => false,
                };
                if !fits {
                    assert(!fits_kind(kind, vals@[j as int]));
                    assert(!all_fit(pm[k].kind, ents[i as int].1));
                    let ghost rest = ents.skip(i as int);
                    assert(rest.len() > 0 && rest[0].0@ == k);
                    assert(first_bad_entry(pm, rest) == Some((k, false)));
                    return Some((i, false));
                }
                j = j + 1;
            }
            assert(all_fit(pm[k].kind, ents[i as int].1));
            assert(ents.skip(i as int).drop_first() =~= ents.skip(i + 1));
            i = i + 1;
        }
        None
    }

    /// Adds an individual unless one with its identifier is present, after checking
    /// its types, then each of its entries of assertions in property order.
    pub fn add_individual(&mut self, individual: Individual) -> (r: Result<(), OntologyError>)
        requires
            old(self).wf(),
            individual.wf(),
        ensures
            final(self).wf(),
            old(self)@.individual_map().contains_key(individual@.id) ==> (r matches Err(
                OntologyError::DuplicateIndividual(x),
            ) && x@ == individual@.id),
            (!old(self)@.individual_map().contains_key(individual@.id) && first_missing(
                old(self)@.class_map().dom(),
                individual@.types,
            ) is Some) ==> (r matches Err(OntologyError::MissingClass { ontology, class })
                && ontology@ == old(self)@.id && Some(class@) == first_missing(
                old(self)@.class_map().dom(),
                individual@.types,
            )),
            (!old(self)@.individual_map().contains_key(individual@.id) && first_missing(
                old(self)@.class_map().dom(),
                individual@.types,
            ) is None && first_bad_entry(old(self)@.property_map(), individual@.properties)
                matches Some((_, true))) ==> (r matches Err(
                OntologyError::MissingProperty { ontology, property },
            ) && ontology@ == old(self)@.id && Some((property@, true)) == first_bad_entry(
                old(self)@.property_map(),
                individual@.properties,
            )),
            (!old(self)@.individual_map().contains_key(individual@.id) && first_missing(
                old(self)@.class_map().dom(),
                individual@.types,
            ) is None && first_bad_entry(old(self)@.property_map(), individual@.properties)
                matches Some((_, false))) ==> (r matches Err(
                OntologyError::InvalidPropertyAssertion { ontology, property },
            ) && ontology@ == old(self)@.id && Some((property@, false)) == first_bad_entry(
                old(self)@.property_map(),
                individual@.properties,
            )),
            (!old(self)@.individual_map().contains_key(individual@.id) && first_missing(
                old(self)@.class_map().dom(),
                individual@.types,
            ) is None && first_bad_entry(old(self)@.property_map(), individual@.properties)
                is None) ==> r is Ok,
            r is Ok ==> final(self)@ == (OntologyView {
                individuals: final(self)@.individuals,
                ..old(self)@
            }) && final(self)@.individual_map() == old(self)@.individual_map().insert(
                individual@.id,
                individual@,
            ),
            r is Err ==> final(self)@ == old(self)@,
    {
        proof {
            self.lemma_views();
        }
        let ghost iv = individual@;
        let ghost old_inds = self.individuals@;
        let p = match locate(&self.individuals, individual.key_str()) {
            Ok(_) => {
                return Err(OntologyError::DuplicateIndividual(individual.id.clone()));
            },
            Err(p) => p,
        };
        if let Some(i) = first_unknown(&self.classes, &individual.types) {
            return Err(
                OntologyError::MissingClass {
                    ontology: self.id.clone(),
                    class: individual.types[i].clone(),
                },
            );
        }
        if let Some((i, missing)) = self.check_assertions(&individual.properties) {
            let property = individual.properties[i].0.clone();
            if missing {
                return Err(OntologyError::MissingProperty { ontology: self.id.clone(), property });
            } else {
                return Err(
                    OntologyError::InvalidPropertyAssertion { ontology: self.id.clone(), property },
                );
            }
        }
        self.individuals.insert(p, individual);
        proof {
            let ov = old_inds.map_values(|q: Individual| q@);
            assert(self@.individuals =~= ov.insert(p as int, iv));
            assert forall|j: int| 0 <= j < p implies crate::iri::iri_lt(
                #[trigger] ov[j].key(),
                iv.key(),
            ) by {
                assert(ov[j].key() == old_inds[j].key());
            }
            assert forall|j: int| p <= j < ov.len() implies crate::iri::iri_lt(
                iv.key(),
                #[trigger] ov[j].key(),
            ) by {
                assert(ov[j].key() == old_inds[j].key());
            }
            lemma_insert_at(ov, p as int, iv);
            assert forall|i: int| 0 <= i < self@.individuals.len() implies (
            #[trigger] self@.individuals[i]).wf() by {
                if i < p {
                    assert(self@.individuals[i] == ov[i]);
                } else if i > p {
                    assert(self@.individuals[i] == ov[i - 1]);
                }
            }
        }
        Ok(())
    }

    pub fn id(&self) -> (r: &Iri)
        ensures
            r@ == self@.id,
    {
        &self.id
    }

    pub fn label(&self) -> (r: Option<&str>)
        ensures
            opt_str_view(r) == self@.label,
    {
        opt_as_str(&self.label)
    }

    /// The class filed under `id`, if any.
    pub fn class(&self, id: &Iri) -> (r: Option<&Class>)
        requires
            self.wf(),
        ensures
            r is Some == self@.class_map().contains_key(id@),
            r matches Some(c) ==> c@ == self@.class_map()[id@],
    {
        proof {
            self.lemma_views();
        }
        match locate(&self.classes, id.as_str()) {
            Ok(i) => {
                proof {
                    lemma_key_map_at(self@.classes, i as int);
                }
                Some(&self.classes[i])
            },
            Err(_) => None,
        }
    }

    /// The property filed under `id`, if any.
    pub fn property(&self, id: &Iri) -> (r: Option<&Property>)
        requires
            self.wf(),
        ensures
            r is Some == self@.property_map().contains_key(id@),
            r matches Some(p) ==> p@ == self@.property_map()[id@],
    {
        proof {
            self.lemma_views();
        }
        match locate(&self.properties, id.as_str()) {
            Ok(i) => {
                proof {
                    lemma_key_map_at(self@.properties, i as int);
                }
                Some(&self.properties[i])
            },
            Err(_) => None,
        }
    }

    /// The individual filed under `id`, if any.
    pub fn individual(&self, id: &Iri) -> (r: Option<&Individual>)
        requires
            self.wf(),
        ensures
            r is Some == self@.individual_map().contains_key(id@),
            r matches Some(i) ==> i@ == self@.individual_map()[id@],
    {
        proof {
            self.lemma_views();
        }
        match locate(&self.individuals, id.as_str()) {
            Ok(i) => {
                proof {
                    lemma_key_map_at(self@.individuals, i as int);
                }
                Some(&self.individuals[i])
            },
            Err(_) => None,
        }
    }

    /// All classes in identifier order.
    pub fn classes(&self) -> (r: &Vec<Class>)
        ensures
            r@.map_values(|c: Class| c@) == self@.classes,
    {
        &self.classes
    }

    /// All properties in identifier order.
    pub fn properties(&self) -> (r: &Vec<Property>)
        ensures
            r@.map_values(|p: Property| p@) == self@.properties,
    {
        &self.properties
    }

    /// All individuals in identifier order.
    pub fn individuals(&self) -> (r: &Vec<Individual>)
        ensures
            r@.map_values(|i: Individual| i@) == self@.individuals,
    {
        &self.individuals
    }
}

impl Clone for Ontology {
    fn clone(&self) -> (r: Ontology)
        ensures
            r@ == self@,
    {
        let mut classes: Vec<Class> = Vec::new();
        let mut i: usize = 0;
        while i < self.classes.len()
            invariant
                i <= self.classes.len(),
                classes@.map_values(|c: Class| c@) == self@.classes.subrange(0, i as int),
            decreases self.classes.len() - i,
        {
            let c = self.classes[i].clone();
            let ghost prev = classes@;
            classes.push(c);
            assert(classes@.map_values(|c: Class| c@) =~= prev.map_values(|c: Class| c@).push(c@));
            i = i + 1;
            assert(classes@.map_values(|c: Class| c@) =~= self@.classes.subrange(0, i as int));
        }
        let mut properties: Vec<Property> = Vec::new();
        let mut i: usize = 0;
        while i < self.properties.len()
            invariant
                i <= self.properties.len(),
                properties@.map_values(|p: Property| p@) == self@.properties.subrange(0, i as int),
            decreases self.properties.len() - i,
        {
            let p = self.properties[i].clone();
            let ghost prev = properties@;
            properties.push(p);
            assert(properties@.map_values(|p: Property| p@) =~= prev.map_values(|p: Property| p@).push(p@));
            i = i + 1;
            assert(properties@.map_values(|p: Property| p@) =~= self@.properties.subrange(0, i as int));
        }
        let mut individuals: Vec<Individual> = Vec::new();
        let mut i: usize = 0;
        while i < self.individuals.len()
            invariant
                i <= self.individuals.len(),
                individuals@.map_values(|d: Individual| d@) == self@.individuals.subrange(0, i as int),
            decreases self.individuals.len() - i,
        {
            let d = self.individuals[i].clone();
            let ghost prev = individuals@;
            individuals.push(d);
            assert(individuals@.map_values(|d: Individual| d@) =~= prev.map_values(|d: Individual| d@).push(d@));
            i = i + 1;
            assert(individuals@.map_values(|d: Individual| d@) =~= self@.individuals.subrange(0, i as int));
        }
        let r = Ontology {
            id: self.id.clone(),
            label: clone_opt(&self.label),
            classes,
            properties,
            individuals,
        };
        assert(r@.classes =~= self@.classes);
        assert(r@.properties =~= self@.properties);
        assert(r@.individuals =~= self@.individuals);
        r
    }
}

} // verus!
