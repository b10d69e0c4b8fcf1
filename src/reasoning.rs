//! What the reasoning queries compute, stated over ontology views.
use vstd::prelude::*;

use crate::entities::{id_set, OntologyView, PropertyAssertion, PropertyKind};
use crate::iri::Iri;
use crate::keyed::{sorted_keys, Keyed};

verus! {

/// `b` is a declared parent of the class `a`.
pub open spec fn parent_edge(o: OntologyView, a: Seq<char>, b: Seq<char>) -> bool {
    o.class_map().contains_key(a) && id_set(o.class_map()[a].parents).contains(b)
}

/// Each element of `path` is a declared parent of the one before it.
pub open spec fn is_parent_chain(o: OntologyView, path: Seq<Seq<char>>) -> bool {
    forall|i: int| 0 <= i < path.len() - 1 ==> parent_edge(o, #[trigger] path[i], path[i + 1])
}

/// `a` is reached from the class `c` by following declared parents one or more times.
pub open spec fn is_ancestor(o: OntologyView, c: Seq<char>, a: Seq<char>) -> bool {
    exists|path: Seq<Seq<char>>|
        path.len() >= 2 && path[0] == c && path.last() == a && #[trigger] is_parent_chain(o, path)
}

/// The classes that declare `c` among their parents.
pub open spec fn is_child(o: OntologyView, c: Seq<char>, d: Seq<char>) -> bool {
    parent_edge(o, d, c)
}

/// The identifiers of a sequence of identifiers.
pub open spec fn texts(s: Seq<Iri>) -> Seq<Seq<char>> {
    s.map_values(|x: Iri| x@)
}

/// The targets of the assertions that name individuals, in order.
pub open spec fn object_targets(values: Seq<PropertyAssertion>) -> Seq<Seq<char>>
    decreases values.len(),
{
    if values.len() == 0 {
        Seq::empty()
    } else {
        let rest = object_targets(values.drop_last());
        match values.last() {
            PropertyAssertion::Individual(t) => rest.push(t@),
            PropertyAssertion::Literal(_) => rest,
        }
    }
}

/// The assertion names the individual `b`.
pub open spec fn names_individual(a: PropertyAssertion, b: Seq<char>) -> bool {
    match a {
        PropertyAssertion::Individual(t) => t@ == b,
        PropertyAssertion::Literal(_) => false,
    }
}

/// An object property of `o` under which the individual `a` asserts the individual `b`.
pub open spec fn object_edge(o: OntologyView, a: Seq<char>, b: Seq<char>) -> bool {
    o.individual_map().contains_key(a) && exists|k: Seq<char>, j: int|
        #![trigger o.individual_map()[a].values(k)[j]]
        o.property_map().contains_key(k) && o.property_map()[k].kind == PropertyKind::Object && 0
            <= j < o.individual_map()[a].values(k).len() && names_individual(
            o.individual_map()[a].values(k)[j],
            b,
        )
}

/// Each element of `path` is asserted by the one before it under an object property.
pub open spec fn is_walk(o: OntologyView, path: Seq<Seq<char>>) -> bool {
    forall|i: int| 0 <= i < path.len() - 1 ==> object_edge(o, #[trigger] path[i], path[i + 1])
}

/// A walk leads from `s` to `e`.
pub open spec fn connects(o: OntologyView, s: Seq<char>, e: Seq<char>) -> bool {
    exists|path: Seq<Seq<char>>|
        path.len() >= 1 && path[0] == s && path.last() == e && #[trigger] is_walk(o, path)
}

/// The identifiers in `v` increase strictly, so each stands once.
pub open spec fn sorted_ids(v: Seq<Iri>) -> bool {
    sorted_keys(v)
}

pub proof fn lemma_ancestor_first(o: OntologyView, c: Seq<char>, b: Seq<char>)
    requires
        parent_edge(o, c, b),
    ensures
        is_ancestor(o, c, b),
{
    let path = seq![c, b];
    assert(is_parent_chain(o, path));
}

pub proof fn lemma_ancestor_step(o: OntologyView, c: Seq<char>, a: Seq<char>, b: Seq<char>)
    requires
        is_ancestor(o, c, a),
        parent_edge(o, a, b),
    ensures
        is_ancestor(o, c, b),
{
    let path = choose|path: Seq<Seq<char>>|
        path.len() >= 2 && path[0] == c && path.last() == a && #[trigger] is_parent_chain(o, path);
    let longer = path.push(b);
    assert forall|i: int| 0 <= i < longer.len() - 1 implies parent_edge(
        o,
        #[trigger] longer[i],
        longer[i + 1],
    ) by {
        if i < path.len() - 1 {
            assert(parent_edge(o, path[i], path[i + 1]));
        }
    }
    assert(is_parent_chain(o, longer));
}

/// A set that holds the parents of `c` and the parents of each class in it holds
/// every ancestor of `c`.
pub proof fn lemma_closed_holds_ancestors(o: OntologyView, c: Seq<char>, found: Set<Seq<char>>, a: Seq<char>)
    requires
        forall|b: Seq<char>| parent_edge(o, c, b) ==> found.contains(b),
        forall|x: Seq<char>, b: Seq<char>| found.contains(x) && parent_edge(o, x, b) ==> found.contains(b),
        is_ancestor(o, c, a),
    ensures
        found.contains(a),
{
    let path = choose|path: Seq<Seq<char>>|
        path.len() >= 2 && path[0] == c && path.last() == a && #[trigger] is_parent_chain(o, path);
    lemma_chain_found(o, c, found, path, path.len() - 1);
}

proof fn lemma_chain_found(o: OntologyView, c: Seq<char>, found: Set<Seq<char>>, path: Seq<Seq<char>>, i: int)
    requires
        forall|b: Seq<char>| parent_edge(o, c, b) ==> found.contains(b),
        forall|x: Seq<char>, b: Seq<char>| found.contains(x) && parent_edge(o, x, b) ==> found.contains(b),
        path.len() >= 2,
        path[0] == c,
        is_parent_chain(o, path),
        1 <= i < path.len(),
    ensures
        found.contains(path[i]),
    decreases i,
{
    assert(parent_edge(o, path[i - 1], path[i]));
    if i > 1 {
        lemma_chain_found(o, c, found, path, i - 1);
    }
}

pub proof fn lemma_walk_step(o: OntologyView, s: Seq<char>, path: Seq<Seq<char>>, b: Seq<char>)
    requires
        path.len() >= 1,
        path[0] == s,
        is_walk(o, path),
        object_edge(o, path.last(), b),
    ensures
        is_walk(o, path.push(b)),
        path.push(b)[0] == s,
        path.push(b).last() == b,
{
    let longer = path.push(b);
    assert forall|i: int| 0 <= i < longer.len() - 1 implies object_edge(
        o,
        #[trigger] longer[i],
        longer[i + 1],
    ) by {
        if i < path.len() - 1 {
            assert(object_edge(o, path[i], path[i + 1]));
        }
    }
}

/// A set of individuals that holds `s` and every individual that any of its
/// members asserts under an object property holds every individual that `s`
/// connects to.
pub proof fn lemma_closed_holds_walks(o: OntologyView, s: Seq<char>, found: Set<Seq<char>>, e: Seq<char>)
    requires
        found.contains(s),
        forall|x: Seq<char>, b: Seq<char>|
            found.contains(x) && object_edge(o, x, b) && o.individual_map().contains_key(b)
                ==> found.contains(b),
        o.individual_map().contains_key(e),
        connects(o, s, e),
    ensures
        found.contains(e),
{
    let path = choose|path: Seq<Seq<char>>|
        path.len() >= 1 && path[0] == s && path.last() == e && #[trigger] is_walk(o, path);
    lemma_walk_found(o, s, found, path, path.len() - 1);
}

proof fn lemma_walk_found(o: OntologyView, s: Seq<char>, found: Set<Seq<char>>, path: Seq<Seq<char>>, i: int)
    requires
        found.contains(s),
        forall|x: Seq<char>, b: Seq<char>|
            found.contains(x) && object_edge(o, x, b) && o.individual_map().contains_key(b)
                ==> found.contains(b),
        o.individual_map().contains_key(path.last()),
        path.len() >= 1,
        path[0] == s,
        is_walk(o, path),
        0 <= i < path.len(),
    ensures
        found.contains(path[i]),
    decreases i,
{
    if i > 0 {
        lemma_walk_found(o, s, found, path, i - 1);
        assert(object_edge(o, path[i - 1], path[i]));
        if i < path.len() - 1 {
            assert(object_edge(o, path[i], path[i + 1]));
        }
    }
}

} // verus!
