//! The reasoner over the in-memory store: class hierarchy closure, direct
//! children, related individuals and breadth-first paths between individuals.
use vstd::prelude::*;

use crate::config::{InferenceSettings, ReasonerSettings};
use crate::entities::{
    entries_view, id_set, AssertionEntryView, Class, Ontology, OntologyError, OntologyView,
    PropertyAssertion, PropertyKind,
};
use crate::iri::Iri;
use crate::keyed::{
    insert_keyed, lemma_distinct_keys_bounded, lemma_key_map_all, lemma_key_map_at, lookup,
    sorted_keys, Keyed,
};
use crate::reasoning::{
    connects, is_ancestor, is_child, is_walk, lemma_ancestor_first, lemma_ancestor_step,
    lemma_closed_holds_ancestors, lemma_closed_holds_walks, lemma_walk_step, names_individual,
    object_edge, object_targets, parent_edge, texts,
};
use crate::repositories::ReasoningQuery;
use crate::store::{OntologyServiceError, OntologyStore};

verus! {

/// The work list of a traversal: distinct classes of `o`, each already found,
/// and every class found so far is on it.
pub open spec fn queue_ok(o: OntologyView, found: Seq<Iri>, queue: Seq<Iri>) -> bool {
    &&& texts(queue).no_duplicates()
    &&& forall|q: int|
        0 <= q < queue.len() ==> id_set(found).contains(#[trigger] queue[q]@)
            && o.class_map().contains_key(queue[q]@)
    &&& forall|x: Seq<char>|
        id_set(found).contains(x) && o.class_map().contains_key(x) ==> #[trigger] texts(
            queue,
        ).contains(x)
}

/// Adds each identifier of `ps` to `found`, and puts those that are new and name
/// classes of `o` on the work list.
fn absorb(o: &Ontology, ps: &Vec<Iri>, found: &mut Vec<Iri>, queue: &mut Vec<Iri>)
    requires
        o.wf(),
        sorted_keys(old(found)@),
        queue_ok(o@, old(found)@, old(queue)@),
    ensures
        sorted_keys(final(found)@),
        queue_ok(o@, final(found)@, final(queue)@),
        old(queue)@.len() <= final(queue)@.len(),
        final(queue)@.subrange(0, old(queue)@.len() as int) == old(queue)@,
        forall|k: Seq<char>|
            #[trigger] id_set(final(found)@).contains(k) <==> (id_set(old(found)@).contains(k)
                || id_set(ps@).contains(k)),
{
    let ghost found0 = found@;
    let ghost queue0 = queue@;
    let mut j: usize = 0;
    while j < ps.len()
        invariant
            o.wf(),
            j <= ps.len(),
            sorted_keys(found@),
            queue_ok(o@, found@, queue@),
            queue0.len() <= queue@.len(),
            queue@.subrange(0, queue0.len() as int) == queue0,
            forall|k: Seq<char>|
                #[trigger] id_set(found@).contains(k) <==> (id_set(found0).contains(k) || exists|
                    jj: int,
                | 0 <= jj < j && #[trigger] ps@[jj]@ == k),
        decreases ps.len() - j,
    {
        let p = &ps[j];
        let ghost f_before = found@;
        let ghost q_before = queue@;
        if insert_keyed(found, p.clone()) {
            if o.class(p).is_some() {
                queue.push(p.clone());
                proof {
                    assert(!texts(q_before).contains(p@));
                    assert(texts(queue@) =~= texts(q_before).push(p@));
                    assert forall|a: int, b: int|
                        0 <= a < b < texts(queue@).len() implies texts(queue@)[a] != texts(
                            queue@,
                        )[b] by {
                        if b == q_before.len() {
                            assert(texts(q_before)[a] == texts(queue@)[a]);
                        } else {
                            assert(texts(q_before)[a] != texts(q_before)[b]);
                        }
                    }
                }
            }
        }
        proof {
            assert(queue@.subrange(0, queue0.len() as int) =~= queue0);
            assert forall|q: int| 0 <= q < queue@.len() implies id_set(found@).contains(
                #[trigger] queue@[q]@,
            ) && o@.class_map().contains_key(queue@[q]@) by {
                if q < q_before.len() {
                    assert(queue@[q] == q_before[q]);
                }
            }
            assert forall|x: Seq<char>|
                id_set(found@).contains(x) && o@.class_map().contains_key(x) implies #[trigger] texts(
                queue@,
            ).contains(x) by {
                if x == p@ && !id_set(f_before).contains(x) {
                    assert(texts(queue@)[q_before.len() as int] == x);
                } else {
                    assert(texts(q_before).contains(x));
                    let q = choose|q: int| 0 <= q < q_before.len() && texts(q_before)[q] == x;
                    assert(texts(queue@)[q] == x);
                }
            }
            assert forall|k: Seq<char>|
                #[trigger] id_set(found@).contains(k) <==> (id_set(found0).contains(k) || exists|
                    jj: int,
                | 0 <= jj < j + 1 && #[trigger] ps@[jj]@ == k) by {
                if k == p@ {
                    assert(ps@[j as int]@ == k);
                }
            }
        }
        j = j + 1;
    }
    proof {
        assert forall|k: Seq<char>|
            #[trigger] id_set(found@).contains(k) <==> (id_set(found0).contains(k) || id_set(
                ps@,
            ).contains(k)) by {
            if id_set(ps@).contains(k) {
                let jj = crate::keyed::index_of_key(ps@, k);
                assert(ps@[jj]@ == k);
            }
            if exists|jj: int| 0 <= jj < ps.len() && #[trigger] ps@[jj]@ == k {
                let jj = choose|jj: int| 0 <= jj < ps.len() && #[trigger] ps@[jj]@ == k;
                assert(ps@[jj].key() == k);
            }
        }
    }
}

/// Every class reached from `start` by following declared parents one or more
/// times, in identifier order.
pub fn collect_ancestors(o: &Ontology, start: &Class) -> (r: Vec<Iri>)
    requires
        o.wf(),
        o@.class_map().contains_key(start@.id),
        o@.class_map()[start@.id] == start@,
    ensures
        sorted_keys(r@),
        forall|a: Seq<char>| #[trigger] id_set(r@).contains(a) <==> is_ancestor(o@, start@.id, a),
{
    let ghost ov = o@;
    let ghost c = start@.id;
    let mut found: Vec<Iri> = Vec::new();
    let mut queue: Vec<Iri> = Vec::new();
    proof {
        assert(id_set(found@) =~= Set::<Seq<char>>::empty());
        assert(texts(queue@) =~= Seq::<Seq<char>>::empty());
    }
    absorb(o, start.parents(), &mut found, &mut queue);
    proof {
        assert forall|a: Seq<char>| id_set(found@).contains(a) implies is_ancestor(ov, c, a) by {
            lemma_ancestor_first(ov, c, a);
        }
        lemma_distinct_keys_bounded(texts(queue@), ov.classes);
    }
    let mut head: usize = 0;
    while head < queue.len()
        invariant
            o.wf(),
            ov == o@,
            ov.class_map().contains_key(c),
            sorted_keys(found@),
            queue_ok(ov, found@, queue@),
            head <= queue.len() <= ov.classes.len(),
            forall|a: Seq<char>| id_set(found@).contains(a) ==> is_ancestor(ov, c, a),
            forall|b: Seq<char>| parent_edge(ov, c, b) ==> #[trigger] id_set(found@).contains(b),
            forall|q: int, b: Seq<char>|
                0 <= q < head && #[trigger] parent_edge(ov, queue@[q]@, b) ==> id_set(
                    found@,
                ).contains(b),
        decreases ov.classes.len() - head,
    {
        let cur = queue[head].clone();
        let ghost f_before = found@;
        let ghost q_before = queue@;
        match o.class(&cur) {
            Some(cls) => {
                absorb(o, cls.parents(), &mut found, &mut queue);
                proof {
                    assert(queue@[head as int] == q_before[head as int]);
                    assert forall|a: Seq<char>| id_set(found@).contains(a) implies is_ancestor(
                        ov,
                        c,
                        a,
                    ) by {
                        if !id_set(f_before).contains(a) {
                            lemma_ancestor_step(ov, c, cur@, a);
                        }
                    }
                    assert forall|q: int, b: Seq<char>|
                        0 <= q < head + 1 && #[trigger] parent_edge(ov, queue@[q]@, b) implies id_set(
                        found@,
                    ).contains(b) by {
                        assert(queue@[q] == q_before[q]);
                    }
                    lemma_distinct_keys_bounded(texts(queue@), ov.classes);
                }
            },
            None => {
                assert(false);
            },
        }
        head = head + 1;
    }
    proof {
        assert forall|x: Seq<char>, b: Seq<char>|
            id_set(found@).contains(x) && parent_edge(ov, x, b) implies id_set(found@).contains(b) by {
            assert(texts(queue@).contains(x));
            let q = choose|q: int| 0 <= q < queue@.len() && texts(queue@)[q] == x;
            assert(queue@[q]@ == x);
        }
        assert forall|a: Seq<char>| is_ancestor(ov, c, a) implies #[trigger] id_set(found@).contains(a) by {
            lemma_closed_holds_ancestors(ov, c, id_set(found@), a);
        }
    }
    found
}

/// The classes of `o` that declare `c` as a direct parent, in identifier order.
pub fn collect_children(o: &Ontology, c: &Iri) -> (r: Vec<Iri>)
    requires
        o.wf(),
    ensures
        sorted_keys(r@),
        forall|d: Seq<char>| #[trigger] id_set(r@).contains(d) <==> is_child(o@, c@, d),
{
    let ghost ov = o@;
    let classes = o.classes();
    let mut out: Vec<Iri> = Vec::new();
    let mut i: usize = 0;
    proof {
        lemma_key_map_all(ov.classes);
    }
    while i < classes.len()
        invariant
            ov == o@,
            o.wf(),
            classes@.map_values(|x: Class| x@) == ov.classes,
            i <= classes.len(),
            sorted_keys(out@),
            forall|k: int, j: int|
                0 <= k < out.len() && i <= j < classes.len() ==> crate::iri::iri_lt(
                    #[trigger] out@[k]@,
                    #[trigger] ov.classes[j].id,
                ),
            forall|d: Seq<char>|
                #[trigger] id_set(out@).contains(d) <==> exists|j: int|
                    0 <= j < i && #[trigger] ov.classes[j].id == d && id_set(
                        ov.classes[j].parents,
                    ).contains(c@),
        decreases classes.len() - i,
    {
        let cls = &classes[i];
        assert(cls@ == ov.classes[i as int]);
        let ghost before = out@;
        if lookup(cls.parents(), c).is_some() {
            out.push(cls.id().clone());
            proof {
                assert forall|a: int, b: int| 0 <= a < b < out@.len() implies crate::iri::iri_lt(
                    #[trigger] out@[a].key(),
                    #[trigger] out@[b].key(),
                ) by {
                    if b == before.len() {
                        assert(out@[a] == before[a]);
                    }
                }
                assert forall|k: int, j: int|
                    0 <= k < out.len() && i + 1 <= j < classes.len() implies crate::iri::iri_lt(
                    #[trigger] out@[k]@,
                    #[trigger] ov.classes[j].id,
                ) by {
                    if k == before.len() {
                        assert(crate::iri::iri_lt(ov.classes[i as int].key(), ov.classes[j].key()));
                    } else {
                        assert(out@[k] == before[k]);
                    }
                }
            }
        }
        proof {
            assert forall|d: Seq<char>|
                #[trigger] id_set(out@).contains(d) <==> exists|j: int|
                    0 <= j < i + 1 && #[trigger] ov.classes[j].id == d && id_set(
                        ov.classes[j].parents,
                    ).contains(c@) by {
                if id_set(out@).contains(d) {
                    let k = crate::keyed::index_of_key(out@, d);
                    if k < before.len() {
                        assert(before[k].key() == d);
                        assert(id_set(before).contains(d));
                    } else {
                        assert(ov.classes[i as int].id == d);
                    }
                }
                if exists|j: int|
                    0 <= j < i + 1 && #[trigger] ov.classes[j].id == d && id_set(
                        ov.classes[j].parents,
                    ).contains(c@) {
                    let j = choose|j: int|
                        0 <= j < i + 1 && #[trigger] ov.classes[j].id == d && id_set(
                            ov.classes[j].parents,
                        ).contains(c@);
                    if j == i {
                        assert(out@[out@.len() - 1].key() == d);
                    } else {
                        assert(id_set(before).contains(d));
                        let k = crate::keyed::index_of_key(before, d);
                        assert(out@[k].key() == d);
                    }
                }
            }
        }
        i = i + 1;
    }
    proof {
        assert forall|d: Seq<char>| #[trigger] id_set(out@).contains(d) <==> is_child(ov, c@, d) by {
            if is_child(ov, c@, d) {
                let j = crate::keyed::index_of_key(ov.classes, d);
                assert(ov.classes[j].id == d);
            }
            if id_set(out@).contains(d) {
                let j = choose|j: int|
                    0 <= j < i && #[trigger] ov.classes[j].id == d && id_set(
                        ov.classes[j].parents,
                    ).contains(c@);
                assert(ov.class_map()[ov.classes[j].key()] == ov.classes[j]);
            }
        }
    }
    out
}

/// The targets of the assertions that name individuals, in order.
pub fn targets_of(values: &Vec<PropertyAssertion>) -> (r: Vec<Iri>)
    ensures
        texts(r@) == object_targets(values@),
{
    let mut out: Vec<Iri> = Vec::new();
    let mut j: usize = 0;
    assert(texts(out@) =~= object_targets(values@.subrange(0, 0)));
    while j < values.len()
        invariant
            j <= values.len(),
            texts(out@) == object_targets(values@.subrange(0, j as int)),
        decreases values.len() - j,
    {
        let ghost before = out@;
        assert(values@.subrange(0, j + 1).drop_last() =~= values@.subrange(0, j as int));
        match &values[j] {
            PropertyAssertion::Individual(t) => {
                out.push(t.clone());
                assert(texts(out@) =~= texts(before).push(t@));
            },
            PropertyAssertion::Literal(_) => {},
        }
        j = j + 1;
    }
    assert(values@.subrange(0, j as int) =~= values@);
    out
}

/// `p` is a walk from `s` to `x`.
pub open spec fn walk_to(o: OntologyView, s: Seq<char>, p: Seq<Seq<char>>, x: Seq<char>) -> bool {
    p.len() >= 1 && p[0] == s && p.last() == x && is_walk(o, p)
}

pub open spec fn path_texts(paths: Seq<Vec<Iri>>) -> Seq<Seq<Seq<char>>> {
    paths.map_values(|p: Vec<Iri>| texts(p@))
}

/// The state of a breadth-first search from `s`: `nodes` holds distinct
/// individuals of `o`, exactly those found, each with a walk to it from `s`.
pub open spec fn frontier_ok(
    o: OntologyView,
    s: Seq<char>,
    visited: Seq<Iri>,
    nodes: Seq<Iri>,
    paths: Seq<Seq<Seq<char>>>,
) -> bool {
    &&& sorted_keys(visited)
    &&& nodes.len() == paths.len()
    &&& texts(nodes).no_duplicates()
    &&& nodes.len() <= o.individuals.len()
    &&& forall|q: int|
        0 <= q < nodes.len() ==> id_set(visited).contains(#[trigger] nodes[q]@)
            && o.individual_map().contains_key(nodes[q]@) && walk_to(o, s, paths[q], nodes[q]@)
    &&& forall|x: Seq<char>| #[trigger] id_set(visited).contains(x) ==> texts(nodes).contains(x)
}

/// The lengths of the recorded walks never decrease along the work list, none
/// exceeds the one at `head` by more than one, and each is as short as any walk
/// to its node.
pub open spec fn bfs_levels(
    o: OntologyView,
    s: Seq<char>,
    nodes: Seq<Iri>,
    paths: Seq<Seq<Seq<char>>>,
    head: int,
) -> bool {
    &&& forall|a: int, b: int|
        0 <= a <= b < paths.len() ==> #[trigger] paths[a].len() <= #[trigger] paths[b].len()
    &&& (0 <= head < paths.len() ==> forall|q: int|
        0 <= q < paths.len() ==> #[trigger] paths[q].len() <= paths[head].len() + 1)
    &&& forall|q: int, w: Seq<Seq<char>>|
        0 <= q < nodes.len() && #[trigger] walk_to(o, s, w, nodes[q]@) ==> paths[q].len() <= w.len()
}

/// Every individual that a walk of at most `n` elements reaches from `s` has been found.
pub open spec fn found_within(o: OntologyView, s: Seq<char>, visited: Seq<Iri>, n: int) -> bool {
    forall|w: Seq<Seq<char>>, b: Seq<char>|
        #[trigger] walk_to(o, s, w, b) && o.individual_map().contains_key(b) && w.len() <= n
            ==> id_set(visited).contains(b)
}

proof fn lemma_walk_prefix(o: OntologyView, s: Seq<char>, w: Seq<Seq<char>>, b: Seq<char>)
    requires
        walk_to(o, s, w, b),
        w.len() >= 2,
    ensures
        walk_to(o, s, w.drop_last(), w[w.len() - 2]),
        object_edge(o, w[w.len() - 2], b),
        o.individual_map().contains_key(w[w.len() - 2]),
{
    let p = w.drop_last();
    assert(object_edge(o, w[w.len() - 2], w[w.len() - 1]));
    assert forall|i: int| 0 <= i < p.len() - 1 implies object_edge(o, #[trigger] p[i], p[i + 1]) by {
        assert(object_edge(o, w[i], w[i + 1]));
    }
}

/// Some assertion of the entry names `b` and the entry's property is an object
/// property of `o`.
pub open spec fn entry_edge(o: OntologyView, e: AssertionEntryView, b: Seq<char>) -> bool {
    o.property_map().contains_key(e.0@) && o.property_map()[e.0@].kind == PropertyKind::Object
        && exists|j: int| 0 <= j < e.1.len() && #[trigger] names_individual(e.1[j], b)
}

proof fn lemma_member_wf(o: OntologyView, k: Seq<char>)
    requires
        o.wf(),
        o.individual_map().contains_key(k),
    ensures
        o.individual_map()[k].wf(),
{
    let i = crate::keyed::index_of_key(o.individuals, k);
    assert(o.individuals[i].wf());
}

fn clone_path(p: &Vec<Iri>) -> (r: Vec<Iri>)
    ensures
        r@ == p@,
{
    let r = p.clone();
    assert(r@ =~= p@);
    r
}

/// Records `t`, reached from the end of `path`, unless it is not an individual of
/// `o` or was found before.
fn visit(
    o: &Ontology,
    t: &Iri,
    path: &Vec<Iri>,
    visited: &mut Vec<Iri>,
    nodes: &mut Vec<Iri>,
    paths: &mut Vec<Vec<Iri>>,
    Ghost(s): Ghost<Seq<char>>,
    Ghost(head): Ghost<int>,
)
    requires
        o.wf(),
        frontier_ok(o@, s, old(visited)@, old(nodes)@, path_texts(old(paths)@)),
        texts(path@).len() >= 1,
        texts(path@)[0] == s,
        is_walk(o@, texts(path@)),
        object_edge(o@, texts(path@).last(), t@),
        0 <= head < old(nodes)@.len(),
        texts(path@) == path_texts(old(paths)@)[head],
        bfs_levels(o@, s, old(nodes)@, path_texts(old(paths)@), head),
        found_within(o@, s, old(visited)@, texts(path@).len() as int),
    ensures
        frontier_ok(o@, s, final(visited)@, final(nodes)@, path_texts(final(paths)@)),
        bfs_levels(o@, s, final(nodes)@, path_texts(final(paths)@), head),
        forall|x: Seq<char>| #[trigger] id_set(old(visited)@).contains(x) ==> id_set(final(visited)@).contains(x),
        o@.individual_map().contains_key(t@) ==> id_set(final(visited)@).contains(t@),
        old(nodes)@.len() <= final(nodes)@.len(),
        final(nodes)@.subrange(0, old(nodes)@.len() as int) == old(nodes)@,
        final(paths)@.subrange(0, old(paths)@.len() as int) == old(paths)@,
{
    let ghost ov = o@;
    if o.individual(t).is_none() {
        assert(final(nodes)@.subrange(0, old(nodes)@.len() as int) =~= old(nodes)@);
        assert(final(paths)@.subrange(0, old(paths)@.len() as int) =~= old(paths)@);
        return;
    }
    let ghost v_before = visited@;
    let ghost n_before = nodes@;
    let ghost p_before = paths@;
    if insert_keyed(visited, t.clone()) {
        let mut np = clone_path(path);
        np.push(t.clone());
        proof {
            assert(texts(np@) =~= texts(path@).push(t@));
            lemma_walk_step(ov, s, texts(path@), t@);
            assert(!texts(n_before).contains(t@));
        }
        nodes.push(t.clone());
        paths.push(np);
        proof {
            lemma_distinct_keys_bounded(texts(n_before), ov.individuals);
            assert(texts(nodes@) =~= texts(n_before).push(t@));
            assert(path_texts(paths@) =~= path_texts(p_before).push(texts(np@)));
            assert forall|a: int, b: int|
                0 <= a < b < texts(nodes@).len() implies texts(nodes@)[a] != texts(nodes@)[b] by {
                if b == n_before.len() {
                    assert(texts(n_before)[a] == texts(nodes@)[a]);
                } else {
                    assert(texts(n_before)[a] != texts(n_before)[b]);
                }
            }
            lemma_distinct_keys_bounded(texts(nodes@), ov.individuals);
            let pv = path_texts(paths@);
            let pb = path_texts(p_before);
            let lh = texts(path@).len();
            assert(pv[head] == pb[head]);
            assert forall|a: int, b: int|
                0 <= a <= b < pv.len() implies #[trigger] pv[a].len() <= #[trigger] pv[b].len() by {
                if b == pb.len() {
                    if a < b {
                        assert(pb[a].len() <= lh + 1);
                    }
                } else {
                    assert(pb[a].len() <= pb[b].len());
                }
            }
            assert forall|q: int| 0 <= q < pv.len() implies #[trigger] pv[q].len() <= pv[head].len() + 1 by {
                if q < pb.len() {
                    assert(pb[q].len() <= pb[head].len() + 1);
                }
            }
            assert forall|q: int, w: Seq<Seq<char>>|
                0 <= q < nodes@.len() && #[trigger] walk_to(ov, s, w, nodes@[q]@) implies pv[q].len() <= w.len() by {
                if q < n_before.len() {
                    assert(nodes@[q] == n_before[q]);
                    assert(pb[q].len() <= w.len());
                } else {
                    if w.len() <= lh {
                        assert(id_set(v_before).contains(t@));
                    }
                }
            }
            assert forall|q: int| 0 <= q < nodes@.len() implies id_set(visited@).contains(
                #[trigger] nodes@[q]@,
            ) && ov.individual_map().contains_key(nodes@[q]@) && walk_to(
                ov,
                s,
                path_texts(paths@)[q],
                nodes@[q]@,
            ) by {
                if q < n_before.len() {
                    assert(nodes@[q] == n_before[q]);
                    assert(path_texts(paths@)[q] == path_texts(p_before)[q]);
                }
            }
            assert forall|x: Seq<char>| #[trigger] id_set(visited@).contains(x) implies texts(
                nodes@,
            ).contains(x) by {
                if x == t@ {
                    assert(texts(nodes@)[n_before.len() as int] == x);
                } else {
                    assert(id_set(v_before).contains(x));
                    assert(texts(n_before).contains(x));
                    let q = choose|q: int| 0 <= q < n_before.len() && texts(n_before)[q] == x;
                    assert(texts(nodes@)[q] == x);
                }
            }
        }
    }
    assert(nodes@.subrange(0, n_before.len() as int) =~= n_before);
    assert(paths@.subrange(0, p_before.len() as int) =~= p_before);
}

/// A walk of object-property assertions from `start` to `end`, found breadth
/// first, or `None` where there is none.
pub fn find_path(o: &Ontology, start: &Iri, end: &Iri) -> (r: Option<Vec<Iri>>)
    requires
        o.wf(),
        o@.individual_map().contains_key(start@),
        o@.individual_map().contains_key(end@),
    ensures
        r matches Some(p) ==> walk_to(o@, start@, texts(p@), end@) && forall|w: Seq<Seq<char>>|
            #[trigger] walk_to(o@, start@, w, end@) ==> p@.len() <= w.len(),
        r is None ==> !connects(o@, start@, end@),
{
    let ghost ov = o@;
    let ghost s = start@;
    let mut visited: Vec<Iri> = Vec::new();
    visited.push(start.clone());
    let mut nodes: Vec<Iri> = Vec::new();
    nodes.push(start.clone());
    let mut first: Vec<Iri> = Vec::new();
    first.push(start.clone());
    let mut paths: Vec<Vec<Iri>> = Vec::new();
    paths.push(first);
    proof {
        let k = crate::keyed::index_of_key(ov.individuals, s);
        assert(texts(nodes@) =~= seq![s]);
        assert(texts(paths@[0]@) =~= seq![s]);
        assert(path_texts(paths@) =~= seq![seq![s]]);
        assert(is_walk(ov, seq![s]));
        assert(visited@[0].key() == s);
        assert(id_set(visited@).contains(s));
        assert forall|x: Seq<char>| #[trigger] id_set(visited@).contains(x) implies texts(
            nodes@,
        ).contains(x) by {
            let i = crate::keyed::index_of_key(visited@, x);
            assert(texts(nodes@)[0] == x);
        }
        assert forall|w: Seq<Seq<char>>, b: Seq<char>|
            #[trigger] walk_to(ov, s, w, b) && ov.individual_map().contains_key(b) && w.len() <= 1
            implies id_set(visited@).contains(b) by {
            assert(b == s);
        }
    }
    let mut head: usize = 0;
    while head < nodes.len()
        invariant
            o.wf(),
            ov == o@,
            s == start@,
            ov.individual_map().contains_key(end@),
            frontier_ok(ov, s, visited@, nodes@, path_texts(paths@)),
            id_set(visited@).contains(s),
            head <= nodes.len(),
            forall|q: int| 0 <= q < head ==> (#[trigger] nodes@[q])@ != end@,
            forall|q: int, b: Seq<char>|
                0 <= q < head && #[trigger] object_edge(ov, nodes@[q]@, b)
                    && ov.individual_map().contains_key(b) ==> id_set(visited@).contains(b),
            bfs_levels(ov, s, nodes@, path_texts(paths@), head as int),
            head < nodes.len() ==> found_within(ov, s, visited@, path_texts(paths@)[head as int].len() as int),
        decreases ov.individuals.len() - head,
    {
        let cur = nodes[head].clone();
        assert(path_texts(paths@)[head as int] == texts(paths@[head as int]@));
        assert(walk_to(ov, s, path_texts(paths@)[head as int], nodes@[head as int]@));
        if cur.same(end) {
            let p = clone_path(&paths[head]);
            assert(texts(p@) == path_texts(paths@)[head as int]);
            proof {
                assert forall|w: Seq<Seq<char>>| #[trigger] walk_to(ov, s, w, end@) implies p@.len() <= w.len() by {
                    assert(walk_to(ov, s, w, nodes@[head as int]@));
                }
            }
            return Some(p);
        }
        let path = clone_path(&paths[head]);
        let ind = match o.individual(&cur) {
            Some(i) => i,
            None => {
                return None;
            },
        };
        proof {
            lemma_member_wf(ov, cur@);
        }
        let entries = ind.properties();
        let ghost ents = ind@.properties;
        let mut ei: usize = 0;
        while ei < entries.len()
            invariant
                o.wf(),
                ov == o@,
                ov.individual_map().contains_key(end@),
                frontier_ok(ov, s, visited@, nodes@, path_texts(paths@)),
                id_set(visited@).contains(s),
                head < nodes.len(),
                nodes@[head as int]@ == cur@,
                cur@ != end@,
                forall|q: int| 0 <= q < head ==> (#[trigger] nodes@[q])@ != end@,
                forall|q: int, b: Seq<char>|
                    0 <= q < head && #[trigger] object_edge(ov, nodes@[q]@, b)
                        && ov.individual_map().contains_key(b) ==> id_set(visited@).contains(b),
                walk_to(ov, s, texts(path@), cur@),
                texts(path@) == path_texts(paths@)[head as int],
                bfs_levels(ov, s, nodes@, path_texts(paths@), head as int),
                found_within(ov, s, visited@, texts(path@).len() as int),
                ind@ == ov.individual_map()[cur@],
                ind@.wf(),
                ents == ind@.properties,
                ents == entries_view(entries@),
                ei <= entries.len(),
                forall|e: int, b: Seq<char>|
                    0 <= e < ei && #[trigger] entry_edge(ov, ents[e], b)
                        && ov.individual_map().contains_key(b) ==> id_set(visited@).contains(b),
            decreases entries.len() - ei,
        {
            let pid = &entries[ei].0;
            let vals = &entries[ei].1;
            assert(ents[ei as int] == (entries@[ei as int].0, entries@[ei as int].1@));
            let is_object = match o.property(pid) {
                Some(prop) => match prop.kind() {
                    PropertyKind::Object => true,
                    PropertyKind::Data => false,
                },
                None => false,
            };
            if is_object {
                proof {
                    lemma_key_map_at(ents, ei as int);
                }
                let mut vi: usize = 0;
                while vi < vals.len()
                    invariant
                        o.wf(),
                        ov == o@,
                        frontier_ok(ov, s, visited@, nodes@, path_texts(paths@)),
                        id_set(visited@).contains(s),
                        head < nodes.len(),
                        nodes@[head as int]@ == cur@,
                        forall|q: int| 0 <= q < head ==> (#[trigger] nodes@[q])@ != end@,
                        forall|q: int, b: Seq<char>|
                            0 <= q < head && #[trigger] object_edge(ov, nodes@[q]@, b)
                                && ov.individual_map().contains_key(b) ==> id_set(visited@).contains(b),
                        forall|e: int, b: Seq<char>|
                            0 <= e < ei && #[trigger] entry_edge(ov, ents[e], b)
                                && ov.individual_map().contains_key(b) ==> id_set(visited@).contains(
                                b,
                            ),
                        walk_to(ov, s, texts(path@), cur@),
                        texts(path@) == path_texts(paths@)[head as int],
                        bfs_levels(ov, s, nodes@, path_texts(paths@), head as int),
                        found_within(ov, s, visited@, texts(path@).len() as int),
                        ind@ == ov.individual_map()[cur@],
                        ov.property_map().contains_key(pid@),
                        ov.property_map()[pid@].kind == PropertyKind::Object,
                        ind@.values(pid@) == vals@,
                        ents[ei as int].0 == *pid,
                        ents[ei as int].1 == vals@,
                        vi <= vals.len(),
                        forall|j: int, b: Seq<char>|
                            0 <= j < vi && #[trigger] names_individual(vals@[j], b)
                                && ov.individual_map().contains_key(b) ==> id_set(visited@).contains(
                                b,
                            ),
                    decreases vals.len() - vi,
                {
                    let ghost v_before = visited@;
                    let ghost n_before = nodes@;
                    let ghost p_before = paths@;
                    if let PropertyAssertion::Individual(t) = &vals[vi] {
                        proof {
                            assert(names_individual(
                                ov.individual_map()[cur@].values(pid@)[vi as int],
                                t@,
                            ));
                        }
                        visit(o, t, &path, &mut visited, &mut nodes, &mut paths, Ghost(s), Ghost(head as int));
                        proof {
                            assert(path_texts(paths@)[head as int] == path_texts(p_before)[head as int]);
                            assert forall|w: Seq<Seq<char>>, b: Seq<char>|
                                #[trigger] walk_to(ov, s, w, b) && ov.individual_map().contains_key(b)
                                    && w.len() <= texts(path@).len() implies id_set(visited@).contains(b) by {
                                assert(id_set(v_before).contains(b));
                            }
                            assert(nodes@[head as int] == n_before[head as int]);
                            assert forall|q: int| 0 <= q < head implies (#[trigger] nodes@[q])@
                                != end@ by {
                                assert(nodes@[q] == n_before[q]);
                            }
                            assert forall|q: int, b: Seq<char>|
                                0 <= q < head && #[trigger] object_edge(ov, nodes@[q]@, b)
                                    && ov.individual_map().contains_key(b) implies id_set(
                                visited@,
                            ).contains(b) by {
                                assert(nodes@[q] == n_before[q]);
                                assert(id_set(v_before).contains(b));
                            }
                        }
                    }
                    proof {
                        assert forall|j: int, b: Seq<char>|
                            0 <= j < vi + 1 && #[trigger] names_individual(vals@[j], b)
                                && ov.individual_map().contains_key(b) implies id_set(
                            visited@,
                        ).contains(b) by {
                            if j < vi {
                                assert(id_set(v_before).contains(b));
                            }
                        }
                        assert forall|e: int, b: Seq<char>|
                            0 <= e < ei && #[trigger] entry_edge(ov, ents[e], b)
                                && ov.individual_map().contains_key(b) implies id_set(
                            visited@,
                        ).contains(b) by {
                            assert(id_set(v_before).contains(b));
                        }
                    }
                    vi = vi + 1;
                }
            }
            proof {
                assert forall|e: int, b: Seq<char>|
                    0 <= e < ei + 1 && #[trigger] entry_edge(ov, ents[e], b)
                        && ov.individual_map().contains_key(b) implies id_set(visited@).contains(
                    b,
                ) by {
                    if e == ei {
                        let j = choose|j: int|
                            0 <= j < ents[e].1.len() && #[trigger] names_individual(ents[e].1[j], b);
                        assert(names_individual(vals@[j], b));
                    }
                }
            }
            ei = ei + 1;
        }
        proof {
            assert forall|q: int, b: Seq<char>|
                0 <= q < head + 1 && #[trigger] object_edge(ov, nodes@[q]@, b)
                    && ov.individual_map().contains_key(b) implies id_set(visited@).contains(b) by {
                if q == head {
                    let (k, j) = choose|k: Seq<char>, j: int|
                        #![trigger ov.individual_map()[cur@].values(k)[j]]
                        ov.property_map().contains_key(k) && ov.property_map()[k].kind
                            == PropertyKind::Object && 0 <= j < ov.individual_map()[cur@].values(
                            k,
                        ).len() && names_individual(ov.individual_map()[cur@].values(k)[j], b);
                    let e = crate::keyed::index_of_key(ents, k);
                    lemma_key_map_at(ents, e);
                    assert(names_individual(ents[e].1[j], b));
                    assert(entry_edge(ov, ents[e], b));
                }
            }
            let pv = path_texts(paths@);
            if head + 1 < nodes.len() {
                assert(pv[head as int].len() <= pv[head + 1].len());
                assert(pv[head + 1].len() <= pv[head as int].len() + 1);
                assert forall|w: Seq<Seq<char>>, b: Seq<char>|
                    #[trigger] walk_to(ov, s, w, b) && ov.individual_map().contains_key(b) && w.len()
                        <= pv[head + 1].len() implies id_set(visited@).contains(b) by {
                    if w.len() > pv[head as int].len() {
                        lemma_walk_prefix(ov, s, w, b);
                        let u = w[w.len() - 2];
                        assert(walk_to(ov, s, w.drop_last(), u));
                        assert(id_set(visited@).contains(u));
                        assert(texts(nodes@).contains(u));
                        let q = choose|q: int| 0 <= q < nodes@.len() && texts(nodes@)[q] == u;
                        assert(nodes@[q]@ == u);
                        assert(pv[q].len() <= w.drop_last().len());
                        if q > head {
                            assert(pv[head + 1].len() <= pv[q].len());
                        }
                        assert(object_edge(ov, nodes@[q]@, b));
                    }
                }
            }
            if head + 1 < pv.len() {
                assert forall|q: int| 0 <= q < pv.len() implies #[trigger] pv[q].len() <= pv[head
                    + 1].len() + 1 by {
                    assert(pv[q].len() <= pv[head as int].len() + 1);
                    assert(pv[head as int].len() <= pv[head + 1].len());
                }
            }
        }
        head = head + 1;
    }
    proof {
        assert forall|x: Seq<char>, b: Seq<char>|
            id_set(visited@).contains(x) && object_edge(ov, x, b) && ov.individual_map().contains_key(b)
            implies id_set(visited@).contains(b) by {
            assert(texts(nodes@).contains(x));
            let q = choose|q: int| 0 <= q < nodes@.len() && texts(nodes@)[q] == x;
            assert(nodes@[q]@ == x);
        }
        if connects(ov, s, end@) {
            lemma_closed_holds_walks(ov, s, id_set(visited@), end@);
            assert(texts(nodes@).contains(end@));
            let q = choose|q: int| 0 <= q < nodes@.len() && texts(nodes@)[q] == end@;
            assert(nodes@[q]@ == end@);
        }
    }
    None
}

/// The reasoner that reads the in-memory store under the given settings.
pub struct InMemoryReasoner<'a> {
    store: &'a OntologyStore,
    settings: ReasonerSettings,
}

impl<'a> InMemoryReasoner<'a> {
    pub closed spec fn settings_view(&self) -> ReasonerSettings {
        self.settings
    }

    pub closed spec fn store_view(&self) -> OntologyStore {
        *self.store
    }

    /// A reasoner over `store`.
    pub fn new(store: &'a OntologyStore, settings: ReasonerSettings) -> (r: InMemoryReasoner<'a>)
        ensures
            r.store_view() == *store,
            r.settings_view() == settings,
    {
        InMemoryReasoner { store, settings }
    }
}

impl<'a> ReasoningQuery for InMemoryReasoner<'a> {
    type Error = OntologyServiceError;

    open spec fn snapshot(&self) -> Map<Seq<char>, OntologyView> {
        self.store_view().map()
    }

    open spec fn inference(&self) -> InferenceSettings {
        self.settings_view().inference
    }

    open spec fn inv(&self) -> bool {
        self.store_view().wf()
    }

    fn ancestors_of(&self, ontology: &Iri, class: &Iri) -> (r: Result<Vec<Iri>, OntologyServiceError>)
        ensures
            (self.inference().class_hierarchy && !self.snapshot().contains_key(ontology@)) ==> (r matches Err(
                OntologyServiceError::Missing { ontology: x },
            ) && x@ == ontology@),
            (self.inference().class_hierarchy && self.snapshot().contains_key(ontology@)
                && !self.snapshot()[ontology@].class_map().contains_key(class@)) ==> (r matches Err(
                OntologyServiceError::MissingClass { ontology: x, class: y },
            ) && x@ == ontology@ && y@ == class@),
            (self.inference().class_hierarchy && self.snapshot().contains_key(ontology@)
                && self.snapshot()[ontology@].class_map().contains_key(class@)) ==> r is Ok,
    {
        if !self.settings.inference.class_hierarchy {
            return Ok(Vec::new());
        }
        let o = match self.store.ontology(ontology) {
            Some(o) => o,
            None => {
                return Err(OntologyServiceError::Missing { ontology: ontology.clone() });
            },
        };
        let start = match o.class(class) {
            Some(c) => c,
            None => {
                return Err(
                    OntologyServiceError::MissingClass {
                        ontology: o.id().clone(),
                        class: class.clone(),
                    },
                );
            },
        };
        Ok(collect_ancestors(o, start))
    }

    fn descendants_of(&self, ontology: &Iri, class: &Iri) -> (r: Result<Vec<Iri>, OntologyServiceError>)
        ensures
            (self.inference().class_hierarchy && !self.snapshot().contains_key(ontology@)) ==> (r matches Err(
                OntologyServiceError::Missing { ontology: x },
            ) && x@ == ontology@),
            (self.inference().class_hierarchy && self.snapshot().contains_key(ontology@)
                && !self.snapshot()[ontology@].class_map().contains_key(class@)) ==> (r matches Err(
                OntologyServiceError::MissingClass { ontology: x, class: y },
            ) && x@ == ontology@ && y@ == class@),
            (self.inference().class_hierarchy && self.snapshot().contains_key(ontology@)
                && self.snapshot()[ontology@].class_map().contains_key(class@)) ==> r is Ok,
    {
        if !self.settings.inference.class_hierarchy {
            return Ok(Vec::new());
        }
        let o = match self.store.ontology(ontology) {
            Some(o) => o,
            None => {
                return Err(OntologyServiceError::Missing { ontology: ontology.clone() });
            },
        };
        if o.class(class).is_none() {
            return Err(
                OntologyServiceError::MissingClass { ontology: o.id().clone(), class: class.clone() },
            );
        }
        Ok(collect_children(o, class))
    }

    fn related_individuals(&self, ontology: &Iri, via_property: &Iri, individual: &Iri) -> (r:
        Result<Vec<Iri>, OntologyServiceError>)
        ensures
            ({
                let on = self.inference().property_assertions;
                let m = self.snapshot();
                let o = m[ontology@];
                &&& (on && !m.contains_key(ontology@)) ==> (r matches Err(
                    OntologyServiceError::Missing { ontology: x },
                ) && x@ == ontology@)
                &&& (on && m.contains_key(ontology@) && !o.property_map().contains_key(via_property@))
                    ==> (r matches Err(OntologyServiceError::MissingProperty { ontology: x, property: y })
                    && x@ == ontology@ && y@ == via_property@)
                &&& (on && m.contains_key(ontology@) && o.property_map().contains_key(via_property@)
                    && o.property_map()[via_property@].kind == PropertyKind::Data) ==> (r matches Err(
                    OntologyServiceError::Domain(
                        OntologyError::InvalidPropertyAssertion { ontology: x, property: y },
                    ),
                ) && x@ == ontology@ && y@ == via_property@)
                &&& (on && m.contains_key(ontology@) && o.property_map().contains_key(via_property@)
                    && o.property_map()[via_property@].kind == PropertyKind::Object
                    && !o.individual_map().contains_key(individual@)) ==> (r matches Err(
                    OntologyServiceError::MissingIndividual { ontology: x, individual: y },
                ) && x@ == ontology@ && y@ == individual@)
                &&& (on && m.contains_key(ontology@) && o.property_map().contains_key(via_property@)
                    && o.property_map()[via_property@].kind == PropertyKind::Object
                    && o.individual_map().contains_key(individual@)) ==> r is Ok
            }),
    {
        if !self.settings.inference.property_assertions {
            return Ok(Vec::new());
        }
        let o = match self.store.ontology(ontology) {
            Some(o) => o,
            None => {
                return Err(OntologyServiceError::Missing { ontology: ontology.clone() });
            },
        };
        let property = match o.property(via_property) {
            Some(p) => p,
            None => {
                return Err(
                    OntologyServiceError::MissingProperty {
                        ontology: o.id().clone(),
                        property: via_property.clone(),
                    },
                );
            },
        };
        match property.kind() {
            PropertyKind::Object => {},
            PropertyKind::Data => {
                return Err(
                    OntologyServiceError::Domain(
                        OntologyError::InvalidPropertyAssertion {
                            ontology: o.id().clone(),
                            property: via_property.clone(),
                        },
                    ),
                );
            },
        }
        let source = match o.individual(individual) {
            Some(i) => i,
            None => {
                return Err(
                    OntologyServiceError::MissingIndividual {
                        ontology: o.id().clone(),
                        individual: individual.clone(),
                    },
                );
            },
        };
        proof {
            lemma_member_wf(o@, individual@);
        }
        match source.assertions_for(via_property) {
            Some(values) => Ok(targets_of(values)),
            None => {
                let r: Vec<Iri> = Vec::new();
                assert(texts(r@) =~= object_targets(Seq::<PropertyAssertion>::empty()));
                Ok(r)
            },
        }
    }

    fn shortest_path(&self, ontology: &Iri, start: &Iri, end: &Iri) -> (r: Result<
        Option<Vec<Iri>>,
        OntologyServiceError,
    >)
        ensures
            ({
                let on = self.inference().property_paths;
                let m = self.snapshot();
                let o = m[ontology@];
                &&& (on && !m.contains_key(ontology@)) ==> (r matches Err(
                    OntologyServiceError::Missing { ontology: x },
                ) && x@ == ontology@)
                &&& (on && m.contains_key(ontology@) && !o.individual_map().contains_key(start@))
                    ==> (r matches Err(OntologyServiceError::MissingIndividual { ontology: x, individual: y })
                    && x@ == ontology@ && y@ == start@)
                &&& (on && m.contains_key(ontology@) && o.individual_map().contains_key(start@)
                    && !o.individual_map().contains_key(end@)) ==> (r matches Err(
                    OntologyServiceError::MissingIndividual { ontology: x, individual: y },
                ) && x@ == ontology@ && y@ == end@)
                &&& (on && m.contains_key(ontology@) && o.individual_map().contains_key(start@)
                    && o.individual_map().contains_key(end@)) ==> r is Ok
            }),
    {
        if !self.settings.inference.property_paths {
            return Ok(None);
        }
        let o = match self.store.ontology(ontology) {
            Some(o) => o,
            None => {
                return Err(OntologyServiceError::Missing { ontology: ontology.clone() });
            },
        };
        if o.individual(start).is_none() {
            return Err(
                OntologyServiceError::MissingIndividual {
                    ontology: o.id().clone(),
                    individual: start.clone(),
                },
            );
        }
        if o.individual(end).is_none() {
            return Err(
                OntologyServiceError::MissingIndividual {
                    ontology: o.id().clone(),
                    individual: end.clone(),
                },
            );
        }
        let found = find_path(o, start, end);
        proof {
            if found is Some {
                let p = found->Some_0;
                assert forall|w: Seq<Seq<char>>|
                    w.len() >= 1 && w[0] == start@ && w.last() == end@ && #[trigger] is_walk(o@, w)
                    implies p@.len() <= w.len() by {
                    assert(walk_to(o@, start@, w, end@));
                }
            }
        }
        Ok(found)
    }
}

} // verus!
