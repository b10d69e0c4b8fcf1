//! The application graph: the application, its routes, background workers,
//! scheduler jobs and tasks as nodes, joined by containment and trigger edges.
use vstd::prelude::*;
use vstd::string::StringExecFns;

use crate::console::{
    chars_of, first_white, is_white, leading_white, lemma_leading_skip, string_from, trim_bounds,
    trimmed, white,
};
use crate::entities::id_set;
use crate::iri::{iri_lt, lemma_iri_lt_irreflexive, lemma_iri_lt_total, lemma_iri_lt_transitive, str_precedes, str_same};
use crate::keyed::{
    insert_keyed, key_map, lemma_insert_at, lemma_same_keys, lemma_sorted_unique, lemma_update_at,
    same_keys, sorted_keys, upsert_keyed, Keyed, KeyedExec,
};

verus! {

/// Nodes in identifier order and edges in (from, to, kind) order, each once.
#[derive(Debug, Clone, PartialEq, Eq)]
pub struct ApplicationGraph {
    pub nodes: Vec<GraphNode>,
    pub edges: Vec<GraphEdge>,
}

/// A vertex of the graph.
#[derive(Debug, Clone, PartialEq, Eq)]
pub struct GraphNode {
    pub id: String,
    pub kind: ComponentKind,
}

/// What a node stands for.
#[derive(Debug, Clone, PartialEq, Eq)]
pub enum ComponentKind {
    Application { name: String },
    HttpRoute { path: String, methods: Vec<String> },
    BackgroundWorker { name: String, queue: Option<String> },
    SchedulerJob {
        name: String,
        schedule: String,
        command: String,
        run_on_start: bool,
        shell: bool,
        tags: Vec<String>,
    },
    Task { name: String, detail: Option<String> },
}

/// An edge between two nodes.
#[derive(Debug, Clone, PartialEq, Eq)]
pub struct GraphEdge {
    pub from: String,
    pub to: String,
    pub kind: EdgeKind,
}

/// What an edge means.
#[derive(Debug, Clone, Copy, PartialEq, Eq)]
pub enum EdgeKind {
    Contains,
    Triggers,
}

impl EdgeKind {
    pub open spec fn rank(self) -> u8 {
        match self {
            EdgeKind::Contains => 0,
            EdgeKind::Triggers => 1,
        }
    }

    fn sort_key(self) -> (r: u8)
        ensures
            r == self.rank(),
    {
        match self {
            EdgeKind::Contains => 0,
            EdgeKind::Triggers => 1,
        }
    }
}

/// A route as the web layer declares it.
#[derive(Debug, Clone, PartialEq, Eq)]
pub struct RouteDescriptor {
    pub path: String,
    pub methods: Vec<String>,
}

/// A background worker and its queue.
#[derive(Debug, Clone, PartialEq, Eq)]
pub struct BackgroundWorkerDescriptor {
    pub name: String,
    pub queue: Option<String>,
}

/// A scheduler job as configured.
#[derive(Debug, Clone, PartialEq, Eq)]
pub struct SchedulerJobDescriptor {
    pub name: String,
    pub schedule: String,
    pub command: String,
    pub run_on_start: bool,
    pub shell: bool,
    pub tags: Vec<String>,
}

/// A registered task.
#[derive(Debug, Clone, PartialEq, Eq)]
pub struct TaskDescriptor {
    pub name: String,
    pub detail: Option<String>,
}

/// Where the routes come from.
pub trait RoutesRepository {
    fn routes(&self) -> Vec<RouteDescriptor>;
}

/// Where the background workers come from.
pub trait BackgroundWorkerRepository {
    fn workers(&self) -> Vec<BackgroundWorkerDescriptor>;
}

/// Where the scheduler jobs come from.
pub trait SchedulerRepository {
    fn jobs(&self) -> Vec<SchedulerJobDescriptor>;
}

/// Where the tasks come from.
pub trait TaskRepository {
    fn tasks(&self) -> Vec<TaskDescriptor>;
}

// ----- what the graph is -----

pub ghost enum KindView {
    Application { name: Seq<char> },
    HttpRoute { path: Seq<char>, methods: Seq<Seq<char>> },
    BackgroundWorker { name: Seq<char>, queue: Option<Seq<char>> },
    SchedulerJob {
        name: Seq<char>,
        schedule: Seq<char>,
        command: Seq<char>,
        run_on_start: bool,
        shell: bool,
        tags: Seq<Seq<char>>,
    },
    Task { name: Seq<char>, detail: Option<Seq<char>> },
}

pub ghost struct NodeView {
    pub id: Seq<char>,
    pub kind: KindView,
}

pub ghost struct EdgeView {
    pub from: Seq<char>,
    pub to: Seq<char>,
    pub kind: EdgeKind,
}

impl Keyed for NodeView {
    open spec fn key(&self) -> Seq<char> {
        self.id
    }
}

impl Keyed for GraphNode {
    open spec fn key(&self) -> Seq<char> {
        self.id@
    }
}

impl KeyedExec for GraphNode {
    fn key_str(&self) -> (r: &str) {
        self.id.as_str()
    }
}

pub open spec fn opt_text(o: Option<String>) -> Option<Seq<char>> {
    match o {
        Some(s) => Some(s@),
        None => None,
    }
}

pub open spec fn texts_of(v: Seq<String>) -> Seq<Seq<char>> {
    v.map_values(|s: String| s@)
}

/// The texts of `v`, each once, in order.
pub open spec fn sorted_texts(v: Seq<String>) -> Seq<Seq<char>> {
    choose|q: Seq<Seq<char>>| sorted_keys(q) && q.to_set() == texts_of(v).to_set()
}

pub open spec fn kind_view(k: ComponentKind) -> KindView {
    match k {
        ComponentKind::Application { name } => KindView::Application { name: name@ },
        ComponentKind::HttpRoute { path, methods } => KindView::HttpRoute {
            path: path@,
            methods: texts_of(methods@),
        },
        ComponentKind::BackgroundWorker { name, queue } => KindView::BackgroundWorker {
            name: name@,
            queue: opt_text(queue),
        },
        ComponentKind::SchedulerJob { name, schedule, command, run_on_start, shell, tags } =>
            KindView::SchedulerJob {
            name: name@,
            schedule: schedule@,
            command: command@,
            run_on_start,
            shell,
            tags: texts_of(tags@),
        },
        ComponentKind::Task { name, detail } => KindView::Task {
            name: name@,
            detail: opt_text(detail),
        },
    }
}

pub open spec fn node_view(n: GraphNode) -> NodeView {
    NodeView { id: n.id@, kind: kind_view(n.kind) }
}

pub open spec fn nodes_view(s: Seq<GraphNode>) -> Seq<NodeView> {
    s.map_values(|n: GraphNode| node_view(n))
}

pub open spec fn edge_view(e: GraphEdge) -> EdgeView {
    EdgeView { from: e.from@, to: e.to@, kind: e.kind }
}

pub open spec fn edges_view(s: Seq<GraphEdge>) -> Seq<EdgeView> {
    s.map_values(|e: GraphEdge| edge_view(e))
}

/// The order of edges: by source, then target, then kind.
pub open spec fn edge_lt(a: EdgeView, b: EdgeView) -> bool {
    iri_lt(a.from, b.from) || (a.from == b.from && (iri_lt(a.to, b.to) || (a.to == b.to
        && a.kind.rank() < b.kind.rank())))
}

pub open spec fn edges_sorted(s: Seq<EdgeView>) -> bool {
    forall|i: int, j: int| 0 <= i < j < s.len() ==> edge_lt(#[trigger] s[i], #[trigger] s[j])
}

pub open spec fn app_id(name: Seq<char>) -> Seq<char> {
    "app:"@ + name
}

pub open spec fn task_id(name: Seq<char>) -> Seq<char> {
    "task:"@ + name
}

pub open spec fn route_id(path: Seq<char>) -> Seq<char> {
    "route:"@ + path
}

pub open spec fn worker_id(name: Seq<char>) -> Seq<char> {
    "worker:"@ + name
}

pub open spec fn job_id(name: Seq<char>) -> Seq<char> {
    "scheduler:"@ + name
}

/// The first white-space separated word of `s`.
pub open spec fn first_word(s: Seq<char>) -> Option<Seq<char>> {
    let u = s.skip(leading_white(s) as int);
    if u.len() == 0 {
        None
    } else {
        match first_white(u) {
            Some(k) => Some(u.take(k)),
            None => Some(u),
        }
    }
}

/// The task that a scheduler command runs: for a shell command `task <name> ...`,
/// otherwise the command's first word.
pub open spec fn task_reference(command: Seq<char>, shell: bool) -> Option<Seq<char>> {
    let t = trimmed(command);
    if t.len() == 0 {
        None
    } else if shell {
        if t.len() >= 5 && t.take(5) == "task "@ {
            first_word(t.skip(5))
        } else {
            None
        }
    } else {
        first_word(t)
    }
}

pub open spec fn task_node(d: TaskDescriptor) -> NodeView {
    NodeView { id: task_id(d.name@), kind: KindView::Task { name: d.name@, detail: opt_text(d.detail) } }
}

pub open spec fn route_node(d: RouteDescriptor) -> NodeView {
    NodeView {
        id: route_id(d.path@),
        kind: KindView::HttpRoute { path: d.path@, methods: sorted_texts(d.methods@) },
    }
}

pub open spec fn worker_node(d: BackgroundWorkerDescriptor) -> NodeView {
    NodeView {
        id: worker_id(d.name@),
        kind: KindView::BackgroundWorker { name: d.name@, queue: opt_text(d.queue) },
    }
}

pub open spec fn job_node(d: SchedulerJobDescriptor) -> NodeView {
    NodeView {
        id: job_id(d.name@),
        kind: KindView::SchedulerJob {
            name: d.name@,
            schedule: d.schedule@,
            command: d.command@,
            run_on_start: d.run_on_start,
            shell: d.shell,
            tags: sorted_texts(d.tags@),
        },
    }
}

/// Each node filed under its identifier, a later one replacing an earlier one.
pub open spec fn file_nodes(m: Map<Seq<char>, NodeView>, ns: Seq<NodeView>) -> Map<Seq<char>, NodeView>
    decreases ns.len(),
{
    if ns.len() == 0 {
        m
    } else {
        file_nodes(m, ns.drop_last()).insert(ns.last().id, ns.last())
    }
}

pub open spec fn task_nodes(tasks: Seq<TaskDescriptor>) -> Seq<NodeView> {
    tasks.map_values(|d: TaskDescriptor| task_node(d))
}

pub open spec fn route_nodes(routes: Seq<RouteDescriptor>) -> Seq<NodeView> {
    routes.map_values(|d: RouteDescriptor| route_node(d))
}

pub open spec fn worker_nodes(workers: Seq<BackgroundWorkerDescriptor>) -> Seq<NodeView> {
    workers.map_values(|d: BackgroundWorkerDescriptor| worker_node(d))
}

pub open spec fn job_nodes(jobs: Seq<SchedulerJobDescriptor>) -> Seq<NodeView> {
    jobs.map_values(|d: SchedulerJobDescriptor| job_node(d))
}

pub open spec fn app_node(app: Seq<char>) -> NodeView {
    NodeView { id: app_id(app), kind: KindView::Application { name: app } }
}

/// The nodes of the graph by identifier: the application, then the tasks,
/// routes, workers and jobs in that order, a later node replacing an earlier
/// one with the same identifier.
pub open spec fn graph_nodes(
    app: Seq<char>,
    tasks: Seq<TaskDescriptor>,
    routes: Seq<RouteDescriptor>,
    workers: Seq<BackgroundWorkerDescriptor>,
    jobs: Seq<SchedulerJobDescriptor>,
) -> Map<Seq<char>, NodeView> {
    let root = Map::<Seq<char>, NodeView>::empty().insert(app_id(app), app_node(app));
    let m1 = file_nodes(root, task_nodes(tasks));
    let m2 = file_nodes(m1, route_nodes(routes));
    let m3 = file_nodes(m2, worker_nodes(workers));
    file_nodes(m3, job_nodes(jobs))
}

pub open spec fn contains(app: Seq<char>, to: Seq<char>) -> EdgeView {
    EdgeView { from: app_id(app), to, kind: EdgeKind::Contains }
}

/// The edge by which the job triggers a task of `tasks`, if its command names one.
pub open spec fn job_trigger(tasks: Seq<TaskDescriptor>, job: SchedulerJobDescriptor) -> Option<EdgeView> {
    match task_reference(job.command@, job.shell) {
        Some(name) => if exists|t: int| 0 <= t < tasks.len() && #[trigger] tasks[t].name@ == name {
            Some(EdgeView { from: job_id(job.name@), to: task_id(name), kind: EdgeKind::Triggers })
        } else {
            None
        },
        None => None,
    }
}

/// `e` is among the edges that the first `n` tasks, routes, workers or jobs give.
pub open spec fn task_edge(app: Seq<char>, tasks: Seq<TaskDescriptor>, n: int, e: EdgeView) -> bool {
    exists|i: int| 0 <= i < n && e == contains(app, task_id(#[trigger] tasks[i].name@))
}

pub open spec fn route_edge(app: Seq<char>, routes: Seq<RouteDescriptor>, n: int, e: EdgeView) -> bool {
    exists|i: int| 0 <= i < n && e == contains(app, route_id(#[trigger] routes[i].path@))
}

pub open spec fn worker_edge(app: Seq<char>, workers: Seq<BackgroundWorkerDescriptor>, n: int, e: EdgeView) -> bool {
    exists|i: int| 0 <= i < n && e == contains(app, worker_id(#[trigger] workers[i].name@))
}

pub open spec fn job_edge(
    app: Seq<char>,
    tasks: Seq<TaskDescriptor>,
    jobs: Seq<SchedulerJobDescriptor>,
    n: int,
    e: EdgeView,
) -> bool {
    exists|i: int|
        0 <= i < n && (e == contains(app, job_id(#[trigger] jobs[i].name@)) || job_trigger(tasks, jobs[i])
            == Some(e))
}

/// The edges of the graph: the application contains every task, route, worker
/// and job, and a job triggers the task that its command names, where there is
/// a task of that name.
pub open spec fn graph_edges(
    app: Seq<char>,
    tasks: Seq<TaskDescriptor>,
    routes: Seq<RouteDescriptor>,
    workers: Seq<BackgroundWorkerDescriptor>,
    jobs: Seq<SchedulerJobDescriptor>,
) -> Set<EdgeView> {
    Set::new(
        |e: EdgeView|
            task_edge(app, tasks, tasks.len() as int, e) || route_edge(app, routes, routes.len() as int, e)
                || worker_edge(app, workers, workers.len() as int, e) || job_edge(
                app,
                tasks,
                jobs,
                jobs.len() as int,
                e,
            ),
    )
}

// ----- building blocks -----

proof fn lemma_edge_lt_irreflexive(a: EdgeView)
    ensures
        !edge_lt(a, a),
{
    lemma_iri_lt_irreflexive(a.from);
    lemma_iri_lt_irreflexive(a.to);
}

proof fn lemma_edge_lt_transitive(a: EdgeView, b: EdgeView, c: EdgeView)
    requires
        edge_lt(a, b),
        edge_lt(b, c),
    ensures
        edge_lt(a, c),
{
    if iri_lt(a.from, b.from) && iri_lt(b.from, c.from) {
        lemma_iri_lt_transitive(a.from, b.from, c.from);
    }
    if a.from == b.from && b.from == c.from && iri_lt(a.to, b.to) && iri_lt(b.to, c.to) {
        lemma_iri_lt_transitive(a.to, b.to, c.to);
    }
}

proof fn lemma_edge_lt_total(a: EdgeView, b: EdgeView)
    ensures
        edge_lt(a, b) || edge_lt(b, a) || a == b,
{
    lemma_iri_lt_total(a.from, b.from);
    lemma_iri_lt_total(a.to, b.to);
}

fn edge_precedes(a: &GraphEdge, b: &GraphEdge) -> (r: bool)
    ensures
        r == edge_lt(edge_view(*a), edge_view(*b)),
{
    if str_precedes(a.from.as_str(), b.from.as_str()) {
        return true;
    }
    if !str_same(a.from.as_str(), b.from.as_str()) {
        return false;
    }
    if str_precedes(a.to.as_str(), b.to.as_str()) {
        return true;
    }
    if !str_same(a.to.as_str(), b.to.as_str()) {
        return false;
    }
    a.kind.sort_key() < b.kind.sort_key()
}

/// Adds `e` to the ordered edges unless it is there.
fn insert_edge(edges: &mut Vec<GraphEdge>, e: GraphEdge)
    requires
        edges_sorted(edges_view(old(edges)@)),
    ensures
        edges_sorted(edges_view(final(edges)@)),
        edges_view(final(edges)@).to_set() == edges_view(old(edges)@).to_set().insert(edge_view(e)),
{
    let ghost ev = edge_view(e);
    let ghost before = edges_view(edges@);
    let mut i: usize = 0;
    while i < edges.len()
        invariant
            edges@ == old(edges)@,
            edges_view(edges@) == before,
            ev == edge_view(e),
            edges_sorted(before),
            i <= edges.len(),
            forall|j: int| 0 <= j < i ==> edge_lt(#[trigger] before[j], ev),
        decreases edges.len() - i,
    {
        assert(before[i as int] == edge_view(edges@[i as int]));
        if edge_precedes(&e, &edges[i]) {
            let ghost ex = edges@;
            edges.insert(i, e);
            proof {
                let after = edges_view(edges@);
                assert(edges@ == ex.insert(i as int, e));
                assert forall|k: int| 0 <= k < after.len() implies after[k] == before.insert(i as int, ev)[k] by {
                    if k < i {
                        assert(edges@[k] == ex[k]);
                    } else if k > i {
                        assert(edges@[k] == ex[k - 1]);
                    }
                }
                assert(after =~= before.insert(i as int, ev));
                assert forall|x: int, y: int| 0 <= x < y < after.len() implies edge_lt(
                    #[trigger] after[x],
                    #[trigger] after[y],
                ) by {
                    if y == i {
                    } else if x == i {
                        if y > i + 1 {
                            lemma_edge_lt_transitive(ev, before[i as int], before[y - 1]);
                        }
                    } else if x < i && y > i {
                        if y - 1 == i {
                            lemma_edge_lt_transitive(before[x], ev, before[i as int]);
                        } else {
                            lemma_edge_lt_transitive(ev, before[i as int], before[y - 1]);
                            lemma_edge_lt_transitive(before[x], ev, before[y - 1]);
                        }
                    } else if x > i {
                        assert(edge_lt(before[x - 1], before[y - 1]));
                    }
                }
                assert(after.to_set() =~= before.to_set().insert(ev)) by {
                    assert forall|z: EdgeView| after.to_set().contains(z) <==> before.to_set().insert(ev).contains(z) by {
                        if after.to_set().contains(z) {
                            let k = choose|k: int| 0 <= k < after.len() && after[k] == z;
                            if k < i {
                                assert(before[k] == z);
                            } else if k > i {
                                assert(before[k - 1] == z);
                            }
                        }
                        if before.to_set().contains(z) {
                            let k = choose|k: int| 0 <= k < before.len() && before[k] == z;
                            if k < i {
                                assert(after[k] == z);
                            } else {
                                assert(after[k + 1] == z);
                            }
                        }
                        if z == ev {
                            assert(after[i as int] == z);
                        }
                    }
                }
            }
            return;
        }
        if !edge_precedes(&edges[i], &e) {
            proof {
                lemma_edge_lt_total(before[i as int], ev);
                assert(before[i as int] == ev);
                assert(before.to_set().contains(ev));
                assert(before.to_set().insert(ev) =~= before.to_set());
            }
            return;
        }
        i = i + 1;
    }
    edges.push(e);
    proof {
        let after = edges_view(edges@);
        assert(after =~= before.push(ev));
        assert forall|x: int, y: int| 0 <= x < y < after.len() implies edge_lt(
            #[trigger] after[x],
            #[trigger] after[y],
        ) by {
            if y < before.len() {
                assert(edge_lt(before[x], before[y]));
            }
        }
        assert(after.to_set() =~= before.to_set().insert(ev)) by {
            assert forall|z: EdgeView| after.to_set().contains(z) <==> before.to_set().insert(ev).contains(z) by {
                if after.to_set().contains(z) {
                    let k = choose|k: int| 0 <= k < after.len() && after[k] == z;
                    if k < before.len() {
                        assert(before[k] == z);
                    }
                }
                if before.to_set().contains(z) {
                    let k = choose|k: int| 0 <= k < before.len() && before[k] == z;
                    assert(after[k] == z);
                }
                if z == ev {
                    assert(after[before.len() as int] == z);
                }
            }
        }
    }
}

/// The texts of `v`, each once, in order.
pub(crate) fn sort_dedup(v: Vec<String>) -> (r: Vec<String>)
    ensures
        texts_of(r@) == sorted_texts(v@),
{
    let mut out: Vec<String> = Vec::new();
    let mut i: usize = 0;
    while i < v.len()
        invariant
            i <= v.len(),
            sorted_keys(out@),
            id_set(out@) == texts_of(v@).subrange(0, i as int).to_set(),
        decreases v.len() - i,
    {
        let ghost before = id_set(out@);
        let item = v[i].clone();
        assert(item@ == v@[i as int]@);
        insert_keyed(&mut out, item);
        proof {
            assert(id_set(out@) =~= before.insert(v@[i as int]@));
            let p = texts_of(v@).subrange(0, i as int);
            let q = texts_of(v@).subrange(0, i + 1);
            assert(q =~= p.push(v@[i as int]@));
            assert forall|z: Seq<char>| q.to_set().contains(z) <==> p.to_set().insert(v@[i as int]@).contains(z) by {
                if q.to_set().contains(z) {
                    let k = choose|k: int| 0 <= k < q.len() && q[k] == z;
                    if k < p.len() {
                        assert(p[k] == z);
                    }
                }
                if p.to_set().contains(z) {
                    let k = choose|k: int| 0 <= k < p.len() && p[k] == z;
                    assert(q[k] == z);
                }
                if z == v@[i as int]@ {
                    assert(q[i as int] == z);
                }
            }
            assert(id_set(out@) =~= q.to_set());
        }
        i = i + 1;
    }
    proof {
        assert(texts_of(v@).subrange(0, i as int) =~= texts_of(v@));
        let q = texts_of(out@);
        assert(sorted_keys(q)) by {
            assert forall|x: int, y: int| 0 <= x < y < q.len() implies iri_lt(#[trigger] q[x].key(), #[trigger] q[y].key()) by {
                assert(iri_lt(out@[x].key(), out@[y].key()));
            }
        }
        assert(q.to_set() =~= id_set(out@)) by {
            assert forall|z: Seq<char>| q.to_set().contains(z) <==> id_set(out@).contains(z) by {
                if q.to_set().contains(z) {
                    let k = choose|k: int| 0 <= k < q.len() && q[k] == z;
                    assert(out@[k].key() == z);
                }
                if id_set(out@).contains(z) {
                    let k = crate::keyed::index_of_key(out@, z);
                    assert(q[k] == z);
                }
            }
        }
        let s = sorted_texts(v@);
        assert(sorted_keys(s) && s.to_set() == texts_of(v@).to_set());
        lemma_sorted_unique(q, s);
    }
    out
}

proof fn lemma_first_white_at(u: Seq<char>, k: int)
    requires
        0 <= k <= u.len(),
        forall|j: int| 0 <= j < k ==> !is_white(#[trigger] u[j]),
        k < u.len() ==> is_white(u[k]),
    ensures
        first_white(u) == (if k < u.len() {
            Some(k)
        } else {
            None::<int>
        }),
    decreases k,
{
    if k > 0 {
        lemma_first_white_at(u.drop_first(), k - 1);
    }
}

/// The first word of `v[start..hi]`, as bounds.
fn word_bounds(v: &Vec<char>, start: usize, hi: usize) -> (r: Option<(usize, usize)>)
    requires
        start <= hi <= v.len(),
    ensures
        match first_word(v@.subrange(start as int, hi as int)) {
            Some(w) => r matches Some((a, b)) && a <= b <= hi && v@.subrange(a as int, b as int)
                == w,
            None => r is None,
        },
{
    let ghost s = v@.subrange(start as int, hi as int);
    let mut a: usize = start;
    while a < hi && white(v[a])
        invariant
            start <= a <= hi <= v.len(),
            forall|j: int| start <= j < a ==> is_white(#[trigger] v@[j]),
        decreases hi - a,
    {
        a = a + 1;
    }
    proof {
        assert forall|j: int| 0 <= j < a - start implies is_white(#[trigger] s[j]) by {
            assert(s[j] == v@[start + j]);
        }
        lemma_leading_skip(s, a - start);
        assert(s.skip(a - start) =~= v@.subrange(a as int, hi as int));
        if a < hi {
            assert(s.skip(a - start)[0] == v@[a as int]);
        }
        assert(leading_white(s.skip(a - start)) == 0);
    }
    if a == hi {
        return None;
    }
    let mut b: usize = a;
    while b < hi && !white(v[b])
        invariant
            a <= b <= hi <= v.len(),
            forall|j: int| a <= j < b ==> !is_white(#[trigger] v@[j]),
        decreases hi - b,
    {
        b = b + 1;
    }
    proof {
        let u = v@.subrange(a as int, hi as int);
        assert forall|j: int| 0 <= j < b - a implies !is_white(#[trigger] u[j]) by {
            assert(u[j] == v@[a + j]);
        }
        if b < hi {
            assert(u[b - a] == v@[b as int]);
        }
        lemma_first_white_at(u, b - a);
        assert(u.take(b - a) =~= v@.subrange(a as int, b as int));
        if b == hi {
            assert(u =~= v@.subrange(a as int, b as int));
        }
    }
    Some((a, b))
}

/// The task that a scheduler command runs: for a shell command `task <name> ...`,
/// otherwise the command's first word.
pub fn scheduler_task_reference(command: &str, shell: bool) -> (r: Option<String>)
    ensures
        match task_reference(command@, shell) {
            Some(w) => r matches Some(x) && x@ == w,
            None => r is None,
        },
{
    let v = chars_of(command);
    let (lo, hi) = trim_bounds(&v, 0, v.len());
    assert(v@.subrange(0, v.len() as int) =~= command@);
    let ghost t = v@.subrange(lo as int, hi as int);
    if lo == hi {
        return None;
    }
    let start = if shell {
        proof {
            reveal_strlit("task ");
        }
        if hi - lo >= 5 && v[lo] == 't' && v[lo + 1] == 'a' && v[lo + 2] == 's' && v[lo + 3] == 'k'
            && v[lo + 4] == ' ' {
            assert(t.take(5) =~= "task "@);
            assert(t.skip(5) =~= v@.subrange(lo + 5, hi as int));
            lo + 5
        } else {
            proof {
                if t.len() >= 5 && t.take(5) == "task "@ {
                    assert(t.take(5)[0] == v@[lo as int]);
                    assert(t.take(5)[1] == v@[lo + 1]);
                    assert(t.take(5)[2] == v@[lo + 2]);
                    assert(t.take(5)[3] == v@[lo + 3]);
                    assert(t.take(5)[4] == v@[lo + 4]);
                }
            }
            return None;
        }
    } else {
        lo
    };
    match word_bounds(&v, start, hi) {
        Some((a, b)) => Some(string_from(&v, a, b)),
        None => None,
    }
}

proof fn lemma_nodes_view_keys(s: Seq<GraphNode>)
    ensures
        same_keys(s, nodes_view(s)),
        sorted_keys(s) == sorted_keys(nodes_view(s)),
{
    assert forall|i: int| 0 <= i < s.len() implies #[trigger] s[i].key() == nodes_view(s)[i].key() by {}
    lemma_same_keys(s, nodes_view(s));
}

/// Files `node` under its identifier, replacing what was there.
fn upsert_node(nodes: &mut Vec<GraphNode>, node: GraphNode)
    requires
        sorted_keys(old(nodes)@),
    ensures
        sorted_keys(final(nodes)@),
        key_map(nodes_view(final(nodes)@)) == key_map(nodes_view(old(nodes)@)).insert(
            node.id@,
            node_view(node),
        ),
{
    let ghost nv = node_view(node);
    let ghost before = nodes@;
    proof {
        lemma_nodes_view_keys(before);
    }
    let r = upsert_keyed(nodes, node);
    proof {
        let bv = nodes_view(before);
        match r {
            Ok(i) => {
                assert(nodes_view(nodes@) =~= bv.update(i as int, nv));
                lemma_update_at(bv, i as int, nv);
            },
            Err(p) => {
                assert(nodes_view(nodes@) =~= bv.insert(p as int, nv));
                assert forall|j: int| 0 <= j < p implies iri_lt(#[trigger] bv[j].key(), nv.key()) by {
                    assert(bv[j].key() == before[j].key());
                }
                assert forall|j: int| p <= j < bv.len() implies iri_lt(nv.key(), #[trigger] bv[j].key()) by {
                    assert(bv[j].key() == before[j].key());
                }
                lemma_insert_at(bv, p as int, nv);
            },
        }
    }
}

fn prefixed(prefix: &str, name: &str) -> (r: String)
    ensures
        r@ == prefix@ + name@,
{
    let mut s = prefix.to_owned();
    s.append(name);
    s
}

fn clone_opt_string(o: &Option<String>) -> (r: Option<String>)
    ensures
        r == *o,
{
    match o {
        Some(s) => Some(s.clone()),
        None => None,
    }
}

proof fn lemma_file_step(m: Map<Seq<char>, NodeView>, ns: Seq<NodeView>, i: int)
    requires
        0 <= i < ns.len(),
    ensures
        file_nodes(m, ns.subrange(0, i + 1)) == file_nodes(m, ns.subrange(0, i)).insert(ns[i].id, ns[i]),
{
    assert(ns.subrange(0, i + 1).drop_last() =~= ns.subrange(0, i));
}

/// The graph of the application `app_name` with these tasks, routes, workers
/// and jobs.
pub fn assemble(
    app_name: &str,
    tasks: Vec<TaskDescriptor>,
    routes: Vec<RouteDescriptor>,
    workers: Vec<BackgroundWorkerDescriptor>,
    jobs: Vec<SchedulerJobDescriptor>,
) -> (r: ApplicationGraph)
    ensures
        sorted_keys(nodes_view(r.nodes@)),
        key_map(nodes_view(r.nodes@)) == graph_nodes(app_name@, tasks@, routes@, workers@, jobs@),
        edges_sorted(edges_view(r.edges@)),
        edges_view(r.edges@).to_set() == graph_edges(app_name@, tasks@, routes@, workers@, jobs@),
{
    let ghost app = app_name@;
    let root_id = prefixed("app:", app_name);
    let mut nodes: Vec<GraphNode> = Vec::new();
    let mut edges: Vec<GraphEdge> = Vec::new();
    upsert_node(
        &mut nodes,
        GraphNode { id: root_id.clone(), kind: ComponentKind::Application { name: app_name.to_owned() } },
    );
    let ghost root = Map::<Seq<char>, NodeView>::empty().insert(app_id(app), app_node(app));
    proof {
        assert(key_map(nodes_view(Seq::<GraphNode>::empty())) =~= Map::<Seq<char>, NodeView>::empty());
        assert(edges_view(edges@) =~= Seq::<EdgeView>::empty());
        assert(task_nodes(tasks@).subrange(0, 0) =~= Seq::<NodeView>::empty());
        assert(edges_view(edges@).to_set() =~= Set::<EdgeView>::empty());
    }
    let mut task_names: Vec<String> = Vec::new();
    let mut i: usize = 0;
    while i < tasks.len()
        invariant
            root_id@ == app_id(app),
            app == app_name@,
            i <= tasks.len(),
            sorted_keys(nodes@),
            key_map(nodes_view(nodes@)) == file_nodes(root, task_nodes(tasks@).subrange(0, i as int)),
            edges_sorted(edges_view(edges@)),
            forall|e: EdgeView| #[trigger] edges_view(edges@).to_set().contains(e) <==> task_edge(app, tasks@, i as int, e),
            sorted_keys(task_names@),
            forall|x: Seq<char>| #[trigger] id_set(task_names@).contains(x) <==> exists|t: int| 0 <= t < i && #[trigger] tasks@[t].name@ == x,
        decreases tasks.len() - i,
    {
        let d = &tasks[i];
        let node_id = prefixed("task:", d.name.as_str());
        let ghost before_edges = edges_view(edges@).to_set();
        let ghost before_names = id_set(task_names@);
        upsert_node(
            &mut nodes,
            GraphNode {
                id: node_id.clone(),
                kind: ComponentKind::Task { name: d.name.clone(), detail: clone_opt_string(&d.detail) },
            },
        );
        insert_keyed(&mut task_names, d.name.clone());
        insert_edge(&mut edges, GraphEdge { from: root_id.clone(), to: node_id, kind: EdgeKind::Contains });
        proof {
            lemma_file_step(root, task_nodes(tasks@), i as int);
            assert(task_nodes(tasks@)[i as int] == task_node(tasks@[i as int]));
            let ne = contains(app, task_id(tasks@[i as int].name@));
            assert forall|e: EdgeView| #[trigger] edges_view(edges@).to_set().contains(e) <==> task_edge(app, tasks@, i + 1, e) by {
                if e == ne {
                    assert(task_edge(app, tasks@, i + 1, e));
                }
                if task_edge(app, tasks@, i + 1, e) && e != ne {
                    let k = choose|k: int| 0 <= k < i + 1 && e == contains(app, task_id(#[trigger] tasks@[k].name@));
                    assert(k < i);
                    assert(task_edge(app, tasks@, i as int, e));
                }
            }
            assert forall|x: Seq<char>| #[trigger] id_set(task_names@).contains(x) <==> exists|t: int| 0 <= t < i + 1 && #[trigger] tasks@[t].name@ == x by {
                if x == tasks@[i as int].name@ {
                    assert(tasks@[i as int].name@ == x);
                }
                if exists|t: int| 0 <= t < i + 1 && #[trigger] tasks@[t].name@ == x {
                    let t = choose|t: int| 0 <= t < i + 1 && #[trigger] tasks@[t].name@ == x;
                    if t < i {
                        assert(before_names.contains(x));
                    }
                }
            }
        }
        i = i + 1;
    }
    let ghost m1 = file_nodes(root, task_nodes(tasks@));
    assert(task_nodes(tasks@).subrange(0, tasks.len() as int) =~= task_nodes(tasks@));
    assert(route_nodes(routes@).subrange(0, 0) =~= Seq::<NodeView>::empty());
    let mut i: usize = 0;
    while i < routes.len()
        invariant
            root_id@ == app_id(app),
            app == app_name@,
            i <= routes.len(),
            sorted_keys(nodes@),
            key_map(nodes_view(nodes@)) == file_nodes(m1, route_nodes(routes@).subrange(0, i as int)),
            edges_sorted(edges_view(edges@)),
            forall|e: EdgeView| #[trigger] edges_view(edges@).to_set().contains(e) <==> (task_edge(app, tasks@, tasks@.len() as int, e) || route_edge(app, routes@, i as int, e)),
            sorted_keys(task_names@),
            forall|x: Seq<char>| #[trigger] id_set(task_names@).contains(x) <==> exists|t: int| 0 <= t < tasks@.len() && #[trigger] tasks@[t].name@ == x,
        decreases routes.len() - i,
    {
        let d = &routes[i];
        let node_id = prefixed("route:", d.path.as_str());
        let methods = sort_dedup(clone_strings(&d.methods));
        upsert_node(
            &mut nodes,
            GraphNode { id: node_id.clone(), kind: ComponentKind::HttpRoute { path: d.path.clone(), methods } },
        );
        insert_edge(&mut edges, GraphEdge { from: root_id.clone(), to: node_id, kind: EdgeKind::Contains });
        proof {
            lemma_file_step(m1, route_nodes(routes@), i as int);
            assert(route_nodes(routes@)[i as int] == route_node(routes@[i as int]));
            let ne = contains(app, route_id(routes@[i as int].path@));
            assert forall|e: EdgeView| #[trigger] edges_view(edges@).to_set().contains(e) <==> (task_edge(app, tasks@, tasks@.len() as int, e) || route_edge(app, routes@, i + 1, e)) by {
                if e == ne {
                    assert(route_edge(app, routes@, i + 1, e));
                }
                if route_edge(app, routes@, i + 1, e) && e != ne {
                    let k = choose|k: int| 0 <= k < i + 1 && e == contains(app, route_id(#[trigger] routes@[k].path@));
                    assert(k < i);
                    assert(route_edge(app, routes@, i as int, e));
                }
            }
        }
        i = i + 1;
    }
    let ghost m2 = file_nodes(m1, route_nodes(routes@));
    assert(route_nodes(routes@).subrange(0, routes.len() as int) =~= route_nodes(routes@));
    assert(worker_nodes(workers@).subrange(0, 0) =~= Seq::<NodeView>::empty());
    let mut i: usize = 0;
    while i < workers.len()
        invariant
            root_id@ == app_id(app),
            app == app_name@,
            i <= workers.len(),
            sorted_keys(nodes@),
            key_map(nodes_view(nodes@)) == file_nodes(m2, worker_nodes(workers@).subrange(0, i as int)),
            edges_sorted(edges_view(edges@)),
            forall|e: EdgeView| #[trigger] edges_view(edges@).to_set().contains(e) <==> (task_edge(app, tasks@, tasks@.len() as int, e) || route_edge(app, routes@, routes@.len() as int, e) || worker_edge(app, workers@, i as int, e)),
            sorted_keys(task_names@),
            forall|x: Seq<char>| #[trigger] id_set(task_names@).contains(x) <==> exists|t: int| 0 <= t < tasks@.len() && #[trigger] tasks@[t].name@ == x,
        decreases workers.len() - i,
    {
        let d = &workers[i];
        let node_id = prefixed("worker:", d.name.as_str());
        upsert_node(
            &mut nodes,
            GraphNode {
                id: node_id.clone(),
                kind: ComponentKind::BackgroundWorker { name: d.name.clone(), queue: clone_opt_string(&d.queue) },
            },
        );
        insert_edge(&mut edges, GraphEdge { from: root_id.clone(), to: node_id, kind: EdgeKind::Contains });
        proof {
            lemma_file_step(m2, worker_nodes(workers@), i as int);
            assert(worker_nodes(workers@)[i as int] == worker_node(workers@[i as int]));
            let ne = contains(app, worker_id(workers@[i as int].name@));
            assert forall|e: EdgeView| #[trigger] edges_view(edges@).to_set().contains(e) <==> (task_edge(app, tasks@, tasks@.len() as int, e) || route_edge(app, routes@, routes@.len() as int, e) || worker_edge(app, workers@, i + 1, e)) by {
                if e == ne {
                    assert(worker_edge(app, workers@, i + 1, e));
                }
                if worker_edge(app, workers@, i + 1, e) && e != ne {
                    let k = choose|k: int| 0 <= k < i + 1 && e == contains(app, worker_id(#[trigger] workers@[k].name@));
                    assert(k < i);
                    assert(worker_edge(app, workers@, i as int, e));
                }
            }
        }
        i = i + 1;
    }
    let ghost m3 = file_nodes(m2, worker_nodes(workers@));
    assert(worker_nodes(workers@).subrange(0, workers.len() as int) =~= worker_nodes(workers@));
    assert(job_nodes(jobs@).subrange(0, 0) =~= Seq::<NodeView>::empty());
    let mut i: usize = 0;
    while i < jobs.len()
        invariant
            root_id@ == app_id(app),
            app == app_name@,
            i <= jobs.len(),
            sorted_keys(nodes@),
            key_map(nodes_view(nodes@)) == file_nodes(m3, job_nodes(jobs@).subrange(0, i as int)),
            edges_sorted(edges_view(edges@)),
            forall|e: EdgeView| #[trigger] edges_view(edges@).to_set().contains(e) <==> (task_edge(app, tasks@, tasks@.len() as int, e) || route_edge(app, routes@, routes@.len() as int, e) || worker_edge(app, workers@, workers@.len() as int, e) || job_edge(app, tasks@, jobs@, i as int, e)),
            sorted_keys(task_names@),
            forall|x: Seq<char>| #[trigger] id_set(task_names@).contains(x) <==> exists|t: int| 0 <= t < tasks@.len() && #[trigger] tasks@[t].name@ == x,
        decreases jobs.len() - i,
    {
        let d = &jobs[i];
        let node_id = prefixed("scheduler:", d.name.as_str());
        let tags = sort_dedup(clone_strings(&d.tags));
        let trigger = scheduler_task_reference(d.command.as_str(), d.shell);
        upsert_node(
            &mut nodes,
            GraphNode {
                id: node_id.clone(),
                kind: ComponentKind::SchedulerJob {
                    name: d.name.clone(),
                    schedule: d.schedule.clone(),
                    command: d.command.clone(),
                    run_on_start: d.run_on_start,
                    shell: d.shell,
                    tags,
                },
            },
        );
        insert_edge(&mut edges, GraphEdge { from: root_id.clone(), to: node_id.clone(), kind: EdgeKind::Contains });
        let ghost mid = edges_view(edges@).to_set();
        let ghost jt = job_trigger(tasks@, jobs@[i as int]);
        match trigger {
            Some(task_name) => {
                if crate::keyed::locate(&task_names, task_name.as_str()).is_ok() {
                    let to = prefixed("task:", task_name.as_str());
                    insert_edge(&mut edges, GraphEdge { from: node_id, to, kind: EdgeKind::Triggers });
                    proof {
                        assert(id_set(task_names@).contains(task_name@));
                        assert(exists|t: int| 0 <= t < tasks@.len() && #[trigger] tasks@[t].name@ == task_name@);
                        assert(task_reference(jobs@[i as int].command@, jobs@[i as int].shell) == Some(task_name@));
                        assert(jt == Some(EdgeView { from: job_id(jobs@[i as int].name@), to: task_id(task_name@), kind: EdgeKind::Triggers }));
                    }
                } else {
                    proof {
                        if exists|t: int| 0 <= t < tasks@.len() && #[trigger] tasks@[t].name@ == task_name@ {
                            let t = choose|t: int| 0 <= t < tasks@.len() && #[trigger] tasks@[t].name@ == task_name@;
                            assert(id_set(task_names@).contains(task_name@));
                        }
                        assert(jt is None);
                    }
                }
            },
            None => {},
        }
        proof {
            lemma_file_step(m3, job_nodes(jobs@), i as int);
            assert(job_nodes(jobs@)[i as int] == job_node(jobs@[i as int]));
            let ne = contains(app, job_id(jobs@[i as int].name@));
            assert forall|e: EdgeView| #[trigger] edges_view(edges@).to_set().contains(e) <==> (task_edge(app, tasks@, tasks@.len() as int, e) || route_edge(app, routes@, routes@.len() as int, e) || worker_edge(app, workers@, workers@.len() as int, e) || job_edge(app, tasks@, jobs@, i + 1, e)) by {
                if e == ne || jt == Some(e) {
                    assert(job_edge(app, tasks@, jobs@, i + 1, e));
                }
                if job_edge(app, tasks@, jobs@, i + 1, e) && e != ne && jt != Some(e) {
                    let k = choose|k: int| 0 <= k < i + 1 && (e == contains(app, job_id(#[trigger] jobs@[k].name@)) || job_trigger(tasks@, jobs@[k]) == Some(e));
                    assert(k < i);
                    assert(job_edge(app, tasks@, jobs@, i as int, e));
                }
            }
        }
        i = i + 1;
    }
    assert(job_nodes(jobs@).subrange(0, jobs.len() as int) =~= job_nodes(jobs@));
    proof {
        lemma_nodes_view_keys(nodes@);
        assert(edges_view(edges@).to_set() =~= graph_edges(app, tasks@, routes@, workers@, jobs@));
    }
    ApplicationGraph { nodes, edges }
}

fn clone_strings(v: &Vec<String>) -> (r: Vec<String>)
    ensures
        r@ == v@,
{
    let r = v.clone();
    assert(r@ =~= v@);
    r
}

/// Builds the graph from the four sources of the application's parts.
pub struct GraphBuilder<'a, R: RoutesRepository, B: BackgroundWorkerRepository, S: SchedulerRepository, T: TaskRepository> {
    app_name: &'a str,
    routes: &'a R,
    background_workers: &'a B,
    scheduler: &'a S,
    tasks: &'a T,
}

impl<'a, R: RoutesRepository, B: BackgroundWorkerRepository, S: SchedulerRepository, T: TaskRepository> GraphBuilder<'a, R, B, S, T> {
    pub closed spec fn app_name_view(&self) -> Seq<char> {
        self.app_name@
    }

    pub fn new(app_name: &'a str, routes: &'a R, background_workers: &'a B, scheduler: &'a S, tasks: &'a T) -> (r: Self)
        ensures
            r.app_name_view() == app_name@,
    {
        GraphBuilder { app_name, routes, background_workers, scheduler, tasks }
    }

    /// Asks each source for its parts and assembles the graph from what they return.
    pub fn build(&self) -> (r: ApplicationGraph)
        ensures
            exists|tasks: Seq<TaskDescriptor>, routes: Seq<RouteDescriptor>, workers: Seq<BackgroundWorkerDescriptor>, jobs: Seq<SchedulerJobDescriptor>|
                key_map(nodes_view(r.nodes@)) == graph_nodes(self.app_name_view(), tasks, routes, workers, jobs)
                    && #[trigger] graph_edges(self.app_name_view(), tasks, routes, workers, jobs) == edges_view(r.edges@).to_set(),
            sorted_keys(nodes_view(r.nodes@)),
            edges_sorted(edges_view(r.edges@)),
    {
        let tasks = self.tasks.tasks();
        let routes = self.routes.routes();
        let workers = self.background_workers.workers();
        let jobs = self.scheduler.jobs();
        let ghost (t, ro, w, j) = (tasks@, routes@, workers@, jobs@);
        let r = assemble(self.app_name, tasks, routes, workers, jobs);
        assert(graph_edges(self.app_name_view(), t, ro, w, j) == edges_view(r.edges@).to_set());
        r
    }
}

} // verus!
