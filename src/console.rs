//! Reading the listings that `cargo loco` prints, and the request and response
//! shapes of the automation console.
use vstd::prelude::*;

use vstd::std_specs::iter::IteratorSpec;

use vstd::string::StringExecFns;

use crate::cli::{CommandOutput, RunDoctorRequest, RunGeneratorRequest, RunTaskRequest};
use crate::keyed::{key_map, lemma_key_map_at, lemma_sorted_unique, sorted_keys, upsert_keyed, Keyed, KeyedExec};

verus! {

broadcast use {vstd::string::axiom_spec_iter, vstd::string::next_postcondition};

/// Whether the character is white space in Unicode's sense.
pub uninterp spec fn is_white(c: char) -> bool;

/// Relies on char::is_whitespace: Unicode's White_Space property, a function of
/// the character alone.
#[verifier::external_body]
pub(crate) fn white(c: char) -> (r: bool)
    ensures
        r == is_white(c),
{
    c.is_whitespace()
}

/// Relies on `String`'s `FromIterator<char>`: the string of exactly the
/// characters `chars[lo..hi]`.
#[verifier::external_body]
pub(crate) fn string_from(chars: &Vec<char>, lo: usize, hi: usize) -> (r: String)
    requires
        lo <= hi <= chars.len(),
    ensures
        r@ == chars@.subrange(lo as int, hi as int),
{
    chars[lo..hi].iter().collect()
}

/// The characters of `s`, in order.
pub(crate) fn chars_of(s: &str) -> (r: Vec<char>)
    ensures
        r@ == s@,
{
    let mut it = s.chars();
    let mut out: Vec<char> = Vec::new();
    loop
        invariant
            it.obeys_prophetic_iter_laws(),
            it.decrease() is Some,
            out@ + it.remaining() == s@,
        decreases it.decrease()->0,
    {
        match it.next() {
            Some(c) => {
                out.push(c);
            },
            None => {
                assert(out@ =~= s@);
                return out;
            },
        }
    }
}

/// The number of white-space characters that `s` starts with.
pub open spec fn leading_white(s: Seq<char>) -> nat
    decreases s.len(),
{
    if s.len() > 0 && is_white(s[0]) {
        1 + leading_white(s.drop_first())
    } else {
        0
    }
}

/// The number of white-space characters that `s` ends with.
pub open spec fn trailing_white(s: Seq<char>) -> nat
    decreases s.len(),
{
    if s.len() > 0 && is_white(s.last()) {
        1 + trailing_white(s.drop_last())
    } else {
        0
    }
}

/// `s` without white space at either end.
pub open spec fn trimmed(s: Seq<char>) -> Seq<char> {
    let a = s.skip(leading_white(s) as int);
    a.take(a.len() - trailing_white(a))
}

/// Where the first white-space character of `s` stands, if any.
pub open spec fn first_white(s: Seq<char>) -> Option<int>
    decreases s.len(),
{
    if s.len() == 0 {
        None
    } else if is_white(s[0]) {
        Some(0)
    } else {
        match first_white(s.drop_first()) {
            Some(k) => Some(k + 1),
            None => None,
        }
    }
}

/// The command and summary that a listing line holds: a trimmed line that is
/// neither empty, a heading (ending in `:`) nor an option (starting with `-`),
/// split at its first white space into two parts that are not empty once trimmed.
pub open spec fn listing_entry(line: Seq<char>) -> Option<(Seq<char>, Seq<char>)> {
    let t = trimmed(line);
    if t.len() == 0 || t.last() == ':' || t[0] == '-' {
        None
    } else {
        match first_white(t) {
            None => None,
            Some(k) => {
                let command = trimmed(t.take(k));
                let summary = trimmed(t.skip(k));
                if command.len() == 0 || summary.len() == 0 {
                    None
                } else {
                    Some((command, summary))
                }
            },
        }
    }
}

pub(crate) proof fn lemma_leading_skip(s: Seq<char>, i: int)
    requires
        0 <= i <= s.len(),
        forall|j: int| 0 <= j < i ==> is_white(#[trigger] s[j]),
    ensures
        leading_white(s) == i + leading_white(s.skip(i)),
    decreases i,
{
    if i > 0 {
        assert(s.skip(1) =~= s.drop_first());
        lemma_leading_skip(s.drop_first(), i - 1);
        assert(s.drop_first().skip(i - 1) =~= s.skip(i));
    } else {
        assert(s.skip(0) =~= s);
    }
}

proof fn lemma_trailing_take(s: Seq<char>, i: int)
    requires
        0 <= i <= s.len(),
        forall|j: int| i <= j < s.len() ==> is_white(#[trigger] s[j]),
    ensures
        trailing_white(s) == (s.len() - i) + trailing_white(s.take(i)),
    decreases s.len() - i,
{
    if i < s.len() {
        lemma_trailing_take(s.drop_last(), i);
        assert(s.drop_last().take(i) =~= s.take(i));
    } else {
        assert(s.take(i) =~= s);
    }
}

/// Positions that bound `v[lo..hi]` with white space taken off both ends.
pub(crate) fn trim_bounds(v: &Vec<char>, lo: usize, hi: usize) -> (r: (usize, usize))
    requires
        lo <= hi <= v.len(),
    ensures
        lo <= r.0 <= r.1 <= hi,
        v@.subrange(r.0 as int, r.1 as int) == trimmed(v@.subrange(lo as int, hi as int)),
{
    let ghost s = v@.subrange(lo as int, hi as int);
    let mut a: usize = lo;
    while a < hi && white(v[a])
        invariant
            lo <= a <= hi <= v.len(),
            s == v@.subrange(lo as int, hi as int),
            forall|j: int| lo <= j < a ==> is_white(#[trigger] v@[j]),
        decreases hi - a,
    {
        a = a + 1;
    }
    proof {
        assert forall|j: int| 0 <= j < a - lo implies is_white(#[trigger] s[j]) by {
            assert(s[j] == v@[lo + j]);
        }
        lemma_leading_skip(s, a - lo);
        if a - lo < s.len() {
            assert(s.skip(a - lo)[0] == v@[a as int]);
        }
        assert(leading_white(s.skip(a - lo)) == 0);
    }
    let ghost t = v@.subrange(a as int, hi as int);
    assert(t =~= s.skip(a - lo));
    let mut b: usize = hi;
    while b > a && white(v[b - 1])
        invariant
            lo <= a <= b <= hi <= v.len(),
            t == v@.subrange(a as int, hi as int),
            forall|j: int| b <= j < hi ==> is_white(#[trigger] v@[j]),
        decreases b - a,
    {
        b = b - 1;
    }
    proof {
        assert forall|j: int| b - a <= j < t.len() implies is_white(#[trigger] t[j]) by {
            assert(t[j] == v@[a + j]);
        }
        lemma_trailing_take(t, b - a);
        if b > a {
            assert(t.take(b - a).last() == v@[b - 1]);
        }
        assert(trailing_white(t.take(b - a)) == 0);
        assert(v@.subrange(a as int, b as int) =~= t.take(b - a));
    }
    (a, b)
}

/// A command named in a listing, with its one-line summary.
#[derive(Clone, Debug, PartialEq, Eq)]
pub struct ListableCommand {
    pub command: String,
    pub summary: String,
}

/// Reads one line of a listing.
pub fn parse_listable_command(line: &str) -> (r: Option<ListableCommand>)
    ensures
        match listing_entry(line@) {
            Some((c, s)) => r matches Some(lc) && lc.command@ == c && lc.summary@ == s,
            None => r is None,
        },
{
    let v = chars_of(line);
    assert(v@.subrange(0, v.len() as int) =~= line@);
    parse_entry(&v, 0, v.len())
}

/// Reads the listing line `v[from..to]`.
fn parse_entry(v: &Vec<char>, from: usize, to: usize) -> (r: Option<ListableCommand>)
    requires
        from <= to <= v.len(),
    ensures
        match listing_entry(v@.subrange(from as int, to as int)) {
            Some((c, s)) => r matches Some(lc) && lc.command@ == c && lc.summary@ == s,
            None => r is None,
        },
{
    let (lo, hi) = trim_bounds(v, from, to);
    let ghost t = v@.subrange(lo as int, hi as int);
    if lo == hi || v[hi - 1] == ':' || v[lo] == '-' {
        return None;
    }
    let mut k: usize = lo;
    while k < hi && !white(v[k])
        invariant
            lo <= k <= hi <= v.len(),
            t == v@.subrange(lo as int, hi as int),
            forall|j: int| lo <= j < k ==> !is_white(#[trigger] v@[j]),
            first_white(t) == match first_white(v@.subrange(k as int, hi as int)) {
                Some(x) => Some(x + (k - lo)),
                None => None,
            },
        decreases hi - k,
    {
        proof {
            let u = v@.subrange(k as int, hi as int);
            assert(u.drop_first() =~= v@.subrange(k + 1, hi as int));
        }
        k = k + 1;
    }
    if k == hi {
        assert(v@.subrange(k as int, hi as int) =~= Seq::<char>::empty());
        return None;
    }
    let ghost k0 = k - lo;
    assert(first_white(t) == Some(k0 as int));
    let (c0, c1) = trim_bounds(v, lo, k);
    let (s0, s1) = trim_bounds(v, k, hi);
    assert(t.take(k0 as int) =~= v@.subrange(lo as int, k as int));
    assert(t.skip(k0 as int) =~= v@.subrange(k as int, hi as int));
    if c0 == c1 || s0 == s1 {
        return None;
    }
    let command = string_from(v, c0, c1);
    let summary = string_from(v, s0, s1);
    Some(ListableCommand { command, summary })
}

/// Where the first line feed of `s` stands, if any.
pub open spec fn first_newline(s: Seq<char>) -> Option<int>
    decreases s.len(),
{
    if s.len() == 0 {
        None
    } else if s[0] == '\n' {
        Some(0)
    } else {
        match first_newline(s.drop_first()) {
            Some(k) => Some(k + 1),
            None => None,
        }
    }
}

/// A line that ended in a line feed, without a carriage return before it.
pub open spec fn without_cr(l: Seq<char>) -> Seq<char> {
    if l.len() > 0 && l.last() == '\r' {
        l.drop_last()
    } else {
        l
    }
}

/// The lines of `s`: split at each line feed, a carriage return before it
/// dropped, with no empty line after a final line feed.
pub open spec fn split_lines(s: Seq<char>) -> Seq<Seq<char>>
    decreases s.len(),
{
    if s.len() == 0 {
        Seq::empty()
    } else {
        match first_newline(s) {
            Some(k) => if 0 <= k < s.len() {
                seq![without_cr(s.take(k))] + split_lines(s.skip(k + 1))
            } else {
                Seq::empty()
            },
            None => seq![s],
        }
    }
}

/// The entries that the lines hold, in order.
pub open spec fn listing_entries(lines: Seq<Seq<char>>) -> Seq<(Seq<char>, Seq<char>)>
    decreases lines.len(),
{
    if lines.len() == 0 {
        Seq::empty()
    } else {
        let rest = listing_entries(lines.drop_last());
        match listing_entry(lines.last()) {
            Some(e) => rest.push(e),
            None => rest,
        }
    }
}

pub open spec fn entry_texts(v: Seq<ListableCommand>) -> Seq<(Seq<char>, Seq<char>)> {
    v.map_values(|c: ListableCommand| (c.command@, c.summary@))
}

/// Reads every line of a listing, keeping the entries.
pub fn parse_listable_commands(stdout: &str) -> (r: Vec<ListableCommand>)
    ensures
        entry_texts(r@) == listing_entries(split_lines(stdout@)),
{
    let v = chars_of(stdout);
    let ghost s = stdout@;
    let mut out: Vec<ListableCommand> = Vec::new();
    let ghost mut done: Seq<Seq<char>> = Seq::empty();
    let mut pos: usize = 0;
    assert(s.skip(0) =~= s);
    while pos < v.len()
        invariant
            v@ == s,
            pos <= v.len(),
            split_lines(s) == done + split_lines(s.skip(pos as int)),
            entry_texts(out@) == listing_entries(done),
        decreases v.len() - pos,
    {
        let ghost rest = s.skip(pos as int);
        let mut k: usize = pos;
        while k < v.len() && v[k] != '\n'
            invariant
                v@ == s,
                pos <= k <= v.len(),
                rest == s.skip(pos as int),
                forall|j: int| pos <= j < k ==> v@[j] != '\n',
                first_newline(rest) == match first_newline(s.skip(k as int)) {
                    Some(x) => Some(x + (k - pos)),
                    None => None,
                },
            decreases v.len() - k,
        {
            assert(s.skip(k as int).drop_first() =~= s.skip(k + 1));
            k = k + 1;
        }
        let mut end: usize = k;
        if k < v.len() && k > pos && v[k - 1] == '\r' {
            end = k - 1;
        }
        let ghost line = if k < v.len() {
            without_cr(rest.take(k - pos))
        } else {
            rest
        };
        proof {
            assert(rest.take(k - pos) =~= v@.subrange(pos as int, k as int));
            if k < v.len() {
                assert(first_newline(s.skip(k as int)) == Some(0int));
                assert(first_newline(rest) == Some((k - pos) as int));
                assert(split_lines(rest) == seq![line] + split_lines(rest.skip(k - pos + 1)));
                assert(rest.skip(k - pos + 1) =~= s.skip(k + 1));
                if end < k {
                    assert(line =~= v@.subrange(pos as int, end as int));
                } else {
                    assert(line =~= v@.subrange(pos as int, end as int));
                }
            } else {
                assert(s.skip(k as int) =~= Seq::<char>::empty());
                assert(first_newline(rest) is None);
                assert(split_lines(rest) == seq![rest]);
                assert(rest =~= v@.subrange(pos as int, end as int));
            }
        }
        let entry = parse_entry(&v, pos, end);
        let ghost before = out@;
        if let Some(e) = entry {
            out.push(e);
        }
        proof {
            let nd = done.push(line);
            assert(nd.drop_last() =~= done);
            if k < v.len() {
                assert(done + split_lines(rest) =~= nd + split_lines(s.skip(k + 1)));
            } else {
                assert(done + split_lines(rest) =~= nd);
                assert(s.skip(k as int) =~= Seq::<char>::empty());
                assert(nd + split_lines(s.skip(k as int)) =~= nd);
            }
            assert(entry_texts(out@) =~= listing_entries(nd));
            done = nd;
        }
        pos = if k < v.len() {
            k + 1
        } else {
            k
        };
    }
    proof {
        assert(s.skip(pos as int) =~= Seq::<char>::empty());
        assert(done + split_lines(s.skip(pos as int)) =~= done);
    }
    out
}

/// Arguments for running a generator.
#[derive(Clone, Debug, Default, PartialEq, Eq)]
pub struct GenerationRequest {
    pub generator: String,
    pub arguments: Vec<String>,
    pub environment: Option<String>,
}

/// Arguments for running a task; each parameter becomes `name:value`.
#[derive(Clone, Debug, Default, PartialEq, Eq)]
pub struct TaskRunRequest {
    pub task: String,
    pub arguments: Vec<String>,
    pub params: Vec<TaskParam>,
    pub environment: Option<String>,
}

/// A parameter name and its value.
pub type TaskParam = (String, String);

impl Keyed for (String, String) {
    open spec fn key(&self) -> Seq<char> {
        self.0@
    }
}

impl KeyedExec for (String, String) {
    fn key_str(&self) -> (r: &str) {
        self.0.as_str()
    }
}

/// The parameters by name, a later value replacing an earlier one.
pub open spec fn param_map(params: Seq<TaskParam>) -> Map<Seq<char>, Seq<char>>
    decreases params.len(),
{
    if params.len() == 0 {
        Map::empty()
    } else {
        param_map(params.drop_last()).insert(params.last().0@, params.last().1@)
    }
}

/// The names of the parameters, each once, in order.
pub open spec fn param_names(params: Seq<TaskParam>) -> Seq<Seq<char>> {
    choose|q: Seq<Seq<char>>| sorted_keys(q) && q.to_set() == param_map(params).dom()
}

/// `name:value` for each parameter, in name order.
pub open spec fn param_args(params: Seq<TaskParam>) -> Seq<Seq<char>> {
    param_names(params).map_values(|k: Seq<char>| k + ":"@ + param_map(params)[k])
}

impl TaskRunRequest {
    /// The run request: the arguments, then `name:value` for each parameter in
    /// name order, a later value of a name replacing an earlier one.
    pub fn into_run_request(self) -> (r: RunTaskRequest)
        ensures
            r.task == self.task,
            r.environment == self.environment,
            crate::cli::strs(r.arguments@) == crate::cli::strs(self.arguments@) + param_args(
                self.params@,
            ),
    {
        let TaskRunRequest { task, arguments, params, environment } = self;
        let mut by_name: Vec<TaskParam> = Vec::new();
        let mut i: usize = 0;
        assert(key_map(by_name@).dom() =~= Set::<Seq<char>>::empty());
        assert(params@.subrange(0, 0) =~= Seq::<TaskParam>::empty());
        while i < params.len()
            invariant
                i <= params.len(),
                sorted_keys(by_name@),
                key_map(by_name@).dom() == param_map(params@.subrange(0, i as int)).dom(),
                forall|k: Seq<char>| #[trigger] key_map(by_name@).contains_key(k) ==> key_map(by_name@)[k].1@ == param_map(params@.subrange(0, i as int))[k],
            decreases params.len() - i,
        {
            let p = (params[i].0.clone(), params[i].1.clone());
            upsert_keyed(&mut by_name, p);
            proof {
                assert(params@.subrange(0, i + 1).drop_last() =~= params@.subrange(0, i as int));
                assert(key_map(by_name@).dom() =~= param_map(params@.subrange(0, i + 1)).dom());
            }
            i = i + 1;
        }
        assert(params@.subrange(0, i as int) =~= params@);
        let mut args = arguments;
        let ghost base = crate::cli::strs(args@);
        let mut j: usize = 0;
        while j < by_name.len()
            invariant
                j <= by_name.len(),
                crate::cli::strs(args@) == base + by_name@.subrange(0, j as int).map_values(
                    |e: TaskParam| e.0@ + ":"@ + e.1@,
                ),
            decreases by_name.len() - j,
        {
            let mut item = by_name[j].0.clone();
            item.append(":");
            item.append(by_name[j].1.as_str());
            let ghost prev = args@;
            args.push(item);
            assert(by_name@.subrange(0, j + 1).map_values(|e: TaskParam| e.0@ + ":"@ + e.1@) =~= by_name@.subrange(0, j as int).map_values(|e: TaskParam| e.0@ + ":"@ + e.1@).push(by_name@[j as int].0@ + ":"@ + by_name@[j as int].1@));
            assert(crate::cli::strs(args@) =~= crate::cli::strs(prev).push(item@));
            j = j + 1;
        }
        proof {
            assert(by_name@.subrange(0, j as int) =~= by_name@);
            let q = by_name@.map_values(|e: TaskParam| e.0@);
            assert(sorted_keys(q)) by {
                assert forall|x: int, y: int| 0 <= x < y < q.len() implies crate::iri::iri_lt(#[trigger] q[x].key(), #[trigger] q[y].key()) by {
                    assert(crate::iri::iri_lt(by_name@[x].key(), by_name@[y].key()));
                }
            }
            assert(q.to_set() =~= param_map(params@).dom()) by {
                assert forall|z: Seq<char>| q.to_set().contains(z) <==> param_map(params@).dom().contains(z) by {
                    if q.to_set().contains(z) {
                        let k = choose|k: int| 0 <= k < q.len() && q[k] == z;
                        lemma_key_map_at(by_name@, k);
                    }
                    if param_map(params@).dom().contains(z) {
                        assert(key_map(by_name@).contains_key(z));
                        let k = crate::keyed::index_of_key(by_name@, z);
                        assert(q[k] == z);
                    }
                }
            }
            let names = param_names(params@);
            assert(sorted_keys(names) && names.to_set() == param_map(params@).dom());
            lemma_sorted_unique(q, names);
            assert forall|k: int| 0 <= k < by_name@.len() implies by_name@[k].1@ == param_map(params@)[#[trigger] by_name@[k].0@] by {
                lemma_key_map_at(by_name@, k);
            }
            assert(by_name@.map_values(|e: TaskParam| e.0@ + ":"@ + e.1@) =~= param_args(params@));
        }
        RunTaskRequest { environment, task, arguments: args }
    }
}

impl GenerationRequest {
    /// The run request for the generator.
    pub fn into_run_request(self) -> (r: RunGeneratorRequest)
        ensures
            r.generator == self.generator,
            r.arguments == self.arguments,
            r.environment == self.environment,
    {
        RunGeneratorRequest { environment: self.environment, generator: self.generator, arguments: self.arguments }
    }
}

impl DoctorSnapshotRequest {
    /// The doctor run with the same checks.
    pub fn into_run_request(self) -> (r: RunDoctorRequest)
        ensures
            r.environment == self.environment,
            r.production == self.production,
            r.config == self.config,
            r.graph == self.graph,
            r.assistant == self.assistant,
    {
        RunDoctorRequest {
            environment: self.environment,
            production: self.production,
            config: self.config,
            graph: self.graph,
            assistant: self.assistant,
        }
    }
}

/// Which checks a doctor run includes.
#[derive(Clone, Debug, Default, PartialEq, Eq)]
pub struct DoctorSnapshotRequest {
    pub environment: Option<String>,
    pub production: bool,
    pub config: bool,
    pub graph: bool,
    pub assistant: bool,
}

/// The environment that a listing is asked for.
#[derive(Clone, Debug, Default, PartialEq, Eq)]
pub struct AutomationQuery {
    pub environment: Option<String>,
}

/// What a finished command produced, as the console reports it.
#[derive(Clone, Debug, PartialEq, Eq)]
pub struct CommandExecution {
    pub status: i32,
    pub stdout: String,
    pub stderr: String,
}

impl From<CommandOutput> for CommandExecution {
    fn from(output: CommandOutput) -> (r: CommandExecution) {
        CommandExecution { status: output.status, stdout: output.stdout, stderr: output.stderr }
    }
}

impl vstd::std_specs::convert::FromSpecImpl<CommandOutput> for CommandExecution {
    open spec fn obeys_from_spec() -> bool {
        true
    }

    open spec fn from_spec(output: CommandOutput) -> CommandExecution {
        CommandExecution { status: output.status, stdout: output.stdout, stderr: output.stderr }
    }
}

} // verus!
