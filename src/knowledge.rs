//! Reasoning plans run against a reasoner, and their outcomes handed to a
//! knowledge assistant.
use vstd::prelude::*;
use vstd::string::StringExecFns;

use crate::iri::{is_valid_iri, str_same, Iri};
use crate::repositories::ReasoningQuery;
use crate::store::OntologyServiceError;

verus! {

/// A query to run before the assistant is asked.
#[derive(Clone, Debug, PartialEq, Eq)]
pub enum ReasoningCommand {
    Ancestors { class: Iri },
    Descendants { class: Iri },
    RelatedIndividuals { property: Iri, individual: Iri },
    ShortestPath { start: Iri, end: Iri },
}

/// A query together with its answer.
#[derive(Clone, Debug, PartialEq, Eq)]
pub enum ReasoningOutcome {
    Ancestors { class: Iri, ancestors: Vec<Iri> },
    Descendants { class: Iri, descendants: Vec<Iri> },
    RelatedIndividuals { property: Iri, individual: Iri, related: Vec<Iri> },
    ShortestPath { start: Iri, end: Iri, path: Option<Vec<Iri>> },
}

pub open spec fn digit_char(d: nat) -> char {
    if d == 0 {
        '0'
    } else if d == 1 {
        '1'
    } else if d == 2 {
        '2'
    } else if d == 3 {
        '3'
    } else if d == 4 {
        '4'
    } else if d == 5 {
        '5'
    } else if d == 6 {
        '6'
    } else if d == 7 {
        '7'
    } else if d == 8 {
        '8'
    } else {
        '9'
    }
}

/// The decimal digits of `n`.
pub open spec fn decimal_text(n: nat) -> Seq<char>
    decreases n,
{
    if n < 10 {
        seq![digit_char(n)]
    } else {
        decimal_text(n / 10).push(digit_char(n % 10))
    }
}

/// Each identifier on a line of its own, after a dash.
pub open spec fn bullet_list(items: Seq<Iri>) -> Seq<char>
    decreases items.len(),
{
    if items.len() == 0 {
        Seq::empty()
    } else {
        bullet_list(items.drop_last()) + "\n  - "@ + items.last()@
    }
}

/// A heading that counts the items, then the items.
pub open spec fn counted(head: Seq<char>, unit: Seq<char>, items: Seq<Iri>) -> Seq<char> {
    head + " ("@ + decimal_text(items.len()) + unit + "):"@ + bullet_list(items)
}

/// The text that describes an outcome.
pub open spec fn describe_text(o: ReasoningOutcome) -> Seq<char> {
    match o {
        ReasoningOutcome::Ancestors { class, ancestors } => counted(
            "Ancestors of class `"@ + class@ + "`"@,
            " items"@,
            ancestors@,
        ),
        ReasoningOutcome::Descendants { class, descendants } => counted(
            "Descendants of class `"@ + class@ + "`"@,
            " items"@,
            descendants@,
        ),
        ReasoningOutcome::RelatedIndividuals { property, individual, related } => counted(
            "Individuals related to `"@ + individual@ + "` via `"@ + property@ + "`"@,
            " items"@,
            related@,
        ),
        ReasoningOutcome::ShortestPath { start, end, path } => match path {
            Some(hops) => counted(
                "Shortest path between `"@ + start@ + "` and `"@ + end@ + "`"@,
                " hops"@,
                hops@,
            ),
            None => "No path discovered between `"@ + start@ + "` and `"@ + end@ + "`."@,
        },
    }
}

/// The descriptions of the outcomes, separated by a blank line.
pub open spec fn joined_text(outcomes: Seq<ReasoningOutcome>) -> Seq<char>
    decreases outcomes.len(),
{
    if outcomes.len() == 0 {
        Seq::empty()
    } else if outcomes.len() == 1 {
        describe_text(outcomes[0])
    } else {
        joined_text(outcomes.drop_last()) + "\n\n"@ + describe_text(outcomes.last())
    }
}

fn digit(d: usize) -> (r: &'static str)
    requires
        d < 10,
    ensures
        r@ == seq![digit_char(d as nat)],
{
    proof {
        reveal_strlit("0");
        reveal_strlit("1");
        reveal_strlit("2");
        reveal_strlit("3");
        reveal_strlit("4");
        reveal_strlit("5");
        reveal_strlit("6");
        reveal_strlit("7");
        reveal_strlit("8");
        reveal_strlit("9");
    }
    if d == 0 {
        "0"
    } else if d == 1 {
        "1"
    } else if d == 2 {
        "2"
    } else if d == 3 {
        "3"
    } else if d == 4 {
        "4"
    } else if d == 5 {
        "5"
    } else if d == 6 {
        "6"
    } else if d == 7 {
        "7"
    } else if d == 8 {
        "8"
    } else {
        "9"
    }
}

/// Appends the decimal digits of `n`.
fn append_decimal(text: &mut String, n: usize)
    ensures
        final(text)@ == old(text)@ + decimal_text(n as nat),
    decreases n,
{
    if n >= 10 {
        append_decimal(text, n / 10);
    }
    text.append(digit(n % 10));
    proof {
        if n >= 10 {
            assert(decimal_text(n as nat) == decimal_text((n / 10) as nat).push(digit_char((n % 10) as nat)));
        }
    }
    assert(text@ =~= old(text)@ + decimal_text(n as nat));
}

fn append_counted(text: &mut String, unit: &str, items: &Vec<Iri>)
    ensures
        final(text)@ == old(text)@ + " ("@ + decimal_text(items.len() as nat) + unit@ + "):"@
            + bullet_list(items@),
{
    text.append(" (");
    append_decimal(text, items.len());
    text.append(unit);
    text.append("):");
    let ghost before = text@;
    let mut i: usize = 0;
    assert(items@.subrange(0, 0) =~= Seq::<Iri>::empty());
    assert(text@ =~= before + bullet_list(items@.subrange(0, 0)));
    while i < items.len()
        invariant
            i <= items.len(),
            text@ == before + bullet_list(items@.subrange(0, i as int)),
        decreases items.len() - i,
    {
        text.append("\n  - ");
        text.append(items[i].as_str());
        assert(items@.subrange(0, i + 1).drop_last() =~= items@.subrange(0, i as int));
        i = i + 1;
        assert(text@ =~= before + bullet_list(items@.subrange(0, i as int)));
    }
    assert(items@.subrange(0, i as int) =~= items@);
    assert(text@ =~= old(text)@ + " ("@ + decimal_text(items.len() as nat) + unit@ + "):"@
        + bullet_list(items@));
}

impl ReasoningOutcome {
    /// The outcome as text: a heading that counts the items, then one line per item.
    pub fn describe(&self) -> (r: String)
        ensures
            r@ == describe_text(*self),
    {
        match self {
            ReasoningOutcome::Ancestors { class, ancestors } => {
                let mut text = "Ancestors of class `".to_owned();
                text.append(class.as_str());
                text.append("`");
                append_counted(&mut text, " items", ancestors);
                assert(text@ =~= describe_text(*self));
                text
            },
            ReasoningOutcome::Descendants { class, descendants } => {
                let mut text = "Descendants of class `".to_owned();
                text.append(class.as_str());
                text.append("`");
                append_counted(&mut text, " items", descendants);
                assert(text@ =~= describe_text(*self));
                text
            },
            ReasoningOutcome::RelatedIndividuals { property, individual, related } => {
                let mut text = "Individuals related to `".to_owned();
                text.append(individual.as_str());
                text.append("` via `");
                text.append(property.as_str());
                text.append("`");
                append_counted(&mut text, " items", related);
                assert(text@ =~= describe_text(*self));
                text
            },
            ReasoningOutcome::ShortestPath { start, end, path } => {
                let mut text = match path {
                    Some(_) => "Shortest path between `".to_owned(),
                    None => "No path discovered between `".to_owned(),
                };
                text.append(start.as_str());
                text.append("` and `");
                text.append(end.as_str());
                match path {
                    Some(hops) => {
                        text.append("`");
                        append_counted(&mut text, " hops", hops);
                    },
                    None => {
                        text.append("`.");
                    },
                }
                assert(text@ =~= describe_text(*self));
                text
            },
        }
    }
}

/// What an assistant is asked: the prompt, the ontology, and the outcomes of the plan.
#[derive(Clone, Debug, PartialEq, Eq)]
pub struct KnowledgeRequest {
    pub prompt: String,
    pub ontology: Iri,
    pub inferences: Vec<ReasoningOutcome>,
}

impl KnowledgeRequest {
    /// The outcomes described one after another, or a note that none were asked for.
    pub fn context_as_text(&self) -> (r: String)
        ensures
            self.inferences.len() == 0 ==> r@ == "No ontology inferences were requested."@,
            self.inferences.len() > 0 ==> r@ == joined_text(self.inferences@),
    {
        if self.inferences.len() == 0 {
            return "No ontology inferences were requested.".to_owned();
        }
        let mut buffer = String::new();
        let mut i: usize = 0;
        while i < self.inferences.len()
            invariant
                i <= self.inferences.len(),
                buffer@ == joined_text(self.inferences@.subrange(0, i as int)),
            decreases self.inferences.len() - i,
        {
            let ghost before = buffer@;
            let part = self.inferences[i].describe();
            if i > 0 {
                buffer.append("\n\n");
            }
            buffer.append(part.as_str());
            proof {
                let s = self.inferences@.subrange(0, i + 1);
                assert(s.drop_last() =~= self.inferences@.subrange(0, i as int));
                if i == 0 {
                    assert(before =~= Seq::<char>::empty());
                    assert(buffer@ =~= describe_text(s[0]));
                } else {
                    assert(buffer@ =~= before + "\n\n"@ + describe_text(s.last()));
                }
            }
            i = i + 1;
        }
        assert(self.inferences@.subrange(0, i as int) =~= self.inferences@);
        buffer
    }
}

/// An assistant's answer.
#[derive(Clone, Debug, PartialEq, Eq)]
pub struct KnowledgeResponse {
    pub message: String,
}

/// The assistant's answer with the outcomes it was given.
#[derive(Clone, Debug, PartialEq, Eq)]
pub struct KnowledgeSynthesis {
    pub message: String,
    pub inferences: Vec<ReasoningOutcome>,
}

/// Why an assistant could not be built from its settings.
#[derive(Clone, Debug, PartialEq, Eq)]
pub enum KnowledgeAssistantInitError {
    MissingBackend,
    InvalidConfiguration(String),
    Adapter(String),
}

/// Why an assistant could not answer.
#[derive(Clone, Debug, PartialEq, Eq)]
pub enum KnowledgeAssistantError {
    Request(String),
    EmptyResponse,
    Provider(String),
}

/// A provider that answers a prompt in the light of reasoning outcomes.
pub trait KnowledgeAssistant {
    fn respond(&self, request: KnowledgeRequest) -> Result<KnowledgeResponse, KnowledgeAssistantError>;
}

/// Why an orchestrated request failed.
#[derive(Clone, Debug, PartialEq, Eq)]
pub enum KnowledgeOrchestratorError {
    Reasoner(OntologyServiceError),
    Assistant(KnowledgeAssistantError),
}

/// The outcome answers the command: same kind of query, same identifiers.
pub open spec fn answers(c: ReasoningCommand, o: ReasoningOutcome) -> bool {
    match (c, o) {
        (ReasoningCommand::Ancestors { class: a }, ReasoningOutcome::Ancestors { class: b, .. }) =>
            a == b,
        (
            ReasoningCommand::Descendants { class: a },
            ReasoningOutcome::Descendants { class: b, .. },
        ) => a == b,
        (
            ReasoningCommand::RelatedIndividuals { property: p, individual: i },
            ReasoningOutcome::RelatedIndividuals { property: q, individual: j, .. },
        ) => p == q && i == j,
        (
            ReasoningCommand::ShortestPath { start: s, end: e },
            ReasoningOutcome::ShortestPath { start: t, end: f, .. },
        ) => s == t && e == f,
        _ => false,
    }
}

/// Runs a reasoning plan, then asks the assistant with its outcomes.
pub struct KnowledgeOrchestrator<R: ReasoningQuery<Error = OntologyServiceError>, A: KnowledgeAssistant> {
    reasoner: R,
    assistant: A,
}

impl<R: ReasoningQuery<Error = OntologyServiceError>, A: KnowledgeAssistant> KnowledgeOrchestrator<R, A> {
    pub closed spec fn reasoner_view(&self) -> R {
        self.reasoner
    }

    pub fn new(reasoner: R, assistant: A) -> (r: KnowledgeOrchestrator<R, A>)
        ensures
            r.reasoner_view() == reasoner,
    {
        KnowledgeOrchestrator { reasoner, assistant }
    }

    /// The outcome of each command of the plan, in order; the first reasoner
    /// error ends the run.
    pub fn execute_plan(&self, ontology: &Iri, plan: Vec<ReasoningCommand>) -> (r: Result<
        Vec<ReasoningOutcome>,
        OntologyServiceError,
    >)
        requires
            self.reasoner_view().inv(),
        ensures
            r matches Ok(outcomes) ==> outcomes.len() == plan.len() && forall|i: int|
                0 <= i < plan.len() ==> answers(plan@[i], #[trigger] outcomes@[i]),
    {
        let mut inferences: Vec<ReasoningOutcome> = Vec::new();
        let mut i: usize = 0;
        while i < plan.len()
            invariant
                self.reasoner_view().inv(),
                i <= plan.len(),
                inferences.len() == i,
                forall|j: int| 0 <= j < i ==> answers(plan@[j], #[trigger] inferences@[j]),
            decreases plan.len() - i,
        {
            let outcome = match &plan[i] {
                ReasoningCommand::Ancestors { class } => {
                    let ancestors = match self.reasoner.ancestors_of(ontology, class) {
                        Ok(v) => v,
                        Err(e) => {
                            return Err(e);
                        },
                    };
                    ReasoningOutcome::Ancestors { class: class.clone(), ancestors }
                },
                ReasoningCommand::Descendants { class } => {
                    let descendants = match self.reasoner.descendants_of(ontology, class) {
                        Ok(v) => v,
                        Err(e) => {
                            return Err(e);
                        },
                    };
                    ReasoningOutcome::Descendants { class: class.clone(), descendants }
                },
                ReasoningCommand::RelatedIndividuals { property, individual } => {
                    let related = match self.reasoner.related_individuals(ontology, property, individual) {
                        Ok(v) => v,
                        Err(e) => {
                            return Err(e);
                        },
                    };
                    ReasoningOutcome::RelatedIndividuals {
                        property: property.clone(),
                        individual: individual.clone(),
                        related,
                    }
                },
                ReasoningCommand::ShortestPath { start, end } => {
                    let path = match self.reasoner.shortest_path(ontology, start, end) {
                        Ok(v) => v,
                        Err(e) => {
                            return Err(e);
                        },
                    };
                    ReasoningOutcome::ShortestPath { start: start.clone(), end: end.clone(), path }
                },
            };
            inferences.push(outcome);
            i = i + 1;
        }
        Ok(inferences)
    }

    /// Runs the plan, then asks the assistant with the prompt and the outcomes.
    pub fn run(&self, ontology: Iri, prompt: String, plan: Vec<ReasoningCommand>) -> (r: Result<
        KnowledgeSynthesis,
        KnowledgeOrchestratorError,
    >)
        requires
            self.reasoner_view().inv(),
        ensures
            r matches Ok(s) ==> s.inferences.len() == plan.len() && forall|i: int|
                0 <= i < plan.len() ==> answers(plan@[i], #[trigger] s.inferences@[i]),
    {
        let inferences = match self.execute_plan(&ontology, plan) {
            Ok(v) => v,
            Err(e) => {
                return Err(KnowledgeOrchestratorError::Reasoner(e));
            },
        };
        let request = KnowledgeRequest {
            prompt,
            ontology: ontology.clone(),
            inferences: clone_outcomes(&inferences),
        };
        match self.assistant.respond(request) {
            Ok(response) => Ok(KnowledgeSynthesis { message: response.message, inferences }),
            Err(e) => Err(KnowledgeOrchestratorError::Assistant(e)),
        }
    }
}

fn clone_outcomes(v: &Vec<ReasoningOutcome>) -> (r: Vec<ReasoningOutcome>)
    ensures
        r.len() == v.len(),
{
    v.clone()
}

/// A reasoning step as a caller writes it, identifiers still as text.
#[derive(Clone, Debug, PartialEq, Eq)]
pub enum ReasoningStep {
    Ancestors { class: String },
    Descendants { class: String },
    RelatedIndividuals { property: String, individual: String },
    ShortestPath { start: String, end: String },
}

/// A prompt about an ontology with the reasoning to run first.
#[derive(Clone, Debug, PartialEq, Eq)]
pub struct KnowledgePrompt {
    pub ontology: String,
    pub prompt: String,
    pub reasoning: Vec<ReasoningStep>,
}

/// A step names text that is not an identifier.
#[derive(Clone, Debug, PartialEq, Eq)]
pub enum PlanError {
    InvalidIri { field: String, value: String },
}

/// The first field of the step, in the step's order, whose text is not an
/// identifier: its name and its text.
pub open spec fn step_fault(s: ReasoningStep) -> Option<(Seq<char>, Seq<char>)> {
    match s {
        ReasoningStep::Ancestors { class } => if is_valid_iri(class@) {
            None
        } else {
            Some(("class"@, class@))
        },
        ReasoningStep::Descendants { class } => if is_valid_iri(class@) {
            None
        } else {
            Some(("class"@, class@))
        },
        ReasoningStep::RelatedIndividuals { property, individual } => if !is_valid_iri(property@) {
            Some(("property"@, property@))
        } else if !is_valid_iri(individual@) {
            Some(("individual"@, individual@))
        } else {
            None
        },
        ReasoningStep::ShortestPath { start, end } => if !is_valid_iri(start@) {
            Some(("start"@, start@))
        } else if !is_valid_iri(end@) {
            Some(("end"@, end@))
        } else {
            None
        },
    }
}

/// The first fault of the steps, in order.
pub open spec fn plan_fault(steps: Seq<ReasoningStep>) -> Option<(Seq<char>, Seq<char>)>
    decreases steps.len(),
{
    if steps.len() == 0 {
        None
    } else {
        match step_fault(steps[0]) {
            Some(f) => Some(f),
            None => plan_fault(steps.drop_first()),
        }
    }
}

/// The command is the step with its texts read as identifiers.
pub open spec fn step_command(s: ReasoningStep, c: ReasoningCommand) -> bool {
    match (s, c) {
        (ReasoningStep::Ancestors { class: a }, ReasoningCommand::Ancestors { class: b }) => a@ == b@,
        (ReasoningStep::Descendants { class: a }, ReasoningCommand::Descendants { class: b }) => a@
            == b@,
        (
            ReasoningStep::RelatedIndividuals { property: p, individual: i },
            ReasoningCommand::RelatedIndividuals { property: q, individual: j },
        ) => p@ == q@ && i@ == j@,
        (
            ReasoningStep::ShortestPath { start: s0, end: e0 },
            ReasoningCommand::ShortestPath { start: s1, end: e1 },
        ) => s0@ == s1@ && e0@ == e1@,
        _ => false,
    }
}

fn parse_field(value: &String, field: &str) -> (r: Result<Iri, PlanError>)
    ensures
        is_valid_iri(value@) ==> (r matches Ok(iri) && iri@ == value@),
        !is_valid_iri(value@) ==> (r matches Err(PlanError::InvalidIri { field: f, value: v })
            && f@ == field@ && v@ == value@),
{
    match Iri::new(value.as_str()) {
        Ok(iri) => Ok(iri),
        Err(_) => Err(PlanError::InvalidIri { field: field.to_owned(), value: value.clone() }),
    }
}

/// Reads each step's texts as identifiers, failing on the first that is not one.
pub fn build_plan(steps: &Vec<ReasoningStep>) -> (r: Result<Vec<ReasoningCommand>, PlanError>)
    ensures
        r is Ok <==> plan_fault(steps@) is None,
        r matches Ok(plan) ==> plan.len() == steps.len() && forall|i: int|
            0 <= i < steps.len() ==> step_command(steps@[i], #[trigger] plan@[i]),
        r matches Err(PlanError::InvalidIri { field, value }) ==> plan_fault(steps@) == Some(
            (field@, value@),
        ),
{
    let mut plan: Vec<ReasoningCommand> = Vec::new();
    let mut i: usize = 0;
    assert(steps@.skip(0) =~= steps@);
    while i < steps.len()
        invariant
            i <= steps.len(),
            plan.len() == i,
            forall|j: int| 0 <= j < i ==> step_command(steps@[j], #[trigger] plan@[j]),
            plan_fault(steps@) == plan_fault(steps@.skip(i as int)),
        decreases steps.len() - i,
    {
        assert(steps@.skip(i as int)[0] == steps@[i as int]);
        assert(steps@.skip(i as int).drop_first() =~= steps@.skip(i + 1));
        let command = match &steps[i] {
            ReasoningStep::Ancestors { class } => ReasoningCommand::Ancestors {
                class: parse_field(class, "class")?,
            },
            ReasoningStep::Descendants { class } => ReasoningCommand::Descendants {
                class: parse_field(class, "class")?,
            },
            ReasoningStep::RelatedIndividuals { property, individual } => {
                let property = parse_field(property, "property")?;
                let individual = parse_field(individual, "individual")?;
                ReasoningCommand::RelatedIndividuals { property, individual }
            },
            ReasoningStep::ShortestPath { start, end } => {
                let start = parse_field(start, "start")?;
                let end = parse_field(end, "end")?;
                ReasoningCommand::ShortestPath { start, end }
            },
        };
        plan.push(command);
        i = i + 1;
    }
    Ok(plan)
}

/// An outcome as the knowledge endpoint reports it: its kind and its description.
#[derive(Clone, Debug, PartialEq, Eq)]
pub struct ReasoningOutcomeView {
    pub kind: String,
    pub summary: String,
}

pub open spec fn outcome_kind(o: ReasoningOutcome) -> Seq<char> {
    match o {
        ReasoningOutcome::Ancestors { .. } => "ancestors"@,
        ReasoningOutcome::Descendants { .. } => "descendants"@,
        ReasoningOutcome::RelatedIndividuals { .. } => "related-individuals"@,
        ReasoningOutcome::ShortestPath { .. } => "shortest-path"@,
    }
}

impl ReasoningOutcomeView {
    pub fn of(value: &ReasoningOutcome) -> (r: ReasoningOutcomeView)
        ensures
            r.kind@ == outcome_kind(*value),
            r.summary@ == describe_text(*value),
    {
        let kind = match value {
            ReasoningOutcome::Ancestors { .. } => "ancestors".to_owned(),
            ReasoningOutcome::Descendants { .. } => "descendants".to_owned(),
            ReasoningOutcome::RelatedIndividuals { .. } => "related-individuals".to_owned(),
            ReasoningOutcome::ShortestPath { .. } => "shortest-path".to_owned(),
        };
        ReasoningOutcomeView { kind, summary: value.describe() }
    }
}

/// The answer of the knowledge endpoint.
#[derive(Clone, Debug, PartialEq, Eq)]
pub struct KnowledgeResponseBody {
    pub message: String,
    pub reasoning: Vec<ReasoningOutcomeView>,
}

impl KnowledgeResponseBody {
    pub fn from_synthesis(synthesis: KnowledgeSynthesis) -> (r: KnowledgeResponseBody)
        ensures
            r.message == synthesis.message,
            r.reasoning.len() == synthesis.inferences.len(),
            forall|i: int|
                0 <= i < r.reasoning.len() ==> (#[trigger] r.reasoning@[i]).kind@ == outcome_kind(
                    synthesis.inferences@[i],
                ) && r.reasoning@[i].summary@ == describe_text(synthesis.inferences@[i]),
    {
        let mut reasoning: Vec<ReasoningOutcomeView> = Vec::new();
        let mut i: usize = 0;
        while i < synthesis.inferences.len()
            invariant
                i <= synthesis.inferences.len(),
                reasoning.len() == i,
                forall|j: int|
                    0 <= j < i ==> (#[trigger] reasoning@[j]).kind@ == outcome_kind(
                        synthesis.inferences@[j],
                    ) && reasoning@[j].summary@ == describe_text(synthesis.inferences@[j]),
            decreases synthesis.inferences.len() - i,
        {
            reasoning.push(ReasoningOutcomeView::of(&synthesis.inferences[i]));
            i = i + 1;
        }
        KnowledgeResponseBody { message: synthesis.message, reasoning }
    }
}

/// The value given for `key` among command-line variables: the first pair with that key.
pub open spec fn cli_value(cli: Seq<(String, String)>, key: Seq<char>) -> Option<Seq<char>>
    decreases cli.len(),
{
    if cli.len() == 0 {
        None
    } else if cli[0].0@ == key {
        Some(cli[0].1@)
    } else {
        cli_value(cli.drop_first(), key)
    }
}

/// The first value that is not an identifier, in the order class, property,
/// individual, path start, path end, each looked at only where its step applies:
/// the variable's name and its value.
pub open spec fn task_fault(cli: Seq<(String, String)>) -> Option<(Seq<char>, Seq<char>)> {
    let class = cli_value(cli, "class"@);
    let property = cli_value(cli, "property"@);
    let individual = cli_value(cli, "individual"@);
    let start = cli_value(cli, "path_start"@);
    let end = cli_value(cli, "path_end"@);
    if class is Some && !is_valid_iri(class->0) {
        Some(("class"@, class->0))
    } else if property is Some && individual is Some && !is_valid_iri(property->0) {
        Some(("property"@, property->0))
    } else if property is Some && individual is Some && !is_valid_iri(individual->0) {
        Some(("individual"@, individual->0))
    } else if start is Some && end is Some && !is_valid_iri(start->0) {
        Some(("path_start"@, start->0))
    } else if start is Some && end is Some && !is_valid_iri(end->0) {
        Some(("path_end"@, end->0))
    } else {
        None
    }
}

/// The steps that the variables ask for: ancestors and descendants of `class`,
/// individuals related through `property` to `individual`, and a path from
/// `path_start` to `path_end`, each where its variables are given.
pub open spec fn task_steps(cli: Seq<(String, String)>) -> Seq<Seq<Seq<char>>> {
    let class = cli_value(cli, "class"@);
    let property = cli_value(cli, "property"@);
    let individual = cli_value(cli, "individual"@);
    let start = cli_value(cli, "path_start"@);
    let end = cli_value(cli, "path_end"@);
    let a = if class is Some {
        seq![seq!["ancestors"@, class->0], seq!["descendants"@, class->0]]
    } else {
        Seq::empty()
    };
    let b = if property is Some && individual is Some {
        seq![seq!["related"@, property->0, individual->0]]
    } else {
        Seq::empty()
    };
    let c = if start is Some && end is Some {
        seq![seq!["path"@, start->0, end->0]]
    } else {
        Seq::empty()
    };
    a + b + c
}

/// The command is the step: its kind and its identifiers.
pub open spec fn command_is(c: ReasoningCommand, step: Seq<Seq<char>>) -> bool {
    match c {
        ReasoningCommand::Ancestors { class } => step == seq!["ancestors"@, class@],
        ReasoningCommand::Descendants { class } => step == seq!["descendants"@, class@],
        ReasoningCommand::RelatedIndividuals { property, individual } => step == seq![
            "related"@,
            property@,
            individual@,
        ],
        ReasoningCommand::ShortestPath { start, end } => step == seq!["path"@, start@, end@],
    }
}

fn cli_get<'a>(cli: &'a Vec<(String, String)>, key: &str) -> (r: Option<&'a String>)
    ensures
        match cli_value(cli@, key@) {
            Some(v) => r matches Some(x) && x@ == v,
            None => r is None,
        },
{
    let mut i: usize = 0;
    assert(cli@.skip(0) =~= cli@);
    while i < cli.len()
        invariant
            i <= cli.len(),
            cli_value(cli@, key@) == cli_value(cli@.skip(i as int), key@),
        decreases cli.len() - i,
    {
        assert(cli@.skip(i as int)[0] == cli@[i as int]);
        if str_same(cli[i].0.as_str(), key) {
            return Some(&cli[i].1);
        }
        assert(cli@.skip(i as int).drop_first() =~= cli@.skip(i + 1));
        i = i + 1;
    }
    None
}

/// The task that runs a reasoning plan and hands it to the knowledge assistant.
#[derive(Clone, Copy, Debug, Default, PartialEq, Eq)]
pub struct KnowledgeTask;

impl KnowledgeTask {
    /// The task's name.
    pub fn name(&self) -> (r: String)
        ensures
            r@ == "ontology:assist"@,
    {
        "ontology:assist".to_owned()
    }

    /// What the task does.
    pub fn detail(&self) -> (r: String)
        ensures
            r@ == "Run a reasoning plan and dispatch it to the configured knowledge assistant"@,
    {
        "Run a reasoning plan and dispatch it to the configured knowledge assistant".to_owned()
    }

    /// The plan that the command-line variables ask for.
    pub fn build_plan(cli: &Vec<(String, String)>) -> (r: Result<Vec<ReasoningCommand>, PlanError>)
        ensures
            r is Ok <==> task_fault(cli@) is None,
            r matches Ok(plan) ==> plan.len() == task_steps(cli@).len() && forall|i: int|
                0 <= i < plan.len() ==> command_is(#[trigger] plan@[i], task_steps(cli@)[i]),
            r matches Err(PlanError::InvalidIri { field, value }) ==> task_fault(cli@) == Some(
                (field@, value@),
            ),
    {
        let ghost steps = task_steps(cli@);
        let mut plan: Vec<ReasoningCommand> = Vec::new();
        let class = cli_get(cli, "class");
        let property = cli_get(cli, "property");
        let individual = cli_get(cli, "individual");
        let start = cli_get(cli, "path_start");
        let end = cli_get(cli, "path_end");
        if let Some(c) = class {
            let iri = parse_field(c, "class")?;
            plan.push(ReasoningCommand::Ancestors { class: iri.clone() });
            plan.push(ReasoningCommand::Descendants { class: iri });
        }
        let ghost after_a = plan@;
        if let (Some(p), Some(i)) = (property, individual) {
            let p = parse_field(p, "property")?;
            let i = parse_field(i, "individual")?;
            plan.push(ReasoningCommand::RelatedIndividuals { property: p, individual: i });
        }
        let ghost after_b = plan@;
        if let (Some(s0), Some(e0)) = (start, end) {
            let s1 = parse_field(s0, "path_start")?;
            let e1 = parse_field(e0, "path_end")?;
            plan.push(ReasoningCommand::ShortestPath { start: s1, end: e1 });
        }
        proof {
            let cv = cli_value(cli@, "class"@);
            let pv = cli_value(cli@, "property"@);
            let iv = cli_value(cli@, "individual"@);
            let sv = cli_value(cli@, "path_start"@);
            let ev = cli_value(cli@, "path_end"@);
            let a: Seq<Seq<Seq<char>>> = if cv is Some {
                seq![seq!["ancestors"@, cv->0], seq!["descendants"@, cv->0]]
            } else {
                Seq::empty()
            };
            let b: Seq<Seq<Seq<char>>> = if pv is Some && iv is Some {
                seq![seq!["related"@, pv->0, iv->0]]
            } else {
                Seq::empty()
            };
            assert(after_a.len() == a.len());
            assert(after_b.len() == a.len() + b.len());
            assert forall|i: int| 0 <= i < plan.len() implies command_is(#[trigger] plan@[i], steps[i]) by {
                if i < a.len() {
                    assert(plan@[i] == after_a[i]);
                } else if i < a.len() + b.len() {
                    assert(plan@[i] == after_b[i]);
                }
            }
        }
        Ok(plan)
    }
}

} // verus!
