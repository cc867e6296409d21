//! The conversation with the user, as a machine: a state, a line of input,
//! and what follows from the two. Whoever drives the machine shows the
//! prompt of the state, reads a line, takes the step, shows what the step
//! says, and stores the documents that it hands over.

use vstd::prelude::*;
use crate::error::GeojsonError;
use crate::kml::{
    all_coordinates_ok, build_document, document_of, identities, lines_are_well_formed,
    DocumentView, GeneratedDocument,
};
use crate::model::{identity_lt, strictly_ascending, Geo, LineIdentity, Record, TrainLine};
use crate::search::{candidates, line_views, search_candidates};
use crate::selection::{increasing, parse_selection, rejected_part, selection};
use crate::text::{str_concat, decimal, decimal_string, str_eq};

verus! {

/// A line for the user: something said, or a complaint.
#[derive(Debug, Clone, PartialEq, Eq)]
pub enum Output {
    Line(String),
    Error(String),
}

/// A line for the user, as a value.
pub enum OutputView {
    Line(Seq<char>),
    Error(Seq<char>),
}

impl View for Output {
    type V = OutputView;

    open spec fn view(&self) -> OutputView {
        match self {
            Output::Line(text) => OutputView::Line(text@),
            Output::Error(text) => OutputView::Error(text@),
        }
    }
}

/// Where a conversation stands.
#[derive(Debug, Clone)]
pub enum Phase<'a> {
    /// A query is awaited.
    Prompting,
    /// The query had several candidates, which were listed; a choice among
    /// them is awaited.
    Resolving { candidates: Vec<TrainLine<'a>> },
    /// Several candidates were chosen; the answer to the question whether to
    /// merge them is awaited.
    Branching { candidates: Vec<TrainLine<'a>>, chosen: Vec<usize> },
    /// The user has left.
    Done,
}

/// Where a conversation stands, as a value.
pub enum PhaseView {
    Prompting,
    Resolving { candidates: Seq<LineIdentity> },
    Branching { candidates: Seq<LineIdentity>, chosen: Seq<usize> },
    Done,
}

impl<'a> View for Phase<'a> {
    type V = PhaseView;

    open spec fn view(&self) -> PhaseView {
        match self {
            Phase::Prompting => PhaseView::Prompting,
            Phase::Resolving { candidates } => PhaseView::Resolving {
                candidates: line_views(candidates@),
            },
            Phase::Branching { candidates, chosen } => PhaseView::Branching {
                candidates: line_views(candidates@),
                chosen: chosen@,
            },
            Phase::Done => PhaseView::Done,
        }
    }
}

/// A phase that a conversation can be in: the candidates are in order,
/// each once; a choice is only awaited among two candidates or more; and
/// the question of merging is only asked of two or more of the candidates,
/// which are held by their numbers in ascending order.
pub open spec fn phase_ok(phase: PhaseView) -> bool {
    match phase {
        PhaseView::Resolving { candidates } => {
            &&& candidates.len() >= 2
            &&& strictly_ascending(candidates)
        },
        PhaseView::Branching { candidates, chosen } => {
            &&& strictly_ascending(candidates)
            &&& chosen.len() >= 2
            &&& increasing(chosen)
            &&& forall|k: int| 0 <= k < chosen.len() ==> chosen[k] < candidates.len()
        },
        _ => true,
    }
}

/// The lines of `candidates` with the numbers `chosen`, in that order.
pub open spec fn picked(candidates: Seq<LineIdentity>, chosen: Seq<usize>) -> Seq<LineIdentity> {
    chosen.map_values(|n: usize| candidates[n as int])
}

/// The documents to make of the chosen candidates, each given by its lines:
/// one document of them all where they are merged, and else one document of
/// each, in ascending order of their numbers.
pub open spec fn jobs(candidates: Seq<LineIdentity>, chosen: Seq<usize>, merged: bool) -> Seq<
    Seq<LineIdentity>,
> {
    if merged {
        seq![picked(candidates, chosen)]
    } else {
        chosen.map_values(|n: usize| seq![candidates[n as int]])
    }
}

/// Chosen candidates are in the order of the candidates: the lines of a
/// merged document come by operator and then by name.
pub proof fn lemma_picked_in_order(candidates: Seq<LineIdentity>, chosen: Seq<usize>)
    requires
        strictly_ascending(candidates),
        increasing(chosen),
        forall|k: int| 0 <= k < chosen.len() ==> chosen[k] < candidates.len(),
    ensures
        strictly_ascending(picked(candidates, chosen)),
{
}

/// The coordinates of every line of every document are well formed.
pub open spec fn jobs_ok(records: Seq<Record>, jobs: Seq<Seq<LineIdentity>>) -> bool {
    forall|j: int| 0 <= j < jobs.len() ==> all_coordinates_ok(records, #[trigger] jobs[j])
}

/// One line of the list of candidates: its number in brackets, the operator
/// and the line.
pub open spec fn listing_line(number: nat, id: LineIdentity) -> Seq<char> {
    "["@ + decimal(number) + "] "@ + id.company + " "@ + id.line
}

/// The list of candidates: a heading, and a line for each candidate in
/// order, numbered from 0.
pub open spec fn listing(candidates: Seq<LineIdentity>) -> Seq<OutputView> {
    seq![OutputView::Line("candidates:"@)] + Seq::new(
        candidates.len(),
        |i: int| OutputView::Line(listing_line(i as nat, candidates[i])),
    )
}

/// The prompt for a choice among `count` candidates: it names the first and
/// the last number and the word that leaves.
pub open spec fn range_prompt(count: nat) -> Seq<char> {
    "choose '0'...'"@ + decimal((count - 1) as nat) + "' or : 'q' to exit"@
}

/// What is shown before a line is read in the phase `phase`.
pub open spec fn prompt_of(phase: PhaseView) -> Seq<OutputView> {
    match phase {
        PhaseView::Prompting => seq![
            OutputView::Line("=================================="@),
            OutputView::Line("enter train company name or line name or 'q' to exit:"@),
        ],
        PhaseView::Resolving { candidates } => seq![
            OutputView::Line(range_prompt(candidates.len())),
        ],
        PhaseView::Branching { .. } => seq![OutputView::Line("merge lines? [yes/no]:"@)],
        PhaseView::Done => Seq::empty(),
    }
}

/// What a line of input leads to: the next phase, what is said at once, and
/// the documents to make, each given by its lines.
pub struct Turn {
    pub phase: PhaseView,
    pub outputs: Seq<OutputView>,
    pub jobs: Seq<Seq<LineIdentity>>,
}

/// What a query leads to. Without a candidate the user is told so, and asked
/// again. A single candidate is taken without a question. Several are
/// listed, and a choice is awaited.
pub open spec fn after_query(records: Seq<Record>, query: Seq<char>) -> Turn {
    let found = candidates(records, query);
    if found.len() == 0 {
        Turn {
            phase: PhaseView::Prompting,
            outputs: seq![OutputView::Error(query + " is not found..."@)],
            jobs: Seq::empty(),
        }
    } else if found.len() == 1 {
        Turn {
            phase: PhaseView::Prompting,
            outputs: Seq::empty(),
            jobs: jobs(found, seq![0usize], false),
        }
    } else {
        Turn {
            phase: PhaseView::Resolving { candidates: found },
            outputs: listing(found),
            jobs: Seq::empty(),
        }
    }
}

/// What a choice leads to. A line that does not choose is complained
/// about, and the choice is awaited again. One chosen candidate gives its
/// document; of several the user is asked whether to merge them.
pub open spec fn after_choice(found: Seq<LineIdentity>, line: Seq<char>) -> Turn {
    match selection(line, found.len()) {
        None => Turn {
            phase: PhaseView::Resolving { candidates: found },
            outputs: seq![
                OutputView::Error(
                    "Invalid input: "@ + (rejected_part(line, found.len()) + " is invalid"@),
                ),
            ],
            jobs: Seq::empty(),
        },
        Some(chosen) => if chosen.len() > 1 {
            Turn {
                phase: PhaseView::Branching { candidates: found, chosen },
                outputs: Seq::empty(),
                jobs: Seq::empty(),
            }
        } else {
            Turn {
                phase: PhaseView::Prompting,
                outputs: Seq::empty(),
                jobs: jobs(found, chosen, false),
            }
        },
    }
}

/// What the line `line` leads to in the phase `before`.
///
/// The word `q` leaves: the conversation where a query is awaited, the
/// choice where a choice is awaited. Only the answer `yes` merges.
pub open spec fn turn(before: PhaseView, line: Seq<char>, records: Seq<Record>) -> Turn {
    match before {
        PhaseView::Prompting => if line == "q"@ {
            Turn { phase: PhaseView::Done, outputs: Seq::empty(), jobs: Seq::empty() }
        } else {
            after_query(records, line)
        },
        PhaseView::Resolving { candidates } => if line == "q"@ {
            Turn { phase: PhaseView::Prompting, outputs: Seq::empty(), jobs: Seq::empty() }
        } else {
            after_choice(candidates, line)
        },
        PhaseView::Branching { candidates, chosen } => Turn {
            phase: PhaseView::Prompting,
            outputs: Seq::empty(),
            jobs: jobs(candidates, chosen, line == "yes"@),
        },
        PhaseView::Done => Turn {
            phase: PhaseView::Done,
            outputs: Seq::empty(),
            jobs: Seq::empty(),
        },
    }
}

/// The views of a list of outputs.
pub open spec fn output_views(outputs: Seq<Output>) -> Seq<OutputView> {
    outputs.map_values(|o: Output| o@)
}

/// The views of a list of documents.
pub open spec fn document_views(documents: Seq<GeneratedDocument>) -> Seq<DocumentView> {
    documents.map_values(|d: GeneratedDocument| d@)
}

/// The documents of `jobs`.
pub open spec fn documents_of(records: Seq<Record>, jobs: Seq<Seq<LineIdentity>>) -> Seq<
    DocumentView,
> {
    jobs.map_values(|ids: Seq<LineIdentity>| document_of(records, ids))
}

/// The state of a conversation.
pub struct SessionState<'a> {
    phase: Phase<'a>,
}

/// What a line of input has led to: the next state, what to say at once,
/// and the documents to store, in order.
pub struct Step<'a> {
    pub state: SessionState<'a>,
    pub outputs: Vec<Output>,
    pub documents: Vec<GeneratedDocument>,
}

impl<'a> View for SessionState<'a> {
    type V = PhaseView;

    closed spec fn view(&self) -> PhaseView {
        self.phase@
    }
}

/// The step `step` is what `wanted` asks for: it leads to the phase, says
/// what is to be said, and holds the documents of the lines to be
/// generated, in order.
pub open spec fn carries<'a>(step: Step<'a>, wanted: Turn, records: Seq<Record>) -> bool {
    &&& step.state@ == wanted.phase
    &&& output_views(step.outputs@) == wanted.outputs
    &&& document_views(step.documents@) == documents_of(records, wanted.jobs)
}

/// `next` is how an attempt at `wanted` ends. Where the coordinates of the
/// lines to be generated are well formed it succeeds, and the step is what
/// was asked for. Where they are not, it fails with the fatal error.
pub open spec fn ends_as<'a>(
    next: Result<Step<'a>, GeojsonError>,
    wanted: Turn,
    records: Seq<Record>,
) -> bool {
    match next {
        Ok(step) => jobs_ok(records, wanted.jobs) && carries(step, wanted, records),
        Err(e) => !jobs_ok(records, wanted.jobs) && e is MalformedCoordinate,
    }
}

/// Where no document is to be made, none is made.
proof fn lemma_no_jobs_no_documents(records: Seq<Record>)
    ensures
        documents_of(records, Seq::empty()) == Seq::<DocumentView>::empty(),
{
}

/// The list of candidates, as it is shown to the user.
pub fn display_candidates(candidates: &[TrainLine]) -> (outputs: Vec<Output>)
    ensures
        output_views(outputs@) == listing(line_views(candidates@)),
{
    let ghost ids = line_views(candidates@);
    let mut outputs: Vec<Output> = Vec::new();
    outputs.push(Output::Line("candidates:".to_owned()));
    let mut i: usize = 0;
    while i < candidates.len()
        invariant
            i <= candidates.len(),
            ids == line_views(candidates@),
            outputs.len() == i + 1,
            outputs[0]@ == OutputView::Line("candidates:"@),
            forall|k: int|
                0 <= k < i ==> (#[trigger] outputs[k + 1])@ == OutputView::Line(
                    listing_line(k as nat, ids[k]),
                ),
        decreases candidates.len() - i,
    {
        let candidate = &candidates[i];
        let mut text = String::new();
        text.append("[");
        let number = decimal_string(i);
        text.append(number.as_str());
        text.append("] ");
        text.append(candidate.company_name);
        text.append(" ");
        text.append(candidate.line_name);
        outputs.push(Output::Line(text));
        i += 1;
    }
    proof {
        let shown = output_views(outputs@);
        let wanted = listing(ids);
        assert forall|k: int| 0 <= k < shown.len() implies shown[k] == wanted[k] by {
            if k > 0 {
                assert(outputs[(k - 1) + 1]@ == OutputView::Line(
                    listing_line((k - 1) as nat, ids[k - 1]),
                ));
            }
        }
    }
    outputs
}

/// Whether `answer` asks for one document of all the chosen lines: only the
/// word `yes` does.
pub fn ask_merge_preference(answer: &str) -> (merge: bool)
    ensures
        merge == (answer@ == "yes"@),
{
    str_eq(answer, "yes")
}

/// What is said before a document is stored.
pub fn announcement(document: &GeneratedDocument) -> (output: Output)
    ensures
        output@ == OutputView::Line("creating "@ + document@.filename + " ..."@),
{
    let mut text = String::new();
    text.append("creating ");
    text.append(document.filename.as_str());
    text.append(" ...");
    Output::Line(text)
}

/// What is said after a document was stored, or could not be: a failure is
/// a complaint, with the message of the error, and breaks nothing off.
pub fn report(outcome: &Result<(), GeojsonError>) -> (output: Output)
    ensures
        match outcome {
            Ok(_) => output@ == OutputView::Line("succeeded!!"@),
            Err(e) => output matches Output::Error(text) && e.described_by(text@),
        },
{
    match outcome {
        Ok(_) => Output::Line("succeeded!!".to_owned()),
        Err(e) => Output::Error(e.to_string()),
    }
}

/// The documents of the chosen candidates.
fn generate<'a>(
    found: &Vec<TrainLine<'a>>,
    chosen: &Vec<usize>,
    merged: bool,
    geo: &Geo,
) -> (made: Result<Vec<GeneratedDocument>, GeojsonError>)
    requires
        forall|k: int| 0 <= k < chosen.len() ==> chosen[k] < found.len(),
    ensures
        match made {
            Ok(documents) => {
                &&& jobs_ok(geo@, jobs(line_views(found@), chosen@, merged))
                &&& document_views(documents@) == documents_of(
                    geo@,
                    jobs(line_views(found@), chosen@, merged),
                )
            },
            Err(e) => !jobs_ok(geo@, jobs(line_views(found@), chosen@, merged))
                && e is MalformedCoordinate,
        },
{
    let ghost ids = line_views(found@);
    let ghost wanted = jobs(ids, chosen@, merged);
    let mut documents: Vec<GeneratedDocument> = Vec::new();
    if merged {
        let mut lines: Vec<&TrainLine<'a>> = Vec::new();
        let mut k: usize = 0;
        while k < chosen.len()
            invariant
                k <= chosen.len(),
                ids == line_views(found@),
                forall|j: int| 0 <= j < chosen.len() ==> chosen[j] < found.len(),
                lines.len() == k,
                identities(lines@) == picked(ids, chosen@.take(k as int)),
            decreases chosen.len() - k,
        {
            let ghost before = lines@;
            lines.push(&found[chosen[k]]);
            proof {
                let now = identities(lines@);
                let goal = picked(ids, chosen@.take(k + 1));
                assert forall|j: int| 0 <= j < now.len() implies now[j] == goal[j] by {
                    if j < k {
                        assert(identities(before)[j] == picked(ids, chosen@.take(k as int))[j]);
                    }
                }
            }
            k += 1;
        }
        assert(chosen@.take(k as int) =~= chosen@);
        assert(wanted[0] == picked(ids, chosen@));
        match build_document(lines.as_slice(), geo) {
            Ok(document) => {
                documents.push(document);
                Ok(documents)
            },
            Err(e) => Err(e),
        }
    } else {
        let mut k: usize = 0;
        while k < chosen.len()
            invariant
                k <= chosen.len(),
                ids == line_views(found@),
                !merged,
                wanted == jobs(ids, chosen@, false),
                forall|j: int| 0 <= j < chosen.len() ==> chosen[j] < found.len(),
                forall|j: int| 0 <= j < k ==> all_coordinates_ok(geo@, #[trigger] wanted[j]),
            decreases chosen.len() - k,
        {
            let mut one: Vec<&TrainLine<'a>> = Vec::new();
            one.push(&found[chosen[k]]);
            assert(identities(one@) =~= wanted[k as int]);
            if !lines_are_well_formed(one.as_slice(), geo) {
                return Err(GeojsonError::MalformedCoordinate);
            }
            k += 1;
        }
        let mut k: usize = 0;
        while k < chosen.len()
            invariant
                k <= chosen.len(),
                ids == line_views(found@),
                !merged,
                wanted == jobs(ids, chosen@, false),
                jobs_ok(geo@, wanted),
                forall|j: int| 0 <= j < chosen.len() ==> chosen[j] < found.len(),
                documents.len() == k,
                document_views(documents@) == documents_of(geo@, wanted.take(k as int)),
            decreases chosen.len() - k,
        {
            let mut one: Vec<&TrainLine<'a>> = Vec::new();
            one.push(&found[chosen[k]]);
            assert(identities(one@) =~= wanted[k as int]);
            let ghost before = documents@;
            match build_document(one.as_slice(), geo) {
                Ok(document) => {
                    documents.push(document);
                },
                Err(e) => {
                    return Err(e);
                },
            }
            proof {
                let now = document_views(documents@);
                let goal = documents_of(geo@, wanted.take(k + 1));
                assert forall|j: int| 0 <= j < now.len() implies now[j] == goal[j] by {
                    if j < k {
                        assert(document_views(before)[j] == documents_of(
                            geo@,
                            wanted.take(k as int),
                        )[j]);
                    }
                }
            }
            k += 1;
        }
        Ok(documents)
    }
}

impl<'a> SessionState<'a> {
    #[verifier::type_invariant]
    spec fn well_formed(&self) -> bool {
        phase_ok(self.phase@)
    }

    /// The state in which a conversation begins: a query is awaited.
    pub fn new() -> (state: Self)
        ensures
            state@ is Prompting,
    {
        SessionState { phase: Phase::Prompting }
    }

    /// Where the conversation stands.
    pub fn phase(&self) -> (phase: &Phase<'a>)
        ensures
            phase@ == self@,
            phase_ok(phase@),
    {
        proof {
            use_type_invariant(self);
        }
        &self.phase
    }

    /// Whether the user has left.
    pub fn is_done(&self) -> (done: bool)
        ensures
            done == (self@ is Done),
    {
        match &self.phase {
            Phase::Done => true,
            _ => false,
        }
    }

    /// What is shown before a line is read in this state.
    pub fn prompt(&self) -> (outputs: Vec<Output>)
        ensures
            output_views(outputs@) == prompt_of(self@),
    {
        proof {
            use_type_invariant(self);
        }
        let mut outputs: Vec<Output> = Vec::new();
        match &self.phase {
            Phase::Prompting => {
                outputs.push(Output::Line("==================================".to_owned()));
                outputs.push(
                    Output::Line("enter train company name or line name or 'q' to exit:".to_owned()),
                );
            },
            Phase::Resolving { candidates } => {
                let last = decimal_string(candidates.len() - 1);
                let mut text = String::new();
                text.append("choose '0'...'");
                text.append(last.as_str());
                text.append("' or : 'q' to exit");
                outputs.push(Output::Line(text));
            },
            Phase::Branching { .. } => {
                outputs.push(Output::Line("merge lines? [yes/no]:".to_owned()));
            },
            Phase::Done => {},
        }
        outputs
    }

    /// The step that the line `line` leads to: `turn` says what it is to be.
    ///
    /// A query without a match and a choice that is given up are no
    /// failures here: the one is complained about, the other passed over,
    /// and a query is awaited again. The step fails on one thing only: a
    /// coordinate pair without exactly two components in a line whose
    /// document is to be made, which is fatal. Once the user has left, a line
    /// changes nothing.
    pub fn on_line(self, line: &str, geo: &'a Geo) -> (next: Result<Step<'a>, GeojsonError>)
        ensures
            ends_as(next, turn(self@, line@, geo@), geo@),
    {
        proof {
            use_type_invariant(&self);
            lemma_no_jobs_no_documents(geo@);
        }
        match self.phase {
            Phase::Prompting => {
                if str_eq(line, "q") {
                    Ok(quiet(Phase::Done))
                } else {
                    match process_query(line, geo) {
                        Ok(step) => Ok(step),
                        Err(GeojsonError::NoMatchFound(query)) => {
                            let mut outputs: Vec<Output> = Vec::new();
                            outputs.push(
                                Output::Error(str_concat(query.as_str(), " is not found...")),
                            );
                            assert(output_views(outputs@) =~= after_query(geo@, line@).outputs);
                            let documents: Vec<GeneratedDocument> = Vec::new();
                            assert(document_views(documents@) =~= documents_of(geo@, Seq::empty()));
                            Ok(
                                Step {
                                    state: SessionState { phase: Phase::Prompting },
                                    outputs,
                                    documents,
                                },
                            )
                        },
                        Err(e) => Err(e),
                    }
                }
            },
            Phase::Resolving { candidates } => {
                match choose_candidates(candidates, line, geo) {
                    Ok(step) => Ok(step),
                    Err(GeojsonError::UserCancelled) => Ok(quiet(Phase::Prompting)),
                    Err(e) => Err(e),
                }
            },
            Phase::Branching { candidates, chosen } => {
                let merged = ask_merge_preference(line);
                match generate(&candidates, &chosen, merged, geo) {
                    Ok(documents) => {
                        let outputs: Vec<Output> = Vec::new();
                        assert(output_views(outputs@) =~= Seq::empty());
                        Ok(
                            Step {
                                state: SessionState { phase: Phase::Prompting },
                                outputs,
                                documents,
                            },
                        )
                    },
                    Err(e) => Err(e),
                }
            },
            Phase::Done => Ok(quiet(Phase::Done)),
        }
    }
}

/// A step into a phase that holds nothing, with nothing to say and nothing
/// to store.
fn quiet<'a>(phase: Phase<'a>) -> (step: Step<'a>)
    requires
        phase is Prompting || phase is Done,
    ensures
        step.state@ == phase@,
        output_views(step.outputs@) == Seq::<OutputView>::empty(),
        document_views(step.documents@) == Seq::<DocumentView>::empty(),
{
    let outputs: Vec<Output> = Vec::new();
    let documents: Vec<GeneratedDocument> = Vec::new();
    Step { state: SessionState { phase }, outputs, documents }
}

/// The step that a query leads to.
///
/// A query without a candidate fails with `NoMatchFound`, which carries the
/// query. A single candidate is taken as it is, and its document is made.
/// Several candidates are listed, and a choice among them is awaited.
pub fn process_query<'a>(query: &str, geo: &'a Geo) -> (next: Result<Step<'a>, GeojsonError>)
    ensures
        if candidates(geo@, query@).len() == 0 {
            next matches Err(GeojsonError::NoMatchFound(what)) && what@ == query@
        } else {
            ends_as(next, after_query(geo@, query@), geo@)
        },
{
    let found = search_candidates(query, geo);
    if found.len() == 0 {
        Err(GeojsonError::NoMatchFound(query.to_owned()))
    } else if found.len() == 1 {
        let mut chosen: Vec<usize> = Vec::new();
        chosen.push(0);
        match generate(&found, &chosen, false, geo) {
            Ok(documents) => {
                let outputs: Vec<Output> = Vec::new();
                assert(output_views(outputs@) =~= Seq::empty());
                Ok(Step { state: SessionState { phase: Phase::Prompting }, outputs, documents })
            },
            Err(e) => Err(e),
        }
    } else {
        let outputs = display_candidates(found.as_slice());
        let documents: Vec<GeneratedDocument> = Vec::new();
        assert(document_views(documents@) =~= documents_of(geo@, Seq::empty()));
        Ok(
            Step {
                state: SessionState { phase: Phase::Resolving { candidates: found } },
                outputs,
                documents,
            },
        )
    }
}

/// The step that an answer to the prompt for a choice leads to, among the
/// candidates `found`, which are two or more.
///
/// The word `q` gives the choice up: that fails with `UserCancelled`. An
/// answer that does not choose is complained about, and the choice is
/// awaited again. One chosen candidate gives its document; of several the
/// question of merging is still to be asked. The candidates are expected as
/// a search returns them: in order, each once.
pub fn choose_candidates<'a>(found: Vec<TrainLine<'a>>, line: &str, geo: &'a Geo) -> (next: Result<
    Step<'a>,
    GeojsonError,
>)
    requires
        found.len() >= 2,
        strictly_ascending(line_views(found@)),
    ensures
        if line@ == "q"@ {
            next matches Err(GeojsonError::UserCancelled)
        } else {
            ends_as(next, after_choice(line_views(found@), line@), geo@)
        },
{
    if str_eq(line, "q") {
        return Err(GeojsonError::UserCancelled);
    }
    let ghost ids = line_views(found@);
    match parse_selection(line, found.len()) {
        Err(e) => {
            let mut outputs: Vec<Output> = Vec::new();
            outputs.push(Output::Error(e.to_string()));
            assert(output_views(outputs@) =~= after_choice(ids, line@).outputs);
            let documents: Vec<GeneratedDocument> = Vec::new();
            assert(document_views(documents@) =~= documents_of(geo@, Seq::empty()));
            Ok(
                Step {
                    state: SessionState { phase: Phase::Resolving { candidates: found } },
                    outputs,
                    documents,
                },
            )
        },
        Ok(chosen) => {
            assert forall|k: int| 0 <= k < chosen.len() implies chosen[k] < found.len() by {
                assert(chosen@.contains(chosen@[k]));
            }
            if chosen.len() > 1 {
                let outputs: Vec<Output> = Vec::new();
                assert(output_views(outputs@) =~= Seq::empty());
                let documents: Vec<GeneratedDocument> = Vec::new();
                assert(document_views(documents@) =~= documents_of(geo@, Seq::empty()));
                Ok(
                    Step {
                        state: SessionState { phase: Phase::Branching { candidates: found, chosen } },
                        outputs,
                        documents,
                    },
                )
            } else {
                match generate(&found, &chosen, false, geo) {
                    Ok(documents) => {
                        let outputs: Vec<Output> = Vec::new();
                        assert(output_views(outputs@) =~= Seq::empty());
                        Ok(
                            Step {
                                state: SessionState { phase: Phase::Prompting },
                                outputs,
                                documents,
                            },
                        )
                    },
                    Err(e) => Err(e),
                }
            }
        },
    }
}

} // verus!
