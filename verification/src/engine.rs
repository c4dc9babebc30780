//! The metric and requirement engine: turning collected answers into counts,
//! counts into booleans, and requirement vectors into result states.
//!
//! All functions here are pure: they read the response table and the
//! progress vector handed to them and share no state.

use vstd::prelude::*;
use crate::PollError;
use crate::schema::Choice;
use crate::schema::FormResponse;
use crate::schema::FormResponseView;
use crate::schema::Metric;
use crate::schema::PollResult;
use crate::schema::Progress;
use crate::schema::Requirement;
use crate::schema::ResultState;
use crate::schema::ResultStateView;
use crate::schema::QuestionView;
use crate::schema::requirement_in_range;
use crate::schema::responses_valid;
use crate::schema::response_valid_for;

verus! {

/// One entry of the response table: a respondent's name and their answers.
pub type ResponseEntryView = (Seq<char>, Seq<FormResponseView>);

/// The whole response table: one entry per respondent, names unique.
pub type ResponseTableView = Seq<ResponseEntryView>;

// ---------------------------------------------------------------------------
// Counting one metric
// ---------------------------------------------------------------------------

/// Whether one answer counts toward a metric choice: the picked choice for
/// the single-choice forms, membership for multiple choice, and the rank-1
/// preference alone for ranked choice. Reading a ranked answer is only
/// meaningful when it ranks something, which [`metric_computable`] demands.
pub open spec fn response_matches(r: FormResponseView, c: Choice) -> bool {
    match r {
        FormResponseView::ChooseOneOrNone(o) => match o {
            Option::Some(rc) => rc == c,
            Option::None => false,
        },
        FormResponseView::ChooseOne(rc) => rc == c,
        FormResponseView::ChooseMultiple(cs) => cs.contains(c),
        FormResponseView::RankedChoice(cs) => cs.len() > 0 && cs[0] == c,
    }
}

/// One answer can be read by the counting rule: a ranked answer must rank
/// at least one option (its rank-1 entry is looked up), every other shape
/// is always readable.
pub open spec fn answer_readable(r: FormResponseView) -> bool {
    match r {
        FormResponseView::RankedChoice(cs) => cs.len() > 0,
        _ => true,
    }
}

/// Every respondent's answer vector is long enough to be read at question
/// `qi` and the answer there is readable: what a metric count needs to be
/// computable at all. An index lookup that would fail is a validation
/// error, never a panic.
pub open spec fn metric_computable(qi: int, rs: ResponseTableView) -> bool {
    forall|i: int|
        0 <= i < rs.len() ==> qi < (#[trigger] rs[i]).1.len() && answer_readable(rs[i].1[qi])
}

/// A valid answer vector is readable at every question: validity forces
/// the variant to match the question's form and a ranked answer to be
/// non-empty.
pub proof fn lemma_valid_answer_readable(qs: Seq<QuestionView>, rs: Seq<FormResponseView>, qi: int)
    requires
        responses_valid(qs, rs),
        0 <= qi < qs.len(),
    ensures
        qi < rs.len(),
        answer_readable(rs[qi]),
{
    assert(response_valid_for(qs[qi].form, rs[qi]));
    match rs[qi] {
        FormResponseView::RankedChoice(cs) => {
            assert(cs.len() > 0);
        },
        _ => {},
    }
}

/// Decides [`answer_readable`] for one answer.
pub fn check_readable(resp: &FormResponse) -> (r: bool)
    ensures
        r == answer_readable(resp@),
{
    proof {
        match resp {
            FormResponse::ChooseOneOrNone(o) => assert(resp@ == FormResponseView::ChooseOneOrNone(
                *o,
            )),
            FormResponse::ChooseOne(rc) => assert(resp@ == FormResponseView::ChooseOne(*rc)),
            FormResponse::ChooseMultiple(cs) => assert(resp@ == FormResponseView::ChooseMultiple(
                cs@,
            )),
            FormResponse::RankedChoice(cs) => assert(resp@ == FormResponseView::RankedChoice(cs@)),
        }
    }
    match resp {
        FormResponse::RankedChoice(cs) => cs.len() > 0,
        _ => true,
    }
}

/// The number of respondents whose answer at question `qi` counts toward
/// choice `c`.
pub open spec fn count_matching(rs: ResponseTableView, qi: int, c: Choice) -> nat
    decreases rs.len(),
{
    if rs.len() == 0 {
        0
    } else {
        count_matching(rs.drop_last(), qi, c) + if response_matches(rs.last().1[qi], c) {
            1nat
        } else {
            0nat
        }
    }
}

/// Decides whether `c` is among `cs`.
pub fn contains_choice(cs: &Vec<Choice>, c: Choice) -> (r: bool)
    ensures
        r == cs@.contains(c),
{
    let mut j: usize = 0;
    while j < cs.len()
        invariant
            0 <= j <= cs@.len(),
            forall|k: int| 0 <= k < j ==> cs@[k] != c,
        decreases cs@.len() - j,
    {
        if cs[j] == c {
            return true;
        }
        j += 1;
    }
    proof {
        assert(!cs@.contains(c));
    }
    false
}

/// Decides whether one answer counts toward choice `c`, per
/// [`response_matches`].
pub fn matches_response(resp: &FormResponse, c: Choice) -> (r: bool)
    ensures
        r == response_matches(resp@, c),
{
    proof {
        match resp {
            FormResponse::ChooseOneOrNone(o) => assert(resp@ == FormResponseView::ChooseOneOrNone(
                *o,
            )),
            FormResponse::ChooseOne(rc) => assert(resp@ == FormResponseView::ChooseOne(*rc)),
            FormResponse::ChooseMultiple(cs) => assert(resp@ == FormResponseView::ChooseMultiple(
                cs@,
            )),
            FormResponse::RankedChoice(cs) => assert(resp@ == FormResponseView::RankedChoice(cs@)),
        }
    }
    match resp {
        FormResponse::ChooseOneOrNone(o) => match o {
            Option::Some(rc) => *rc == c,
            Option::None => false,
        },
        FormResponse::ChooseOne(rc) => *rc == c,
        FormResponse::ChooseMultiple(cs) => contains_choice(cs, c),
        FormResponse::RankedChoice(cs) => {
            if cs.len() > 0 {
                cs[0] == c
            } else {
                false
            }
        },
    }
}

impl Metric {
    /// Counts the respondents whose answer satisfies this metric, over the
    /// full response table. Succeeds exactly when every answer vector is
    /// long enough to be read at the metric's question index and every
    /// ranked answer there ranks something; otherwise nothing is counted
    /// and a validation error is returned, never a panic.
    pub fn calculate_progress(&self, responses: &Vec<(String, Vec<FormResponse>)>) -> (r: Result<
        Progress,
        PollError,
    >)
        ensures
            match *self {
                Metric::SpecificResponses { question_index, choice } => {
                    if metric_computable(question_index as int, responses.deep_view()) {
                        r == Ok::<Progress, PollError>(
                            Progress::Count(
                                count_matching(
                                    responses.deep_view(),
                                    question_index as int,
                                    choice,
                                ) as u64,
                            ),
                        )
                    } else {
                        r == Err::<Progress, PollError>(PollError::ValidationError)
                    }
                },
            },
    {
        match self {
            Metric::SpecificResponses { question_index, choice } => {
                let qi: usize = *question_index;
                let c: Choice = *choice;
                proof {
                    assert(*self == Metric::SpecificResponses { question_index: qi, choice: c });
                }
                let ghost rs = responses.deep_view();
                let mut count: u64 = 0;
                let mut i: usize = 0;
                while i < responses.len()
                    invariant
                        0 <= i <= responses@.len(),
                        rs == responses.deep_view(),
                        rs.len() == responses@.len(),
                        count <= i,
                        metric_computable(qi as int, rs.take(i as int)),
                        count == count_matching(rs.take(i as int), qi as int, c),
                    decreases responses@.len() - i,
                {
                    proof {
                        assert(rs[i as int] == responses@[i as int].deep_view());
                        assert(rs[i as int].1 == responses@[i as int].1.deep_view());
                    }
                    let entry_responses: &Vec<FormResponse> = &responses[i].1;
                    if !(qi < entry_responses.len()) {
                        proof {
                            assert(!metric_computable(qi as int, rs));
                        }
                        return Err(PollError::ValidationError);
                    }
                    proof {
                        assert(rs[i as int].1[qi as int] == entry_responses@[qi as int]@);
                    }
                    if !check_readable(&entry_responses[qi]) {
                        proof {
                            assert(!metric_computable(qi as int, rs));
                        }
                        return Err(PollError::ValidationError);
                    }
                    let m = matches_response(&entry_responses[qi], c);
                    if m {
                        count = count + 1;
                    }
                    proof {
                        assert(rs.take(i + 1 as int).drop_last() =~= rs.take(i as int));
                        assert(rs.take(i + 1 as int).last() == rs[i as int]);
                    }
                    i += 1;
                }
                proof {
                    assert(rs.take(rs.len() as int) =~= rs);
                }
                Ok(Progress::Count(count))
            },
        }
    }
}

// ---------------------------------------------------------------------------
// Evaluating requirements
// ---------------------------------------------------------------------------

/// The count a progress value carries.
pub open spec fn progress_count(p: Progress) -> u64 {
    match p {
        Progress::Count(c) => c,
    }
}

/// Whether a requirement holds against a progress vector; meaningful when
/// its metric index is in range.
pub open spec fn requirement_met(req: Requirement, ps: Seq<Progress>) -> bool {
    match req {
        Requirement::AtLeast { metric_index, minimum } => progress_count(ps[metric_index as int])
            >= minimum,
    }
}

impl Requirement {
    /// Evaluates the requirement against computed progresses: true exactly
    /// when the addressed count reaches the minimum. An out-of-range metric
    /// index is a validation error, never a panic.
    pub fn evaluate(&self, progresses: &[Progress]) -> (r: Result<bool, PollError>)
        ensures
            match *self {
                Requirement::AtLeast { metric_index, minimum } => {
                    if (metric_index as int) < progresses@.len() {
                        r == Ok::<bool, PollError>(requirement_met(*self, progresses@))
                    } else {
                        r == Err::<bool, PollError>(PollError::ValidationError)
                    }
                },
            },
    {
        match self {
            Requirement::AtLeast { metric_index, minimum } => {
                let mi: usize = *metric_index as usize;
                if mi < progresses.len() {
                    let p: Progress = progresses[mi];
                    match p {
                        Progress::Count(count) => Ok(count >= *minimum),
                    }
                } else {
                    Err(PollError::ValidationError)
                }
            },
        }
    }
}

// ---------------------------------------------------------------------------
// Aggregating a result's requirements
// ---------------------------------------------------------------------------

/// Every requirement's metric index is strictly below `n_metrics`.
pub open spec fn requirements_in_range(reqs: Seq<Requirement>, n_metrics: int) -> bool {
    forall|i: int| 0 <= i < reqs.len() ==> requirement_in_range(#[trigger] reqs[i], n_metrics)
}

/// The state a result has against a progress vector: each requirement's
/// truth in order, and their conjunction (vacuously true when there are no
/// requirements).
pub open spec fn result_state_of(reqs: Seq<Requirement>, ps: Seq<Progress>) -> ResultStateView {
    ResultStateView {
        requirements_met: Seq::new(reqs.len(), |i: int| requirement_met(reqs[i], ps)),
        overall_met: forall|i: int| 0 <= i < reqs.len() ==> requirement_met(#[trigger] reqs[i], ps),
    }
}

impl PollResult {
    /// Evaluates every requirement of this result in order and takes their
    /// conjunction. Succeeds exactly when every requirement addresses an
    /// existing progress slot; the conjunction over no requirements is
    /// vacuously true.
    pub fn compute_state(&self, progresses: &[Progress]) -> (r: Result<ResultState, PollError>)
        ensures
            requirements_in_range(self@.requirements, progresses@.len() as int) ==> (r matches Ok(
                st,
            ) && st@ == result_state_of(self@.requirements, progresses@)),
            !requirements_in_range(self@.requirements, progresses@.len() as int) ==> r == Err::<
                ResultState,
                PollError,
            >(PollError::ValidationError),
            r matches Ok(st) ==> (st@.overall_met <==> forall|i: int|
                0 <= i < st@.requirements_met.len() ==> st@.requirements_met[i]),
    {
        let ghost reqs = self@.requirements;
        let mut met: Vec<bool> = Vec::new();
        let mut overall: bool = true;
        let mut i: usize = 0;
        while i < self.requirements.len()
            invariant
                0 <= i <= self.requirements@.len(),
                reqs == self@.requirements,
                reqs.len() == self.requirements@.len(),
                met@.len() == i,
                forall|k: int|
                    0 <= k < i ==> requirement_in_range(#[trigger] reqs[k], progresses@.len() as int),
                forall|k: int| 0 <= k < i ==> #[trigger] met@[k] == requirement_met(
                    reqs[k],
                    progresses@,
                ),
                overall == forall|k: int|
                    0 <= k < i ==> requirement_met(#[trigger] reqs[k], progresses@),
            decreases self.requirements@.len() - i,
        {
            let req: Requirement = self.requirements[i];
            match req.evaluate(progresses) {
                Ok(b) => {
                    met.push(b);
                    let ghost overall0 = overall;
                    overall = overall && b;
                    proof {
                        assert(overall == (overall0 && b));
                    }
                },
                Err(e) => {
                    proof {
                        assert(!requirement_in_range(reqs[i as int], progresses@.len() as int));
                    }
                    return Err(PollError::ValidationError);
                },
            }
            i += 1;
        }
        let st = ResultState { requirements_met: met, overall_met: overall };
        proof {
            assert(st@.requirements_met =~= result_state_of(reqs, progresses@).requirements_met);
            assert(st@ == result_state_of(reqs, progresses@));
            if st@.overall_met {
                assert forall|k: int| 0 <= k < st@.requirements_met.len() implies #[trigger] st@
                    .requirements_met[k] by {
                    assert(st@.requirements_met[k] == met@[k]);
                    assert(requirement_met(reqs[k], progresses@));
                };
            } else {
                let k = choose|k: int|
                    0 <= k < reqs.len() && !requirement_met(#[trigger] reqs[k], progresses@);
                assert(st@.requirements_met[k] == met@[k]);
                assert(!st@.requirements_met[k]);
            }
        }
        Ok(st)
    }
}

impl ResultState {
    /// The zeroed state a result starts from before any computation: every
    /// requirement unmet and the overall outcome false.
    pub fn from_result(result: &PollResult) -> (r: ResultState)
        ensures
            r@.requirements_met == Seq::new(result@.requirements.len(), |i: int| false),
            r@.overall_met == false,
    {
        let mut met: Vec<bool> = Vec::new();
        let mut i: usize = 0;
        while i < result.requirements.len()
            invariant
                0 <= i <= result.requirements@.len(),
                met@.len() == i,
                forall|k: int| 0 <= k < i ==> #[trigger] met@[k] == false,
            decreases result.requirements@.len() - i,
        {
            met.push(false);
            i += 1;
        }
        proof {
            assert(met@ =~= Seq::new(result@.requirements.len(), |i: int| false));
        }
        ResultState { requirements_met: met, overall_met: false }
    }
}

} // verus!
