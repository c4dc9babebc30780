//! Typed vocabulary of the engine: questions, forms, choices, answers,
//! metrics, requirements, results, and the poll that ties them together,
//! together with the structural invariants relating them.
//!
//! Every executable type has a ghost model (its `DeepView`), stated over
//! `Seq` and plain values; all contracts in this crate speak about those
//! models.

use vstd::prelude::*;

verus! {

broadcast use vstd::std_specs::vec::vec_clone_deep_view_proof;

// ---------------------------------------------------------------------------
// Choices
// ---------------------------------------------------------------------------

/// One selectable answer: a position into an options list, or a yes/no value.
#[derive(Clone, Copy, Debug, PartialEq, Eq, Structural)]
pub enum Choice {
    Index(u8),
    YesOrNo(bool),
}

impl DeepView for Choice {
    type V = Choice;

    open spec fn deep_view(&self) -> Choice {
        *self
    }
}

// ---------------------------------------------------------------------------
// Forms and questions
// ---------------------------------------------------------------------------

/// The kind of answer a question accepts. The four option-based variants
/// carry their options; the invariant [`form_wf`] asks that those are
/// non-empty.
#[derive(Debug, PartialEq)]
pub enum Form {
    OneOrNone { options: Vec<String> },
    One { options: Vec<String> },
    Multiple { options: Vec<String> },
    RankedChoice { options: Vec<String> },
    YesNoNone,
    YesNo,
}

/// Ghost model of [`Form`].
#[verifier::ext_equal]
pub enum FormView {
    OneOrNone { options: Seq<Seq<char>> },
    One { options: Seq<Seq<char>> },
    Multiple { options: Seq<Seq<char>> },
    RankedChoice { options: Seq<Seq<char>> },
    YesNoNone,
    YesNo,
}

impl View for Form {
    type V = FormView;

    open spec fn view(&self) -> FormView {
        match self {
            Form::OneOrNone { options } => FormView::OneOrNone { options: options.deep_view() },
            Form::One { options } => FormView::One { options: options.deep_view() },
            Form::Multiple { options } => FormView::Multiple { options: options.deep_view() },
            Form::RankedChoice { options } => FormView::RankedChoice {
                options: options.deep_view(),
            },
            Form::YesNoNone => FormView::YesNoNone,
            Form::YesNo => FormView::YesNo,
        }
    }
}

impl DeepView for Form {
    type V = FormView;

    open spec fn deep_view(&self) -> FormView {
        self.view()
    }
}

/// A prompt plus the form its answers must take.
#[derive(Debug, PartialEq)]
pub struct Question {
    pub prompt: String,
    pub form: Form,
}

/// Ghost model of [`Question`].
#[verifier::ext_equal]
pub struct QuestionView {
    pub prompt: Seq<char>,
    pub form: FormView,
}

impl View for Question {
    type V = QuestionView;

    open spec fn view(&self) -> QuestionView {
        QuestionView { prompt: self.prompt@, form: self.form@ }
    }
}

impl DeepView for Question {
    type V = QuestionView;

    open spec fn deep_view(&self) -> QuestionView {
        self.view()
    }
}

// ---------------------------------------------------------------------------
// Responses
// ---------------------------------------------------------------------------

/// One respondent's answer to one question, mirroring [`Form`] variant by
/// variant.
#[derive(Debug, PartialEq)]
pub enum FormResponse {
    ChooseOneOrNone(Option<Choice>),
    ChooseOne(Choice),
    ChooseMultiple(Vec<Choice>),
    RankedChoice(Vec<Choice>),
}

/// Ghost model of [`FormResponse`].
#[verifier::ext_equal]
pub enum FormResponseView {
    ChooseOneOrNone(Option<Choice>),
    ChooseOne(Choice),
    ChooseMultiple(Seq<Choice>),
    RankedChoice(Seq<Choice>),
}

impl View for FormResponse {
    type V = FormResponseView;

    open spec fn view(&self) -> FormResponseView {
        match self {
            FormResponse::ChooseOneOrNone(c) => FormResponseView::ChooseOneOrNone(*c),
            FormResponse::ChooseOne(c) => FormResponseView::ChooseOne(*c),
            FormResponse::ChooseMultiple(cs) => FormResponseView::ChooseMultiple(cs@),
            FormResponse::RankedChoice(cs) => FormResponseView::RankedChoice(cs@),
        }
    }
}

impl DeepView for FormResponse {
    type V = FormResponseView;

    open spec fn deep_view(&self) -> FormResponseView {
        self.view()
    }
}

// ---------------------------------------------------------------------------
// Metrics, progress, requirements
// ---------------------------------------------------------------------------

/// A countable property of the collected answers: "did the respondent pick
/// `choice` on question `question_index`".
#[derive(Clone, Copy, Debug, PartialEq, Eq, Structural)]
pub enum Metric {
    SpecificResponses { question_index: usize, choice: Choice },
}

impl DeepView for Metric {
    type V = Metric;

    open spec fn deep_view(&self) -> Metric {
        *self
    }
}

/// A metric plus whether its count is shown to readers of the poll's
/// progress.
#[derive(Clone, Copy, Debug, PartialEq, Eq, Structural)]
pub struct MetricTracker {
    pub metric: Metric,
    pub publicly_visible: bool,
}

impl DeepView for MetricTracker {
    type V = MetricTracker;

    open spec fn deep_view(&self) -> MetricTracker {
        *self
    }
}

/// The computed value of one metric: how many respondents satisfy it.
#[derive(Clone, Copy, Debug, PartialEq, Eq, Structural)]
pub enum Progress {
    Count(u64),
}

impl DeepView for Progress {
    type V = Progress;

    open spec fn deep_view(&self) -> Progress {
        *self
    }
}

/// A threshold test against one metric's count: true iff the count at
/// `metric_index` is at least `minimum`.
#[derive(Clone, Copy, Debug, PartialEq, Eq, Structural)]
pub enum Requirement {
    AtLeast { metric_index: u16, minimum: u64 },
}

impl DeepView for Requirement {
    type V = Requirement;

    open spec fn deep_view(&self) -> Requirement {
        *self
    }
}

// ---------------------------------------------------------------------------
// Results
// ---------------------------------------------------------------------------

/// A named outcome gated by one or more requirements.
#[derive(Debug, PartialEq)]
pub struct PollResult {
    pub desc: String,
    pub requirements: Vec<Requirement>,
}

/// Ghost model of [`PollResult`].
#[verifier::ext_equal]
pub struct PollResultView {
    pub desc: Seq<char>,
    pub requirements: Seq<Requirement>,
}

impl View for PollResult {
    type V = PollResultView;

    open spec fn view(&self) -> PollResultView {
        PollResultView { desc: self.desc@, requirements: self.requirements@ }
    }
}

impl DeepView for PollResult {
    type V = PollResultView;

    open spec fn deep_view(&self) -> PollResultView {
        self.view()
    }
}

/// The computed truth of a result's requirements, individually and overall.
/// Derived, never authored directly: `overall_met` is the conjunction of
/// `requirements_met` whenever the state was computed from progresses.
#[derive(Debug, PartialEq)]
pub struct ResultState {
    pub requirements_met: Vec<bool>,
    pub overall_met: bool,
}

/// Ghost model of [`ResultState`].
#[verifier::ext_equal]
pub struct ResultStateView {
    pub requirements_met: Seq<bool>,
    pub overall_met: bool,
}

impl View for ResultState {
    type V = ResultStateView;

    open spec fn view(&self) -> ResultStateView {
        ResultStateView { requirements_met: self.requirements_met@, overall_met: self.overall_met }
    }
}

impl DeepView for ResultState {
    type V = ResultStateView;

    open spec fn deep_view(&self) -> ResultStateView {
        self.view()
    }
}

// ---------------------------------------------------------------------------
// Poll
// ---------------------------------------------------------------------------

/// Whether the poll is still collecting answers. Advisory: no operation of
/// the engine inspects or changes it.
#[derive(Clone, Copy, Debug, PartialEq, Eq, Structural)]
pub enum PollStatus {
    SeekingResponses,
    Closed,
}

impl DeepView for PollStatus {
    type V = PollStatus;

    open spec fn deep_view(&self) -> PollStatus {
        *self
    }
}

/// A published poll: metadata, questions, the metrics to count and the
/// results those metrics gate. The optional expiration is kept as a unix
/// timestamp in seconds; the unverified shell converts to and from its
/// calendar representation.
#[derive(Debug, PartialEq)]
pub struct Poll {
    pub title: String,
    pub description: String,
    pub expiration: Option<i64>,
    pub announcement: Option<String>,
    pub metric_trackers: Vec<MetricTracker>,
    pub results: Vec<PollResult>,
    pub status: PollStatus,
    pub questions: Vec<Question>,
}

/// Ghost model of [`Poll`].
#[verifier::ext_equal]
pub struct PollView {
    pub title: Seq<char>,
    pub description: Seq<char>,
    pub expiration: Option<i64>,
    pub announcement: Option<Seq<char>>,
    pub metric_trackers: Seq<MetricTracker>,
    pub results: Seq<PollResultView>,
    pub status: PollStatus,
    pub questions: Seq<QuestionView>,
}

impl View for Poll {
    type V = PollView;

    open spec fn view(&self) -> PollView {
        PollView {
            title: self.title@,
            description: self.description@,
            expiration: self.expiration,
            announcement: self.announcement.deep_view(),
            metric_trackers: self.metric_trackers@,
            results: self.results.deep_view(),
            status: self.status,
            questions: self.questions.deep_view(),
        }
    }
}

impl DeepView for Poll {
    type V = PollView;

    open spec fn deep_view(&self) -> PollView {
        self.view()
    }
}

// ---------------------------------------------------------------------------
// Read-only projection of derived state
// ---------------------------------------------------------------------------

/// The projection of a poll's derived state handed to clients: one slot per
/// metric tracker (`None` where the tracker is not publicly visible) and one
/// state per declared result.
#[derive(Debug, PartialEq)]
pub struct PollProgress {
    pub metric_progresses: Vec<Option<Progress>>,
    pub result_states: Vec<ResultState>,
}

/// Ghost model of [`PollProgress`].
#[verifier::ext_equal]
pub struct PollProgressView {
    pub metric_progresses: Seq<Option<Progress>>,
    pub result_states: Seq<ResultStateView>,
}

impl View for PollProgress {
    type V = PollProgressView;

    open spec fn view(&self) -> PollProgressView {
        PollProgressView {
            metric_progresses: self.metric_progresses.deep_view(),
            result_states: self.result_states.deep_view(),
        }
    }
}

impl DeepView for PollProgress {
    type V = PollProgressView;

    open spec fn deep_view(&self) -> PollProgressView {
        self.view()
    }
}

// ---------------------------------------------------------------------------
// Wire-level request and reply shapes
// ---------------------------------------------------------------------------

/// Request for one poll by key.
#[derive(Clone, Copy, Debug, PartialEq, Eq, Structural)]
pub struct PollQuery {
    pub id: u64,
}

/// Reply to a poll query.
#[derive(Debug, PartialEq)]
pub enum PollQueryResult {
    Found(Poll),
    NotFound,
}

/// One respondent's submission: which poll, who answered, and the answers.
#[derive(Debug, PartialEq)]
pub struct PollResponse {
    pub poll_id: u64,
    pub user: String,
    pub responses: Vec<FormResponse>,
}

/// Reply to a submission.
#[derive(Clone, Copy, Debug, PartialEq, Eq, Structural)]
pub enum PollSubmissionResult {
    Success,
    Error,
}

/// Reply to a poll creation.
#[derive(Clone, Copy, Debug, PartialEq, Eq, Structural)]
pub enum CreatePollResult {
    Success { key: u64 },
    Error,
}

/// Reply to a progress query.
#[derive(Debug, PartialEq)]
pub enum ProgressReportResult {
    Success { progress: PollProgress },
    Error,
}

// ---------------------------------------------------------------------------
// Structural invariants
// ---------------------------------------------------------------------------

/// A form is well formed when its options are non-empty; the variants
/// without options carry no obligation.
pub open spec fn form_wf(f: FormView) -> bool {
    match f {
        FormView::OneOrNone { options } => options.len() > 0,
        FormView::One { options } => options.len() > 0,
        FormView::Multiple { options } => options.len() > 0,
        FormView::RankedChoice { options } => options.len() > 0,
        FormView::YesNoNone => true,
        FormView::YesNo => true,
    }
}

/// Every question of the poll carries a well-formed form.
pub open spec fn poll_forms_wf(p: PollView) -> bool {
    forall|i: int| 0 <= i < p.questions.len() ==> form_wf(#[trigger] p.questions[i].form)
}

/// The choice is a position strictly below `n`.
pub open spec fn choice_is_index_below(c: Choice, n: int) -> bool {
    match c {
        Choice::Index(i) => (i as int) < n,
        Choice::YesOrNo(_) => false,
    }
}

/// The shape a single answer must have for a given form: the matching
/// variant, every carried position strictly inside the options list, and a
/// ranked answer ranking at least one option (its rank-1 entry is what the
/// engine reads).
pub open spec fn response_valid_for(f: FormView, r: FormResponseView) -> bool {
    match (f, r) {
        (FormView::OneOrNone { options }, FormResponseView::ChooseOneOrNone(c)) => match c {
            Option::None => true,
            Option::Some(ch) => choice_is_index_below(ch, options.len() as int),
        },
        (FormView::YesNoNone, FormResponseView::ChooseOneOrNone(c)) => match c {
            Option::None => true,
            Option::Some(ch) => ch is YesOrNo,
        },
        (FormView::One { options }, FormResponseView::ChooseOne(c)) => choice_is_index_below(
            c,
            options.len() as int,
        ),
        (FormView::YesNo, FormResponseView::ChooseOne(c)) => c is YesOrNo,
        (FormView::Multiple { options }, FormResponseView::ChooseMultiple(cs)) => forall|j: int|
            0 <= j < cs.len() ==> choice_is_index_below(#[trigger] cs[j], options.len() as int),
        (FormView::RankedChoice { options }, FormResponseView::RankedChoice(cs)) => cs.len() > 0
            && forall|j: int|
            0 <= j < cs.len() ==> choice_is_index_below(#[trigger] cs[j], options.len() as int),
        _ => false,
    }
}

/// A full answer vector is valid for a question list when it has one answer
/// per question and each answer is valid for its question's form.
pub open spec fn responses_valid(qs: Seq<QuestionView>, rs: Seq<FormResponseView>) -> bool {
    &&& rs.len() == qs.len()
    &&& forall|i: int| 0 <= i < qs.len() ==> response_valid_for(qs[i].form, #[trigger] rs[i])
}

/// The metric's question index refers to an existing question.
pub open spec fn metric_question_in_range(m: Metric, qs: Seq<QuestionView>) -> bool {
    match m {
        Metric::SpecificResponses { question_index, .. } => (question_index as int) < qs.len(),
    }
}

/// The metric's choice has the shape the addressed question's form calls
/// for: a position inside the options for the option-based forms, a yes/no
/// value for the two others.
pub open spec fn metric_wf(m: Metric, qs: Seq<QuestionView>) -> bool {
    match m {
        Metric::SpecificResponses { question_index, choice } => {
            &&& (question_index as int) < qs.len()
            &&& match qs[question_index as int].form {
                FormView::OneOrNone { options } => choice_is_index_below(
                    choice,
                    options.len() as int,
                ),
                FormView::One { options } => choice_is_index_below(choice, options.len() as int),
                FormView::Multiple { options } => choice_is_index_below(
                    choice,
                    options.len() as int,
                ),
                FormView::RankedChoice { options } => choice_is_index_below(
                    choice,
                    options.len() as int,
                ),
                FormView::YesNoNone => choice is YesOrNo,
                FormView::YesNo => choice is YesOrNo,
            }
        },
    }
}

/// The requirement's metric index refers to an existing tracker.
pub open spec fn requirement_in_range(r: Requirement, n_metrics: int) -> bool {
    match r {
        Requirement::AtLeast { metric_index, .. } => (metric_index as int) < n_metrics,
    }
}

/// Every index the poll's derived state depends on is in range: each
/// tracker's question index, and each requirement's metric index. This is
/// exactly what a full recomputation of the derived state needs to succeed.
pub open spec fn poll_computable(p: PollView) -> bool {
    &&& forall|i: int|
        0 <= i < p.metric_trackers.len() ==> metric_question_in_range(
            (#[trigger] p.metric_trackers[i]).metric,
            p.questions,
        )
    &&& forall|i: int, j: int|
        0 <= i < p.results.len() && 0 <= j < p.results[i].requirements.len()
            ==> requirement_in_range(#[trigger] p.results[i].requirements[j], p.metric_trackers.len() as int)
}

/// Checks one answer against one form, deciding [`response_valid_for`].
#[verifier::rlimit(60)]
pub fn check_response(form: &Form, response: &FormResponse) -> (r: bool)
    ensures
        r == response_valid_for(form@, response@),
{
    proof {
        match form {
            Form::OneOrNone { options } => assert(form@ matches FormView::OneOrNone {
                options: o,
            } && o == options.deep_view()),
            Form::One { options } => assert(form@ matches FormView::One { options: o } && o
                == options.deep_view()),
            Form::Multiple { options } => assert(form@ matches FormView::Multiple { options: o }
                && o == options.deep_view()),
            Form::RankedChoice { options } => assert(form@ matches FormView::RankedChoice {
                options: o,
            } && o == options.deep_view()),
            Form::YesNoNone => assert(form@ is YesNoNone),
            Form::YesNo => assert(form@ is YesNo),
        }
        match response {
            FormResponse::ChooseOneOrNone(c) => assert(response@
                == FormResponseView::ChooseOneOrNone(*c)),
            FormResponse::ChooseOne(c) => assert(response@ == FormResponseView::ChooseOne(*c)),
            FormResponse::ChooseMultiple(cs) => assert(response@
                == FormResponseView::ChooseMultiple(cs@)),
            FormResponse::RankedChoice(cs) => assert(response@ == FormResponseView::RankedChoice(
                cs@,
            )),
        }
    }
    match (form, response) {
        (Form::OneOrNone { options }, FormResponse::ChooseOneOrNone(c)) => match c {
            Option::None => true,
            Option::Some(Choice::Index(i)) => (*i as usize) < options.len(),
            Option::Some(Choice::YesOrNo(_)) => false,
        },
        (Form::YesNoNone, FormResponse::ChooseOneOrNone(c)) => match c {
            Option::None => true,
            Option::Some(Choice::Index(_)) => false,
            Option::Some(Choice::YesOrNo(_)) => true,
        },
        (Form::One { options }, FormResponse::ChooseOne(c)) => match c {
            Choice::Index(i) => (*i as usize) < options.len(),
            Choice::YesOrNo(_) => false,
        },
        (Form::YesNo, FormResponse::ChooseOne(c)) => match c {
            Choice::Index(_) => false,
            Choice::YesOrNo(_) => true,
        },
        (Form::Multiple { options }, FormResponse::ChooseMultiple(cs)) => {
            let ok = all_indices_below(cs, options.len());
            proof {
                assert(ok == forall|j: int|
                    0 <= j < cs@.len() ==> choice_is_index_below(
                        #[trigger] cs@[j],
                        options.deep_view().len() as int,
                    ));
            }
            ok
        },
        (Form::RankedChoice { options }, FormResponse::RankedChoice(cs)) => {
            let ok = all_indices_below(cs, options.len());
            proof {
                assert(ok == forall|j: int|
                    0 <= j < cs@.len() ==> choice_is_index_below(
                        #[trigger] cs@[j],
                        options.deep_view().len() as int,
                    ));
            }
            cs.len() > 0 && ok
        },
        _ => false,
    }
}

/// Decides whether every choice in `cs` is a position strictly below `n`.
pub fn all_indices_below(cs: &Vec<Choice>, n: usize) -> (r: bool)
    ensures
        r == forall|j: int| 0 <= j < cs@.len() ==> choice_is_index_below(#[trigger] cs@[j], n as int),
{
    let mut j: usize = 0;
    while j < cs.len()
        invariant
            0 <= j <= cs@.len(),
            forall|k: int| 0 <= k < j ==> choice_is_index_below(#[trigger] cs@[k], n as int),
        decreases cs@.len() - j,
    {
        match cs[j] {
            Choice::Index(i) => {
                if !((i as usize) < n) {
                    return false;
                }
            },
            Choice::YesOrNo(_) => {
                return false;
            },
        }
        j += 1;
    }
    true
}

/// Checks a full answer vector against the poll's questions, deciding
/// [`responses_valid`].
pub fn validate_responses(questions: &Vec<Question>, responses: &Vec<FormResponse>) -> (r: bool)
    ensures
        r == responses_valid(questions.deep_view(), responses.deep_view()),
{
    proof {
        assert(questions.deep_view().len() == questions@.len());
        assert(responses.deep_view().len() == responses@.len());
    }
    if questions.len() != responses.len() {
        return false;
    }
    let mut i: usize = 0;
    while i < questions.len()
        invariant
            0 <= i <= questions@.len(),
            questions@.len() == responses@.len(),
            forall|k: int|
                0 <= k < i ==> response_valid_for(
                    questions.deep_view()[k].form,
                    #[trigger] responses.deep_view()[k],
                ),
        decreases questions@.len() - i,
    {
        proof {
            assert(questions.deep_view()[i as int] == questions@[i as int]@);
            assert(responses.deep_view()[i as int] == responses@[i as int]@);
        }
        if !check_response(&questions[i].form, &responses[i]) {
            return false;
        }
        i += 1;
    }
    true
}

// ---------------------------------------------------------------------------
// Clones
// ---------------------------------------------------------------------------

impl Clone for Question {
    /// Cloning preserves the model.
    fn clone(&self) -> (res: Self)
        ensures
            res@ == self@,
    {
        Question { prompt: self.prompt.clone(), form: self.form.clone() }
    }
}

impl Clone for Form {
    /// Cloning preserves the model.
    fn clone(&self) -> (res: Self)
        ensures
            res@ == self@,
    {
        match self {
            Form::OneOrNone { options } => Form::OneOrNone { options: options.clone() },
            Form::One { options } => Form::One { options: options.clone() },
            Form::Multiple { options } => Form::Multiple { options: options.clone() },
            Form::RankedChoice { options } => Form::RankedChoice { options: options.clone() },
            Form::YesNoNone => Form::YesNoNone,
            Form::YesNo => Form::YesNo,
        }
    }
}

impl Clone for FormResponse {
    /// Cloning preserves the model.
    fn clone(&self) -> (res: Self)
        ensures
            res@ == self@,
    {
        match self {
            FormResponse::ChooseOneOrNone(c) => FormResponse::ChooseOneOrNone(*c),
            FormResponse::ChooseOne(c) => FormResponse::ChooseOne(*c),
            FormResponse::ChooseMultiple(cs) => FormResponse::ChooseMultiple(cs.clone()),
            FormResponse::RankedChoice(cs) => FormResponse::RankedChoice(cs.clone()),
        }
    }
}

impl Clone for PollResult {
    /// Cloning preserves the model.
    fn clone(&self) -> (res: Self)
        ensures
            res@ == self@,
    {
        PollResult { desc: self.desc.clone(), requirements: self.requirements.clone() }
    }
}

impl Clone for ResultState {
    /// Cloning preserves the model.
    fn clone(&self) -> (res: Self)
        ensures
            res@ == self@,
    {
        ResultState {
            requirements_met: self.requirements_met.clone(),
            overall_met: self.overall_met,
        }
    }
}

impl Clone for PollProgress {
    /// Cloning preserves the model.
    fn clone(&self) -> (res: Self)
        ensures
            res@ == self@,
    {
        let res = PollProgress {
            metric_progresses: self.metric_progresses.clone(),
            result_states: clone_result_states(&self.result_states),
        };
        proof {
            assert(res@.metric_progresses =~= self@.metric_progresses);
        }
        res
    }
}

/// Clones a vector of result states, preserving the model element by
/// element.
pub fn clone_result_states(v: &Vec<ResultState>) -> (r: Vec<ResultState>)
    ensures
        r.deep_view() == v.deep_view(),
{
    let mut r: Vec<ResultState> = Vec::new();
    let mut i: usize = 0;
    while i < v.len()
        invariant
            0 <= i <= v@.len(),
            r@.len() == i,
            forall|k: int| 0 <= k < i ==> #[trigger] r.deep_view()[k] == v.deep_view()[k],
        decreases v@.len() - i,
    {
        let ghost r0 = r.deep_view();
        r.push(v[i].clone());
        proof {
            assert(r.deep_view() =~= r0.push(v.deep_view()[i as int]));
        }
        i += 1;
    }
    proof {
        assert(r.deep_view() =~= v.deep_view());
    }
    r
}

/// Clones a vector of questions, preserving the model element by element.
pub fn clone_questions(v: &Vec<Question>) -> (r: Vec<Question>)
    ensures
        r.deep_view() == v.deep_view(),
{
    let mut r: Vec<Question> = Vec::new();
    let mut i: usize = 0;
    while i < v.len()
        invariant
            0 <= i <= v@.len(),
            r@.len() == i,
            forall|k: int| 0 <= k < i ==> #[trigger] r.deep_view()[k] == v.deep_view()[k],
        decreases v@.len() - i,
    {
        let ghost r0 = r.deep_view();
        r.push(v[i].clone());
        proof {
            assert(r.deep_view() =~= r0.push(v.deep_view()[i as int]));
        }
        i += 1;
    }
    proof {
        assert(r.deep_view() =~= v.deep_view());
    }
    r
}

/// Clones a vector of poll results, preserving the model element by element.
pub fn clone_poll_results(v: &Vec<PollResult>) -> (r: Vec<PollResult>)
    ensures
        r.deep_view() == v.deep_view(),
{
    let mut r: Vec<PollResult> = Vec::new();
    let mut i: usize = 0;
    while i < v.len()
        invariant
            0 <= i <= v@.len(),
            r@.len() == i,
            forall|k: int| 0 <= k < i ==> #[trigger] r.deep_view()[k] == v.deep_view()[k],
        decreases v@.len() - i,
    {
        let ghost r0 = r.deep_view();
        r.push(v[i].clone());
        proof {
            assert(r.deep_view() =~= r0.push(v.deep_view()[i as int]));
        }
        i += 1;
    }
    proof {
        assert(r.deep_view() =~= v.deep_view());
    }
    r
}

/// Clones a vector of answers, preserving the model element by element.
pub fn clone_responses(v: &Vec<FormResponse>) -> (r: Vec<FormResponse>)
    ensures
        r.deep_view() == v.deep_view(),
{
    let mut r: Vec<FormResponse> = Vec::new();
    let mut i: usize = 0;
    while i < v.len()
        invariant
            0 <= i <= v@.len(),
            r@.len() == i,
            forall|k: int| 0 <= k < i ==> #[trigger] r.deep_view()[k] == v.deep_view()[k],
        decreases v@.len() - i,
    {
        let ghost r0 = r.deep_view();
        r.push(v[i].clone());
        proof {
            assert(r.deep_view() =~= r0.push(v.deep_view()[i as int]));
        }
        i += 1;
    }
    proof {
        assert(r.deep_view() =~= v.deep_view());
    }
    r
}

impl Clone for Poll {
    /// Cloning preserves the model.
    fn clone(&self) -> (res: Self)
        ensures
            res@ == self@,
    {
        let announcement = match &self.announcement {
            Option::Some(a) => Option::Some(a.clone()),
            Option::None => Option::None,
        };
        let res = Poll {
            title: self.title.clone(),
            description: self.description.clone(),
            expiration: self.expiration,
            announcement,
            metric_trackers: self.metric_trackers.clone(),
            results: clone_poll_results(&self.results),
            status: self.status,
            questions: clone_questions(&self.questions),
        };
        proof {
            assert(res@.metric_trackers =~= self@.metric_trackers);
            assert(res@.announcement == self@.announcement);
        }
        res
    }
}

impl Clone for PollResponse {
    /// Cloning preserves the model.
    fn clone(&self) -> (res: Self)
        ensures
            res.poll_id == self.poll_id,
            res.user@ == self.user@,
            res.responses.deep_view() == self.responses.deep_view(),
    {
        PollResponse {
            poll_id: self.poll_id,
            user: self.user.clone(),
            responses: clone_responses(&self.responses),
        }
    }
}

// ---------------------------------------------------------------------------
// Defaults
// ---------------------------------------------------------------------------

impl Default for Form {
    /// The default form asks to pick one option or none, with no options
    /// yet.
    fn default() -> (r: Self)
        ensures
            r@ == (FormView::OneOrNone { options: Seq::<Seq<char>>::empty() }),
    {
        let r = Form::OneOrNone { options: Vec::new() };
        proof {
            assert(r@ matches FormView::OneOrNone { options: o } && o =~= Seq::<Seq<
                char,
            >>::empty());
        }
        r
    }
}

impl Default for PollStatus {
    /// A fresh poll seeks responses.
    fn default() -> (r: Self)
        ensures
            r == PollStatus::SeekingResponses,
    {
        PollStatus::SeekingResponses
    }
}

impl Default for Question {
    /// An empty prompt over the default form.
    fn default() -> (r: Self)
        ensures
            r@.prompt == Seq::<char>::empty(),
            r@.form == (FormView::OneOrNone { options: Seq::<Seq<char>>::empty() }),
    {
        Question { prompt: String::new(), form: Form::default() }
    }
}

impl Default for PollResult {
    /// An unnamed result gated by one requirement: the first metric's count
    /// is at least one.
    fn default() -> (r: Self)
        ensures
            r@.desc == Seq::<char>::empty(),
            r@.requirements =~= seq![Requirement::AtLeast { metric_index: 0, minimum: 1 }],
    {
        PollResult {
            desc: String::new(),
            requirements: vec![Requirement::AtLeast { metric_index: 0, minimum: 1 }],
        }
    }
}

/// Decides [`poll_computable`] for a poll.
pub fn check_poll_computable(poll: &Poll) -> (r: bool)
    ensures
        r == poll_computable(poll.deep_view()),
{
    let n_questions = poll.questions.len();
    let n_metrics = poll.metric_trackers.len();
    let mut i: usize = 0;
    while i < poll.metric_trackers.len()
        invariant
            0 <= i <= poll.metric_trackers@.len(),
            n_questions == poll.questions@.len(),
            forall|k: int|
                0 <= k < i ==> metric_question_in_range(
                    (#[trigger] poll.metric_trackers@[k]).metric,
                    poll.deep_view().questions,
                ),
        decreases poll.metric_trackers@.len() - i,
    {
        match poll.metric_trackers[i].metric {
            Metric::SpecificResponses { question_index, .. } => {
                if !(question_index < n_questions) {
                    return false;
                }
            },
        }
        i += 1;
    }
    let mut r: usize = 0;
    while r < poll.results.len()
        invariant
            0 <= r <= poll.results@.len(),
            n_metrics == poll.metric_trackers@.len(),
            forall|k: int|
                0 <= k < poll.metric_trackers@.len() ==> metric_question_in_range(
                    (#[trigger] poll.metric_trackers@[k]).metric,
                    poll.deep_view().questions,
                ),
            forall|k: int, j: int|
                0 <= k < r && 0 <= j < poll.deep_view().results[k].requirements.len()
                    ==> requirement_in_range(
                    #[trigger] poll.deep_view().results[k].requirements[j],
                    poll.metric_trackers@.len() as int,
                ),
        decreases poll.results@.len() - r,
    {
        let reqs = &poll.results[r].requirements;
        let mut j: usize = 0;
        while j < reqs.len()
            invariant
                0 <= j <= reqs@.len(),
                n_metrics == poll.metric_trackers@.len(),
                reqs@ == poll.deep_view().results[r as int].requirements,
                0 <= r < poll.deep_view().results.len(),
                forall|k: int|
                    0 <= k < j ==> requirement_in_range(
                        #[trigger] reqs@[k],
                        poll.metric_trackers@.len() as int,
                    ),
            decreases reqs@.len() - j,
        {
            match reqs[j] {
                Requirement::AtLeast { metric_index, .. } => {
                    if !((metric_index as usize) < n_metrics) {
                        return false;
                    }
                },
            }
            j += 1;
        }
        r += 1;
    }
    true
}

// ---------------------------------------------------------------------------
// Initial answers
// ---------------------------------------------------------------------------

/// The initial ranking for a ranked-choice question over `n` options: the
/// positions in order, wrapped into the eight bits a [`Choice::Index`]
/// carries.
pub open spec fn ranking_seq(n: nat) -> Seq<Choice> {
    Seq::new(n, |i: int| Choice::Index((i % 256) as u8))
}

/// The "empty" answer a fresh respondent starts from, per form.
pub open spec fn init_response_for(f: FormView) -> FormResponseView {
    match f {
        FormView::OneOrNone { .. } => FormResponseView::ChooseOneOrNone(Option::None),
        FormView::YesNoNone => FormResponseView::ChooseOneOrNone(Option::None),
        FormView::One { .. } => FormResponseView::ChooseOne(Choice::Index(0)),
        FormView::YesNo => FormResponseView::ChooseOne(Choice::YesOrNo(false)),
        FormView::Multiple { .. } => FormResponseView::ChooseMultiple(Seq::empty()),
        FormView::RankedChoice { options } => FormResponseView::RankedChoice(
            ranking_seq(options.len()),
        ),
    }
}

/// On a well-formed form the initial answer is valid for it.
pub proof fn lemma_init_response_valid(f: FormView)
    requires
        form_wf(f),
    ensures
        response_valid_for(f, init_response_for(f)),
{
    match f {
        FormView::RankedChoice { options } => {
            assert forall|j: int| 0 <= j < ranking_seq(options.len()).len() implies
                choice_is_index_below(ranking_seq(options.len())[j], options.len() as int) by {
                assert(ranking_seq(options.len())[j] == Choice::Index((j % 256) as u8));
                assert(0 <= j % 256 <= j);
            };
        },
        _ => {},
    }
}

/// Builds the initial identity ranking over `n` options.
pub fn identity_ranking(n: usize) -> (r: Vec<Choice>)
    ensures
        r@ == ranking_seq(n as nat),
{
    let mut r: Vec<Choice> = Vec::new();
    let mut j: usize = 0;
    let mut b: u8 = 0;
    while j < n
        invariant
            0 <= j <= n,
            r@.len() == j,
            b as int == (j as int) % 256,
            forall|k: int| 0 <= k < j ==> #[trigger] r@[k] == Choice::Index((k % 256) as u8),
        decreases n - j,
    {
        r.push(Choice::Index(b));
        b = if b == 255 {
            0
        } else {
            b + 1
        };
        j += 1;
    }
    proof {
        assert(r@ =~= ranking_seq(n as nat));
    }
    r
}

/// Builds the "empty" answer for one form, deciding [`init_response_for`].
pub fn init_response(form: &Form) -> (r: FormResponse)
    ensures
        r@ == init_response_for(form@),
{
    proof {
        match form {
            Form::OneOrNone { options } => assert(form@ matches FormView::OneOrNone {
                options: o,
            } && o == options.deep_view()),
            Form::One { options } => assert(form@ matches FormView::One { options: o } && o
                == options.deep_view()),
            Form::Multiple { options } => assert(form@ matches FormView::Multiple { options: o }
                && o == options.deep_view()),
            Form::RankedChoice { options } => assert(form@ matches FormView::RankedChoice {
                options: o,
            } && o == options.deep_view()),
            Form::YesNoNone => assert(form@ is YesNoNone),
            Form::YesNo => assert(form@ is YesNo),
        }
    }
    match form {
        Form::OneOrNone { .. } => FormResponse::ChooseOneOrNone(Option::None),
        Form::YesNoNone => FormResponse::ChooseOneOrNone(Option::None),
        Form::One { .. } => FormResponse::ChooseOne(Choice::Index(0)),
        Form::YesNo => FormResponse::ChooseOne(Choice::YesOrNo(false)),
        Form::Multiple { .. } => FormResponse::ChooseMultiple(Vec::new()),
        Form::RankedChoice { options } => FormResponse::RankedChoice(
            identity_ranking(options.len()),
        ),
    }
}

impl Poll {
    /// Produces the correctly shaped "empty" answer vector for this poll:
    /// nothing chosen for the optional forms, the first option for `One`,
    /// "no" for `YesNo`, no selections for `Multiple`, and the identity
    /// ranking for `RankedChoice`. On a poll whose forms are well formed
    /// the produced vector is valid for the poll's questions.
    pub fn init_responses(&self) -> (r: Vec<FormResponse>)
        ensures
            r.deep_view().len() == self@.questions.len(),
            forall|i: int|
                0 <= i < self@.questions.len() ==> #[trigger] r.deep_view()[i]
                    == init_response_for(self@.questions[i].form),
            poll_forms_wf(self@) ==> responses_valid(self@.questions, r.deep_view()),
    {
        let mut r: Vec<FormResponse> = Vec::new();
        let mut i: usize = 0;
        while i < self.questions.len()
            invariant
                0 <= i <= self.questions@.len(),
                r@.len() == i,
                forall|k: int|
                    0 <= k < i ==> #[trigger] r.deep_view()[k] == init_response_for(
                        self@.questions[k].form,
                    ),
            decreases self.questions@.len() - i,
        {
            proof {
                assert(self@.questions[i as int] == self.questions@[i as int]@);
            }
            let resp = init_response(&self.questions[i].form);
            let ghost r0 = r.deep_view();
            r.push(resp);
            proof {
                assert(r.deep_view() =~= r0.push(resp@));
            }
            i += 1;
        }
        proof {
            if poll_forms_wf(self@) {
                assert forall|k: int| 0 <= k < self@.questions.len() implies response_valid_for(
                    self@.questions[k].form,
                    #[trigger] r.deep_view()[k],
                ) by {
                    lemma_init_response_valid(self@.questions[k].form);
                };
            }
        }
        r
    }
}

// ---------------------------------------------------------------------------
// Default tracker
// ---------------------------------------------------------------------------

/// The choice a fresh tracker counts on a given form: the first option, or
/// "yes" for the yes/no forms.
pub open spec fn default_choice_for(f: FormView) -> Choice {
    match f {
        FormView::YesNoNone => Choice::YesOrNo(true),
        FormView::YesNo => Choice::YesOrNo(true),
        _ => Choice::Index(0),
    }
}

/// The tracker a poll starts from: none when there are no questions, else a
/// hidden count of the default choice on the first question.
pub open spec fn init_tracker(qs: Seq<QuestionView>) -> Option<MetricTracker> {
    if qs.len() == 0 {
        Option::None
    } else {
        Option::Some(
            MetricTracker {
                publicly_visible: false,
                metric: Metric::SpecificResponses {
                    question_index: 0,
                    choice: default_choice_for(qs[0].form),
                },
            },
        )
    }
}

/// Picks the default choice for one form, deciding [`default_choice_for`].
pub fn default_choice(form: &Form) -> (r: Choice)
    ensures
        r == default_choice_for(form@),
{
    proof {
        match form {
            Form::OneOrNone { .. } => assert(form@ is OneOrNone),
            Form::One { .. } => assert(form@ is One),
            Form::Multiple { .. } => assert(form@ is Multiple),
            Form::RankedChoice { .. } => assert(form@ is RankedChoice),
            Form::YesNoNone => assert(form@ is YesNoNone),
            Form::YesNo => assert(form@ is YesNo),
        }
    }
    match form {
        Form::YesNoNone => Choice::YesOrNo(true),
        Form::YesNo => Choice::YesOrNo(true),
        _ => Choice::Index(0),
    }
}

impl MetricTracker {
    /// The tracker a freshly drafted poll starts from, derived from its
    /// first question.
    pub fn init_from_questions(questions: &[Question]) -> (r: Option<MetricTracker>)
        ensures
            r == init_tracker(questions.deep_view()),
    {
        if questions.len() == 0 {
            return Option::None;
        }
        proof {
            assert(questions.deep_view()[0] == questions@[0]@);
        }
        let choice = default_choice(&questions[0].form);
        Option::Some(
            MetricTracker {
                publicly_visible: false,
                metric: Metric::SpecificResponses { question_index: 0, choice },
            },
        )
    }
}

// ---------------------------------------------------------------------------
// Rendering
// ---------------------------------------------------------------------------

/// The text standing for one choice on one form: the chosen option, or
/// "Yes"/"No" on the yes/no forms. Empty on a shape mismatch, which
/// [`metric_wf`] rules out.
pub open spec fn chosen_label(f: FormView, c: Choice) -> Seq<char> {
    match (f, c) {
        (FormView::OneOrNone { options }, Choice::Index(i)) => options[i as int],
        (FormView::One { options }, Choice::Index(i)) => options[i as int],
        (FormView::Multiple { options }, Choice::Index(i)) => options[i as int],
        (FormView::RankedChoice { options }, Choice::Index(i)) => options[i as int],
        (FormView::YesNoNone, Choice::YesOrNo(b)) => if b {
            "Yes"@
        } else {
            "No"@
        },
        (FormView::YesNo, Choice::YesOrNo(b)) => if b {
            "Yes"@
        } else {
            "No"@
        },
        _ => Seq::empty(),
    }
}

/// What [`Metric::render`] produces: the chosen answer's text, " to ", and
/// the question's prompt.
pub open spec fn render_spec(m: Metric, qs: Seq<QuestionView>) -> Seq<char> {
    match m {
        Metric::SpecificResponses { question_index, choice } => chosen_label(
            qs[question_index as int].form,
            choice,
        ) + " to "@ + qs[question_index as int].prompt,
    }
}

impl Metric {
    /// Renders the metric as text against the questions it refers to.
    pub fn render(&self, questions: &[Question]) -> (r: String)
        requires
            metric_wf(*self, questions.deep_view()),
        ensures
            r@ == render_spec(*self, questions.deep_view()),
    {
        match self {
            Metric::SpecificResponses { question_index, choice } => {
                let q = &questions[*question_index];
                proof {
                    assert(questions.deep_view()[*question_index as int]
                        == questions@[*question_index as int]@);
                }
                let mut s = String::new();
                match (&q.form, choice) {
                    (Form::OneOrNone { options }, Choice::Index(ix)) => {
                        proof {
                            assert(q@.form matches FormView::OneOrNone { options: o } && o
                                == options.deep_view());
                            assert(options.deep_view()[*ix as int] == options@[*ix as int]@);
                        }
                        s.append(options[*ix as usize].as_str());
                    },
                    (Form::One { options }, Choice::Index(ix)) => {
                        proof {
                            assert(q@.form matches FormView::One { options: o } && o
                                == options.deep_view());
                            assert(options.deep_view()[*ix as int] == options@[*ix as int]@);
                        }
                        s.append(options[*ix as usize].as_str());
                    },
                    (Form::Multiple { options }, Choice::Index(ix)) => {
                        proof {
                            assert(q@.form matches FormView::Multiple { options: o } && o
                                == options.deep_view());
                            assert(options.deep_view()[*ix as int] == options@[*ix as int]@);
                        }
                        s.append(options[*ix as usize].as_str());
                    },
                    (Form::RankedChoice { options }, Choice::Index(ix)) => {
                        proof {
                            assert(q@.form matches FormView::RankedChoice { options: o } && o
                                == options.deep_view());
                            assert(options.deep_view()[*ix as int] == options@[*ix as int]@);
                        }
                        s.append(options[*ix as usize].as_str());
                    },
                    (Form::YesNoNone, Choice::YesOrNo(b)) => {
                        s.append(
                            if *b {
                                "Yes"
                            } else {
                                "No"
                            },
                        );
                    },
                    (Form::YesNo, Choice::YesOrNo(b)) => {
                        s.append(
                            if *b {
                                "Yes"
                            } else {
                                "No"
                            },
                        );
                    },
                    _ => {
                        proof {
                            match &q.form {
                                Form::OneOrNone { options } => assert(q@.form
                                    matches FormView::OneOrNone { options: o } && o
                                    == options.deep_view()),
                                Form::One { options } => assert(q@.form matches FormView::One {
                                    options: o,
                                } && o == options.deep_view()),
                                Form::Multiple { options } => assert(q@.form
                                    matches FormView::Multiple { options: o } && o
                                    == options.deep_view()),
                                Form::RankedChoice { options } => assert(q@.form
                                    matches FormView::RankedChoice { options: o } && o
                                    == options.deep_view()),
                                Form::YesNoNone => assert(q@.form is YesNoNone),
                                Form::YesNo => assert(q@.form is YesNo),
                            }
                            assert(false);
                        }
                    },
                }
                s.append(" to ");
                s.append(q.prompt.as_str());
                proof {
                    assert(s@ =~= render_spec(*self, questions.deep_view()));
                }
                s
            },
        }
    }
}

/// The fixed text naming each form kind.
pub open spec fn form_label(f: FormView) -> Seq<char> {
    match f {
        FormView::OneOrNone { .. } => "Pick 1/None"@,
        FormView::One { .. } => "Pick 1"@,
        FormView::Multiple { .. } => "Pick Multiple"@,
        FormView::RankedChoice { .. } => "Ranked Choice"@,
        FormView::YesNoNone => "Yes/No/None"@,
        FormView::YesNo => "Yes/No"@,
    }
}

impl Form {
    /// The short text naming this form's kind.
    pub fn label(&self) -> (r: String)
        ensures
            r@ == form_label(self@),
    {
        proof {
            match self {
                Form::OneOrNone { .. } => assert(self@ is OneOrNone),
                Form::One { .. } => assert(self@ is One),
                Form::Multiple { .. } => assert(self@ is Multiple),
                Form::RankedChoice { .. } => assert(self@ is RankedChoice),
                Form::YesNoNone => assert(self@ is YesNoNone),
                Form::YesNo => assert(self@ is YesNo),
            }
        }
        match self {
            Form::OneOrNone { .. } => String::from_str("Pick 1/None"),
            Form::One { .. } => String::from_str("Pick 1"),
            Form::Multiple { .. } => String::from_str("Pick Multiple"),
            Form::RankedChoice { .. } => String::from_str("Ranked Choice"),
            Form::YesNoNone => String::from_str("Yes/No/None"),
            Form::YesNo => String::from_str("Yes/No"),
        }
    }
}

} // verus!
