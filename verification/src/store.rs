//! The authoritative, process-wide table of polls: per-poll response maps
//! and the derived progress and result state kept consistent with the
//! answers that produced them.
//!
//! The store is plain data passed by reference; the unverified shell wraps
//! it in its one lock and persists the snapshot produced by the codec after
//! every mutation, while still holding the lock. Persistence is deliberately
//! best-effort: a failed disk write leaves the committed in-memory state in
//! place and is reported as a warning, and memory and disk may diverge until
//! the next successful write. Within the store itself every mutation is
//! all-or-nothing: derived state is recomputed into fresh vectors and
//! committed only once nothing can fail.

use vstd::prelude::*;
use crate::PollError;
use crate::schema::FormResponse;
use crate::schema::FormResponseView;
use crate::schema::Metric;
use crate::schema::Poll;
use crate::schema::PollProgress;
use crate::schema::PollProgressView;
use crate::schema::PollView;
use crate::schema::Progress;
use crate::schema::ResultState;
use crate::schema::ResultStateView;
use crate::schema::clone_result_states;
use crate::schema::poll_computable;
use crate::schema::responses_valid;
use crate::schema::validate_responses;
use crate::schema::check_poll_computable;
use crate::schema::metric_question_in_range;
use crate::engine::ResponseTableView;
use crate::engine::count_matching;
use crate::engine::metric_computable;
use crate::engine::requirements_in_range;
use crate::engine::result_state_of;
use crate::schema::Choice;
use crate::schema::CreatePollResult;
use crate::schema::Form;
use crate::schema::MetricTracker;
use crate::schema::PollQuery;
use crate::schema::PollQueryResult;
use crate::schema::PollResponse;
use crate::schema::PollResult;
use crate::schema::PollStatus;
use crate::schema::PollSubmissionResult;
use crate::schema::ProgressReportResult;
use crate::schema::Question;
use crate::schema::Requirement;
use crate::schema::poll_forms_wf;

verus! {

broadcast use vstd::set::group_set_axioms;

// ---------------------------------------------------------------------------
// Poll data: one poll plus everything derived from its answers
// ---------------------------------------------------------------------------

/// One poll with its collected answers and the state derived from them.
#[derive(Debug, PartialEq)]
pub struct PollData {
    pub poll: Poll,
    pub responses: Vec<(String, Vec<FormResponse>)>,
    pub progresses: Vec<Progress>,
    pub result_states: Vec<ResultState>,
}

/// Ghost model of [`PollData`].
#[verifier::ext_equal]
pub struct PollDataView {
    pub poll: PollView,
    pub responses: ResponseTableView,
    pub progresses: Seq<Progress>,
    pub result_states: Seq<ResultStateView>,
}

impl View for PollData {
    type V = PollDataView;

    open spec fn view(&self) -> PollDataView {
        PollDataView {
            poll: self.poll@,
            responses: self.responses.deep_view(),
            progresses: self.progresses@,
            result_states: self.result_states.deep_view(),
        }
    }
}

impl DeepView for PollData {
    type V = PollDataView;

    open spec fn deep_view(&self) -> PollDataView {
        self.view()
    }
}

/// No two entries of a response table belong to the same respondent.
pub open spec fn users_unique(t: ResponseTableView) -> bool {
    forall|i: int, j: int| 0 <= i < j < t.len() ==> (#[trigger] t[i]).0 != (#[trigger] t[j]).0
}

/// Internal consistency of one poll's data: respondents are unique, every
/// stored answer vector is valid for the poll's questions (one answer per
/// question, matching variants, indices in range, rankings non-empty), and
/// the derived vectors have one slot per tracker and per declared result,
/// each stored result state with one flag per requirement.
pub open spec fn data_wf(d: PollDataView) -> bool {
    &&& users_unique(d.responses)
    &&& forall|i: int|
        0 <= i < d.responses.len() ==> responses_valid(
            d.poll.questions,
            (#[trigger] d.responses[i]).1,
        )
    &&& d.progresses.len() == d.poll.metric_trackers.len()
    &&& d.result_states.len() == d.poll.results.len()
    &&& forall|i: int|
        0 <= i < d.result_states.len() ==> (#[trigger] d.result_states[i]).requirements_met.len()
            == d.poll.results[i].requirements.len()
}

// ---------------------------------------------------------------------------
// The store
// ---------------------------------------------------------------------------

/// Ghost model of [`PollStore`]: the keyed entries in insertion order.
pub type StoreView = Seq<(u64, PollDataView)>;

/// The table of all polls, keyed by the number the creation handed out.
#[derive(Debug, PartialEq)]
pub struct PollStore {
    entries: Vec<(u64, PollData)>,
}

impl View for PollStore {
    type V = StoreView;

    closed spec fn view(&self) -> StoreView {
        self.entries.deep_view()
    }
}

impl DeepView for PollStore {
    type V = StoreView;

    open spec fn deep_view(&self) -> StoreView {
        self.view()
    }
}

/// Some entry carries this key.
pub open spec fn has_key(s: StoreView, key: u64) -> bool {
    exists|i: int| 0 <= i < s.len() && (#[trigger] s[i]).0 == key
}

/// No two entries share a key.
pub open spec fn keys_unique(s: StoreView) -> bool {
    forall|i: int, j: int| 0 <= i < j < s.len() ==> (#[trigger] s[i]).0 != (#[trigger] s[j]).0
}

/// The index carrying `key`; the index is unique when [`keys_unique`]
/// holds and meaningful when [`has_key`] does.
pub open spec fn index_of_key(s: StoreView, key: u64) -> int {
    choose|i: int| 0 <= i < s.len() && (#[trigger] s[i]).0 == key
}

/// Under unique keys, any index carrying `key` is the index of `key`.
pub proof fn lemma_index_of_key_unique(s: StoreView, key: u64, i: int)
    requires
        keys_unique(s),
        0 <= i < s.len(),
        s[i].0 == key,
    ensures
        index_of_key(s, key) == i,
        has_key(s, key),
{
    assert(has_key(s, key));
    let j = index_of_key(s, key);
    assert(0 <= j < s.len() && s[j].0 == key);
    if i < j {
        assert(s[i].0 != s[j].0);
    } else if j < i {
        assert(s[j].0 != s[i].0);
    }
}

/// Whole-store consistency: unique keys and each poll's data internally
/// consistent.
pub open spec fn store_wf(s: StoreView) -> bool {
    &&& keys_unique(s)
    &&& forall|i: int| 0 <= i < s.len() ==> data_wf((#[trigger] s[i]).1)
}

impl PollStore {
    /// Whole-store consistency; every constructor establishes it and every
    /// operation preserves it.
    pub open spec fn wf(&self) -> bool {
        store_wf(self@)
    }

    /// An empty store.
    pub fn new() -> (r: PollStore)
        ensures
            r.wf(),
            r@ == Seq::<(u64, PollDataView)>::empty(),
    {
        let r = PollStore { entries: Vec::new() };
        proof {
            assert(r@ =~= Seq::<(u64, PollDataView)>::empty());
        }
        r
    }

    /// How many polls the store holds.
    pub fn len(&self) -> (r: usize)
        ensures
            r == self@.len(),
    {
        self.entries.len()
    }

    /// Finds the position of `key`, deciding [`has_key`].
    fn find_key(&self, key: u64) -> (r: Option<usize>)
        ensures
            match r {
                Option::Some(i) => 0 <= i < self@.len() && self@[i as int].0 == key,
                Option::None => !has_key(self@, key),
            },
    {
        let mut i: usize = 0;
        while i < self.entries.len()
            invariant
                0 <= i <= self.entries@.len(),
                forall|k: int| 0 <= k < i ==> (#[trigger] self@[k]).0 != key,
            decreases self.entries@.len() - i,
        {
            proof {
                assert(self@[i as int].0 == self.entries@[i as int].0);
            }
            if self.entries[i].0 == key {
                return Option::Some(i);
            }
            i += 1;
        }
        Option::None
    }

    /// Whether a poll with this key exists.
    pub fn contains_key(&self, key: u64) -> (r: bool)
        ensures
            r == has_key(self@, key),
    {
        match self.find_key(key) {
            Option::Some(_) => true,
            Option::None => false,
        }
    }

    /// Read-only projection of one stored poll. Returns the poll exactly
    /// when the key exists.
    pub fn get_poll(&self, key: u64) -> (r: Option<Poll>)
        requires
            self.wf(),
        ensures
            match r {
                Option::Some(p) => has_key(self@, key) && p@ == self@[index_of_key(
                    self@,
                    key,
                )].1.poll,
                Option::None => !has_key(self@, key),
            },
    {
        match self.find_key(key) {
            Option::Some(i) => {
                proof {
                    lemma_index_of_key_unique(self@, key, i as int);
                    assert(self@[i as int].1 == self.entries@[i as int].1@);
                }
                Option::Some(self.entries[i].1.poll.clone())
            },
            Option::None => Option::None,
        }
    }
}

// ---------------------------------------------------------------------------
// Progress projection
// ---------------------------------------------------------------------------

/// The read-only projection of one poll's derived state: each tracker's
/// count where it is publicly visible, `None` where it is not, and every
/// result's state.
pub open spec fn progress_projection(d: PollDataView) -> PollProgressView {
    PollProgressView {
        metric_progresses: Seq::new(
            d.poll.metric_trackers.len(),
            |i: int|
                if d.poll.metric_trackers[i].publicly_visible {
                    Option::Some(d.progresses[i])
                } else {
                    Option::None
                },
        ),
        result_states: d.result_states,
    }
}

impl PollStore {
    /// The latest derived state for one poll, with non-public metrics
    /// redacted. Performs no recomputation: it returns the snapshot the
    /// most recent mutation produced. Fails exactly on an absent key.
    pub fn get_progress(&self, key: u64) -> (r: Result<PollProgress, PollError>)
        requires
            self.wf(),
        ensures
            match r {
                Result::Ok(pp) => has_key(self@, key) && pp@ == progress_projection(
                    self@[index_of_key(self@, key)].1,
                ),
                Result::Err(e) => !has_key(self@, key) && e == PollError::NotFound,
            },
    {
        let i = match self.find_key(key) {
            Option::Some(i) => i,
            Option::None => {
                return Result::Err(PollError::NotFound);
            },
        };
        proof {
            lemma_index_of_key_unique(self@, key, i as int);
            assert(self@[i as int].1 == self.entries@[i as int].1@);
            assert(data_wf(self@[i as int].1));
        }
        let pd = &self.entries[i].1;
        let mut metric_progresses: Vec<Option<Progress>> = Vec::new();
        let mut j: usize = 0;
        while j < pd.poll.metric_trackers.len()
            invariant
                0 <= j <= pd.poll.metric_trackers@.len(),
                pd.progresses@.len() == pd.poll.metric_trackers@.len(),
                metric_progresses@.len() == j,
                forall|k: int|
                    0 <= k < j ==> #[trigger] metric_progresses@[k] == (if pd@.poll.metric_trackers[k].publicly_visible {
                        Option::Some(pd@.progresses[k])
                    } else {
                        Option::<Progress>::None
                    }),
            decreases pd.poll.metric_trackers@.len() - j,
        {
            if pd.poll.metric_trackers[j].publicly_visible {
                metric_progresses.push(Option::Some(pd.progresses[j]));
            } else {
                metric_progresses.push(Option::None);
            }
            j += 1;
        }
        let result_states = clone_result_states(&pd.result_states);
        let pp = PollProgress { metric_progresses, result_states };
        proof {
            assert(pp@.metric_progresses =~= progress_projection(self@[index_of_key(
                self@,
                key,
            )].1).metric_progresses);
            assert(pp@ == progress_projection(self@[index_of_key(self@, key)].1));
        }
        Result::Ok(pp)
    }
}

// ---------------------------------------------------------------------------
// Full recomputation of derived state
// ---------------------------------------------------------------------------

/// The question index a metric reads.
pub open spec fn metric_qi(m: Metric) -> int {
    match m {
        Metric::SpecificResponses { question_index, .. } => question_index as int,
    }
}

/// The choice a metric counts.
pub open spec fn metric_choice(m: Metric) -> Choice {
    match m {
        Metric::SpecificResponses { choice, .. } => choice,
    }
}

/// Every tracker of the poll can be counted over the table: each answer
/// vector is long enough at each tracker's question index.
pub open spec fn trackers_computable(p: PollView, t: ResponseTableView) -> bool {
    forall|i: int|
        0 <= i < p.metric_trackers.len() ==> metric_computable(
            metric_qi((#[trigger] p.metric_trackers[i]).metric),
            t,
        )
}

/// Every requirement of every declared result addresses an existing
/// tracker.
pub open spec fn results_in_range(p: PollView) -> bool {
    forall|i: int|
        0 <= i < p.results.len() ==> requirements_in_range(
            (#[trigger] p.results[i]).requirements,
            p.metric_trackers.len() as int,
        )
}

/// A full recomputation of the poll's derived state succeeds.
pub open spec fn recompute_ok(p: PollView, t: ResponseTableView) -> bool {
    trackers_computable(p, t) && results_in_range(p)
}

/// The progress vector a full recomputation produces: one count per
/// tracker.
pub open spec fn progresses_of(p: PollView, t: ResponseTableView) -> Seq<Progress> {
    Seq::new(
        p.metric_trackers.len(),
        |i: int|
            Progress::Count(
                count_matching(
                    t,
                    metric_qi(p.metric_trackers[i].metric),
                    metric_choice(p.metric_trackers[i].metric),
                ) as u64,
            ),
    )
}

/// The result states a full recomputation produces: each result evaluated
/// against the freshly recomputed progresses.
pub open spec fn result_states_of(p: PollView, t: ResponseTableView) -> Seq<ResultStateView> {
    Seq::new(
        p.results.len(),
        |i: int| result_state_of(p.results[i].requirements, progresses_of(p, t)),
    )
}

/// Counts every tracker of the poll over the table. Succeeds exactly when
/// every tracker is countable; nothing is produced otherwise.
pub fn compute_progresses(poll: &Poll, responses: &Vec<(String, Vec<FormResponse>)>) -> (r: Result<
    Vec<Progress>,
    PollError,
>)
    ensures
        trackers_computable(poll@, responses.deep_view()) ==> (r matches Ok(v) && v@
            == progresses_of(poll@, responses.deep_view())),
        !trackers_computable(poll@, responses.deep_view()) ==> r == Err::<Vec<Progress>, PollError>(
            PollError::ValidationError,
        ),
{
    let ghost t = responses.deep_view();
    let mut v: Vec<Progress> = Vec::new();
    let mut i: usize = 0;
    while i < poll.metric_trackers.len()
        invariant
            0 <= i <= poll.metric_trackers@.len(),
            v@.len() == i,
            forall|k: int|
                0 <= k < i ==> metric_computable(
                    metric_qi((#[trigger] poll@.metric_trackers[k]).metric),
                    t,
                ),
            forall|k: int| 0 <= k < i ==> #[trigger] v@[k] == progresses_of(poll@, t)[k],
        decreases poll.metric_trackers@.len() - i,
    {
        let m: Metric = poll.metric_trackers[i].metric;
        match m.calculate_progress(responses) {
            Result::Ok(p) => {
                v.push(p);
            },
            Result::Err(_) => {
                proof {
                    assert(!metric_computable(metric_qi(poll@.metric_trackers[i as int].metric), t));
                }
                return Result::Err(PollError::ValidationError);
            },
        }
        i += 1;
    }
    proof {
        assert(v@ =~= progresses_of(poll@, t));
    }
    Result::Ok(v)
}

/// Evaluates every declared result of the poll against a progress vector.
/// Succeeds exactly when every requirement addresses an existing slot.
pub fn compute_result_states(poll: &Poll, progresses: &Vec<Progress>) -> (r: Result<
    Vec<ResultState>,
    PollError,
>)
    ensures
        (forall|i: int|
            0 <= i < poll@.results.len() ==> requirements_in_range(
                (#[trigger] poll@.results[i]).requirements,
                progresses@.len() as int,
            )) ==> (r matches Ok(v) && v.deep_view() == Seq::new(
            poll@.results.len(),
            |i: int| result_state_of(poll@.results[i].requirements, progresses@),
        )),
        !(forall|i: int|
            0 <= i < poll@.results.len() ==> requirements_in_range(
                (#[trigger] poll@.results[i]).requirements,
                progresses@.len() as int,
            )) ==> r == Err::<Vec<ResultState>, PollError>(PollError::ValidationError),
{
    let mut v: Vec<ResultState> = Vec::new();
    let mut i: usize = 0;
    while i < poll.results.len()
        invariant
            0 <= i <= poll.results@.len(),
            v@.len() == i,
            forall|k: int|
                0 <= k < i ==> requirements_in_range(
                    (#[trigger] poll@.results[k]).requirements,
                    progresses@.len() as int,
                ),
            forall|k: int|
                0 <= k < i ==> #[trigger] v.deep_view()[k] == result_state_of(
                    poll@.results[k].requirements,
                    progresses@,
                ),
        decreases poll.results@.len() - i,
    {
        proof {
            assert(poll@.results[i as int] == poll.results@[i as int]@);
        }
        match poll.results[i].compute_state(progresses.as_slice()) {
            Result::Ok(st) => {
                let ghost v0 = v.deep_view();
                v.push(st);
                proof {
                    assert(v.deep_view() =~= v0.push(st@));
                }
            },
            Result::Err(_) => {
                proof {
                    assert(!requirements_in_range(
                        poll@.results[i as int].requirements,
                        progresses@.len() as int,
                    ));
                }
                return Result::Err(PollError::ValidationError);
            },
        }
        i += 1;
    }
    proof {
        assert(v.deep_view() =~= Seq::new(
            poll@.results.len(),
            |i: int| result_state_of(poll@.results[i].requirements, progresses@),
        ));
    }
    Result::Ok(v)
}

impl PollData {
    /// Recomputes the whole derived state from the current answers,
    /// wholesale, committing only on success: on a validation failure the
    /// data is left exactly as it was.
    pub fn update_results(&mut self) -> (r: Result<(), PollError>)
        requires
            data_wf(old(self)@),
        ensures
            data_wf(final(self)@),
            final(self)@.poll == old(self)@.poll,
            final(self)@.responses == old(self)@.responses,
            recompute_ok(old(self)@.poll, old(self)@.responses) ==> (r matches Ok(u)
                && final(self)@.progresses == progresses_of(old(self)@.poll, old(self)@.responses)
                && final(self)@.result_states == result_states_of(
                old(self)@.poll,
                old(self)@.responses,
            )),
            !recompute_ok(old(self)@.poll, old(self)@.responses) ==> (r == Err::<(), PollError>(
                PollError::ValidationError,
            ) && final(self)@ == old(self)@),
    {
        let progresses = match compute_progresses(&self.poll, &self.responses) {
            Result::Ok(p) => p,
            Result::Err(_) => {
                return Result::Err(PollError::ValidationError);
            },
        };
        let result_states = match compute_result_states(&self.poll, &progresses) {
            Result::Ok(s) => s,
            Result::Err(_) => {
                proof {
                    assert(!results_in_range(self@.poll));
                }
                return Result::Err(PollError::ValidationError);
            },
        };
        self.progresses = progresses;
        self.result_states = result_states;
        proof {
            assert(final(self)@.result_states == result_states_of(
                old(self)@.poll,
                old(self)@.responses,
            ));
        }
        Result::Ok(())
    }
}

// ---------------------------------------------------------------------------
// Key allocation
// ---------------------------------------------------------------------------

/// The set of keys present in the store.
pub open spec fn key_set(s: StoreView) -> Set<u64> {
    Set::new(|k: u64| has_key(s, k))
}

/// The key set is finite and no larger than the entry count.
pub proof fn lemma_key_set_bound(s: StoreView)
    ensures
        key_set(s).finite(),
        key_set(s).len() <= s.len(),
    decreases s.len(),
{
    if s.len() == 0 {
        assert(key_set(s) =~= Set::<u64>::empty());
    } else {
        let s0 = s.drop_last();
        lemma_key_set_bound(s0);
        assert forall|k: u64| #[trigger]
            key_set(s).contains(k) implies key_set(s0).insert(s.last().0).contains(k) by {
            let i = choose|i: int| 0 <= i < s.len() && s[i].0 == k;
            if i < s.len() - 1 {
                assert(s0[i] == s[i]);
                assert(has_key(s0, k));
            }
        };
        assert forall|k: u64|
            key_set(s0).insert(s.last().0).contains(k) implies #[trigger] key_set(s).contains(
            k,
        ) by {
            if has_key(s0, k) {
                let i = choose|i: int| 0 <= i < s0.len() && s0[i].0 == k;
                assert(s[i] == s0[i]);
                assert(has_key(s, k));
            } else {
                assert(s[s.len() - 1].0 == k);
            }
        };
        assert(key_set(s) =~= key_set(s0).insert(s.last().0));
    }
}

/// The keys from 1 through `m`.
pub open spec fn range_key_set(m: u64) -> Set<u64> {
    Set::new(|k: u64| 1 <= k <= m)
}

/// That range is finite and holds exactly `m` keys.
pub proof fn lemma_range_key_set_len(m: u64)
    ensures
        range_key_set(m).finite(),
        range_key_set(m).len() == m,
    decreases m,
{
    if m == 0 {
        assert(range_key_set(0) =~= Set::<u64>::empty());
    } else {
        lemma_range_key_set_len((m - 1) as u64);
        assert(range_key_set(m) =~= range_key_set((m - 1) as u64).insert(m));
        assert(!range_key_set((m - 1) as u64).contains(m));
    }
}

impl PollStore {
    /// The smallest positive key that no stored poll carries, found by a
    /// linear scan from one upward.
    pub fn get_unused_key(&self) -> (key: u64)
        requires
            self@.len() < u64::MAX,
        ensures
            key >= 1,
            !has_key(self@, key),
            forall|k: u64| 1 <= k < key ==> has_key(self@, k),
    {
        let mut key: u64 = 1;
        loop
            invariant
                1 <= key <= self@.len() + 1,
                self@.len() < u64::MAX,
                forall|k: u64| 1 <= k < key ==> has_key(self@, k),
            decreases self@.len() + 2 - key,
        {
            if !self.contains_key(key) {
                return key;
            }
            proof {
                lemma_key_set_bound(self@);
                lemma_range_key_set_len(key);
                assert(range_key_set(key).subset_of(key_set(self@)));
                vstd::set_lib::lemma_len_subset(range_key_set(key), key_set(self@));
                assert(key <= self@.len());
            }
            key = key + 1;
        }
    }
}

// ---------------------------------------------------------------------------
// Creating a poll
// ---------------------------------------------------------------------------

/// The zeroed result states a poll starts from: every requirement unmet,
/// nothing overall.
pub open spec fn zeroed_result_states(p: PollView) -> Seq<ResultStateView> {
    Seq::new(
        p.results.len(),
        |i: int|
            ResultStateView {
                requirements_met: Seq::new(p.results[i].requirements.len(), |j: int| false),
                overall_met: false,
            },
    )
}

/// The data a freshly created poll starts from: no answers, a zero count
/// per tracker, and zeroed result states.
pub open spec fn fresh_poll_data(p: PollView) -> PollDataView {
    PollDataView {
        poll: p,
        responses: Seq::empty(),
        progresses: Seq::new(p.metric_trackers.len(), |i: int| Progress::Count(0)),
        result_states: zeroed_result_states(p),
    }
}

impl PollStore {
    /// Allocates the smallest unused positive key, stores the poll under it
    /// with zeroed derived state, and returns the key. Never fails; the
    /// caller persists the snapshot.
    pub fn create_poll(&mut self, poll: Poll) -> (key: u64)
        requires
            old(self).wf(),
            old(self)@.len() < u64::MAX,
        ensures
            final(self).wf(),
            key >= 1,
            !has_key(old(self)@, key),
            forall|k: u64| 1 <= k < key ==> has_key(old(self)@, k),
            final(self)@ == old(self)@.push((key, fresh_poll_data(poll@))),
            has_key(final(self)@, key),
    {
        let ghost pv = poll@;
        let key = self.get_unused_key();
        let mut progresses: Vec<Progress> = Vec::new();
        let mut i: usize = 0;
        while i < poll.metric_trackers.len()
            invariant
                0 <= i <= poll.metric_trackers@.len(),
                progresses@.len() == i,
                forall|k: int| 0 <= k < i ==> #[trigger] progresses@[k] == Progress::Count(0),
            decreases poll.metric_trackers@.len() - i,
        {
            progresses.push(Progress::Count(0));
            i += 1;
        }
        let mut result_states: Vec<ResultState> = Vec::new();
        let mut j: usize = 0;
        while j < poll.results.len()
            invariant
                0 <= j <= poll.results@.len(),
                result_states@.len() == j,
                forall|k: int|
                    0 <= k < j ==> #[trigger] result_states.deep_view()[k]
                        == zeroed_result_states(poll@)[k],
            decreases poll.results@.len() - j,
        {
            proof {
                assert(poll@.results[j as int] == poll.results@[j as int]@);
            }
            let st = ResultState::from_result(&poll.results[j]);
            let ghost rs0 = result_states.deep_view();
            result_states.push(st);
            proof {
                assert(result_states.deep_view() =~= rs0.push(st@));
                assert(st@ =~= zeroed_result_states(poll@)[j as int]);
            }
            j += 1;
        }
        let pd = PollData { poll, responses: Vec::new(), progresses, result_states };
        proof {
            assert(pd@.poll == pv);
            assert(pd@.progresses =~= fresh_poll_data(pv).progresses);
            assert(pd@.result_states =~= zeroed_result_states(pv));
            assert(pd@.responses =~= Seq::<(Seq<char>, Seq<FormResponseView>)>::empty());
            assert(pd@ == fresh_poll_data(pv));
        }
        let ghost s0 = self@;
        self.entries.push((key, pd));
        proof {
            assert(self@ =~= s0.push((key, fresh_poll_data(pv))));
            assert(self@[s0.len() as int].0 == key);
            assert(has_key(self@, key));
            assert forall|a: int, b: int| 0 <= a < b < self@.len() implies (#[trigger] self@[a]).0
                != (#[trigger] self@[b]).0 by {
                if b == self@.len() - 1 {
                    assert(self@[a] == s0[a]);
                    assert(has_key(s0, self@[a].0) ==> self@[a].0 != key);
                }
            };
            assert(self.wf());
        }
        key
    }
}

// ---------------------------------------------------------------------------
// Submitting answers
// ---------------------------------------------------------------------------

/// Some entry of the response table belongs to this respondent.
pub open spec fn has_user(t: ResponseTableView, u: Seq<char>) -> bool {
    exists|i: int| 0 <= i < t.len() && (#[trigger] t[i]).0 == u
}

/// The index of the respondent's entry; unique when [`users_unique`] holds
/// and meaningful when [`has_user`] does.
pub open spec fn index_of_user(t: ResponseTableView, u: Seq<char>) -> int {
    choose|i: int| 0 <= i < t.len() && (#[trigger] t[i]).0 == u
}

/// Under unique respondents, any index carrying `u` is the index of `u`.
pub proof fn lemma_index_of_user_unique(t: ResponseTableView, u: Seq<char>, i: int)
    requires
        users_unique(t),
        0 <= i < t.len(),
        t[i].0 == u,
    ensures
        index_of_user(t, u) == i,
        has_user(t, u),
{
    assert(has_user(t, u));
    let j = index_of_user(t, u);
    assert(0 <= j < t.len() && t[j].0 == u);
    if i < j {
        assert(t[i].0 != t[j].0);
    } else if j < i {
        assert(t[j].0 != t[i].0);
    }
}

/// Storing one respondent's answers: the last write per respondent wins,
/// new respondents are appended, nothing is ever removed.
pub open spec fn upsert_response(
    t: ResponseTableView,
    u: Seq<char>,
    r: Seq<FormResponseView>,
) -> ResponseTableView {
    if has_user(t, u) {
        t.update(index_of_user(t, u), (u, r))
    } else {
        t.push((u, r))
    }
}

/// What an upsert does to a table of unique respondents: the respondent is
/// present afterwards with exactly the new answers, everyone else is
/// untouched, uniqueness is preserved, and every entry of the new table is
/// either the new one or one of the old ones.
pub proof fn lemma_upsert_props(t: ResponseTableView, u: Seq<char>, r: Seq<FormResponseView>)
    requires
        users_unique(t),
    ensures
        users_unique(upsert_response(t, u, r)),
        has_user(upsert_response(t, u, r), u),
        upsert_response(t, u, r)[index_of_user(upsert_response(t, u, r), u)] == (u, r),
        upsert_response(t, u, r).len() == t.len() + (if has_user(t, u) {
            0int
        } else {
            1int
        }),
        forall|i: int|
            0 <= i < t.len() && t[i].0 != u ==> #[trigger] upsert_response(t, u, r)[i] == t[i],
        forall|i: int|
            0 <= i < upsert_response(t, u, r).len() ==> (#[trigger] upsert_response(t, u, r)[i]
                == (u, r) || (0 <= i < t.len() && upsert_response(t, u, r)[i] == t[i])),
    {
    let t2 = upsert_response(t, u, r);
    if has_user(t, u) {
        let i = index_of_user(t, u);
        assert(0 <= i < t.len() && t[i].0 == u);
        assert(t2 == t.update(i, (u, r)));
        assert(t2[i] == (u, r));
        lemma_index_of_user_unique(t2, u, i);
    } else {
        assert(t2 == t.push((u, r)));
        assert(t2[t.len() as int] == (u, r));
        assert forall|a: int, b: int| 0 <= a < b < t2.len() implies (#[trigger] t2[a]).0 != (
        #[trigger] t2[b]).0 by {
            if b < t.len() {
                assert(t2[a] == t[a] && t2[b] == t[b]);
            } else {
                assert(t2[a] == t[a]);
                assert(t[a].0 != u) by {
                    if t[a].0 == u {
                        assert(has_user(t, u));
                    }
                };
            }
        };
        lemma_index_of_user_unique(t2, u, t.len() as int);
    }
}

/// The data after one submission: the respondent's answers upserted and the
/// whole derived state recomputed from the updated table.
pub open spec fn submitted_data(
    d: PollDataView,
    u: Seq<char>,
    r: Seq<FormResponseView>,
) -> PollDataView {
    let t2 = upsert_response(d.responses, u, r);
    PollDataView {
        poll: d.poll,
        responses: t2,
        progresses: progresses_of(d.poll, t2),
        result_states: result_states_of(d.poll, t2),
    }
}

/// The store after one accepted submission: only the addressed poll's entry
/// changes, to [`submitted_data`].
pub open spec fn submit_transition(
    s: StoreView,
    key: u64,
    u: Seq<char>,
    r: Seq<FormResponseView>,
) -> StoreView {
    s.update(index_of_key(s, key), (key, submitted_data(s[index_of_key(s, key)].1, u, r)))
}

/// Submitting the same answers for the same respondent twice leaves the
/// poll's data, its progresses and its result states exactly where the
/// first submission put them.
pub proof fn lemma_submit_idempotent(d: PollDataView, u: Seq<char>, r: Seq<FormResponseView>)
    requires
        users_unique(d.responses),
    ensures
        submitted_data(submitted_data(d, u, r), u, r) == submitted_data(d, u, r),
{
    lemma_upsert_props(d.responses, u, r);
    let t1 = upsert_response(d.responses, u, r);
    let d1 = submitted_data(d, u, r);
    lemma_upsert_props(t1, u, r);
    let i = index_of_user(t1, u);
    assert(t1[i] == (u, r));
    assert(upsert_response(t1, u, r) == t1.update(i, (u, r)));
    assert(upsert_response(t1, u, r) =~= t1);
    assert(submitted_data(d1, u, r) == d1);
}

/// Submitting twice for the same respondent is the same as submitting only
/// the later answers: the last write wins and recomputation reflects only
/// the latest set.
pub proof fn lemma_submit_last_write_wins(
    d: PollDataView,
    u: Seq<char>,
    r1: Seq<FormResponseView>,
    r2: Seq<FormResponseView>,
)
    requires
        users_unique(d.responses),
    ensures
        submitted_data(submitted_data(d, u, r1), u, r2) == submitted_data(d, u, r2),
{
    let t = d.responses;
    lemma_upsert_props(t, u, r1);
    let t1 = upsert_response(t, u, r1);
    lemma_upsert_props(t1, u, r2);
    lemma_upsert_props(t, u, r2);
    if has_user(t, u) {
        let i = index_of_user(t, u);
        assert(t1 == t.update(i, (u, r1)));
        assert(t1[i] == (u, r1));
        lemma_index_of_user_unique(t1, u, i);
        assert(upsert_response(t1, u, r2) == t1.update(i, (u, r2)));
        assert(upsert_response(t1, u, r2) =~= t.update(i, (u, r2)));
    } else {
        assert(t1 == t.push((u, r1)));
        assert(t1[t.len() as int] == (u, r1));
        lemma_index_of_user_unique(t1, u, t.len() as int);
        assert(upsert_response(t1, u, r2) == t1.update(t.len() as int, (u, r2)));
        assert(upsert_response(t1, u, r2) =~= t.push((u, r2)));
    }
    assert(submitted_data(submitted_data(d, u, r1), u, r2) == submitted_data(d, u, r2));
}

impl PollStore {
    /// Upserts one respondent's answers into the addressed poll and
    /// recomputes all of its derived state from the complete, updated
    /// response table. The write is all-or-nothing: on an absent key or an
    /// answer vector that does not fit the poll's question shapes, or a
    /// poll whose own indices are out of range, the store is left exactly
    /// as it was. The caller persists the snapshot on success.
    pub fn submit_response(&mut self, key: u64, user: String, responses: Vec<FormResponse>) -> (r:
        Result<(), PollError>)
        requires
            old(self).wf(),
        ensures
            final(self).wf(),
            !has_key(old(self)@, key) ==> (r == Err::<(), PollError>(PollError::NotFound)
                && final(self)@ == old(self)@),
            has_key(old(self)@, key) ==> {
                let d = old(self)@[index_of_key(old(self)@, key)].1;
                if responses_valid(d.poll.questions, responses.deep_view()) && poll_computable(
                    d.poll,
                ) {
                    r == Ok::<(), PollError>(()) && final(self)@ == submit_transition(
                        old(self)@,
                        key,
                        user@,
                        responses.deep_view(),
                    )
                } else {
                    r == Err::<(), PollError>(PollError::ValidationError)
                        && final(self)@ == old(self)@
                }
            },
    {
        let ghost uv = user@;
        let ghost rv = responses.deep_view();
        let ghost s0 = self@;
        let i = match self.find_key(key) {
            Option::Some(i) => i,
            Option::None => {
                return Result::Err(PollError::NotFound);
            },
        };
        proof {
            lemma_index_of_key_unique(self@, key, i as int);
            assert(self@[i as int].1 == self.entries@[i as int].1@);
        }
        let ghost d0 = self@[i as int].1;
        let valid = validate_responses(&self.entries[i].1.poll.questions, &responses)
            && check_poll_computable(&self.entries[i].1.poll);
        if !valid {
            return Result::Err(PollError::ValidationError);
        }
        let (k0, mut pd) = self.entries.remove(i);
        proof {
            assert(pd@ == d0);
            assert(k0 == key);
            assert(data_wf(d0));
        }
        let mut j: usize = 0;
        let mut found: bool = false;
        let n_users = pd.responses.len();
        while j < n_users
            invariant
                !found,
                0 <= j <= pd.responses@.len(),
                n_users == pd.responses@.len(),
                pd@ == d0,
                forall|k: int| 0 <= k < j ==> (#[trigger] d0.responses[k]).0 != uv,
            decreases pd.responses@.len() - j,
        {
            proof {
                assert(d0.responses[j as int] == pd.responses@[j as int].deep_view());
                assert(d0.responses[j as int].0 == pd.responses@[j as int].0@);
            }
            if pd.responses[j].0 == user {
                found = true;
                break;
            }
            j += 1;
        }
        let ghost t0 = d0.responses;
        if found {
            proof {
                lemma_index_of_user_unique(t0, uv, j as int);
                lemma_upsert_props(t0, uv, rv);
            }
            pd.responses.set(j, (user, responses));
            proof {
                assert(pd@.responses =~= t0.update(j as int, (uv, rv)));
                assert(pd@.responses == upsert_response(t0, uv, rv));
            }
        } else {
            proof {
                assert(!has_user(t0, uv));
                lemma_upsert_props(t0, uv, rv);
            }
            pd.responses.push((user, responses));
            proof {
                assert(pd@.responses =~= t0.push((uv, rv)));
                assert(pd@.responses == upsert_response(t0, uv, rv));
            }
        }
        proof {
            lemma_upsert_props(t0, uv, rv);
            assert(data_wf(pd@)) by {
                assert forall|k: int| 0 <= k < pd@.responses.len() implies responses_valid(
                    pd@.poll.questions,
                    (#[trigger] pd@.responses[k]).1,
                ) by {
                    assert(pd@.responses[k] == (uv, rv) || (0 <= k < t0.len() && pd@.responses[k]
                        == t0[k]));
                };
            };
            assert(recompute_ok(pd@.poll, pd@.responses)) by {
                assert forall|k: int|
                    0 <= k < pd@.poll.metric_trackers.len() implies metric_computable(
                    metric_qi((#[trigger] pd@.poll.metric_trackers[k]).metric),
                    pd@.responses,
                ) by {
                    assert(metric_question_in_range(pd@.poll.metric_trackers[k].metric, pd@.poll.questions));
                    let qi = metric_qi(pd@.poll.metric_trackers[k].metric);
                    assert forall|e: int| 0 <= e < pd@.responses.len() implies qi < (
                    #[trigger] pd@.responses[e]).1.len() && crate::engine::answer_readable(
                        pd@.responses[e].1[qi],
                    ) by {
                        assert(responses_valid(pd@.poll.questions, pd@.responses[e].1));
                        crate::engine::lemma_valid_answer_readable(
                            pd@.poll.questions,
                            pd@.responses[e].1,
                            qi,
                        );
                    };
                };
                assert forall|k: int|
                    0 <= k < pd@.poll.results.len() implies requirements_in_range(
                    (#[trigger] pd@.poll.results[k]).requirements,
                    pd@.poll.metric_trackers.len() as int,
                ) by {
                    assert(poll_computable(pd@.poll));
                };
            };
        }
        match pd.update_results() {
            Result::Ok(_) => {},
            Result::Err(_) => {
                proof {
                    assert(false);
                }
                return Result::Err(PollError::ValidationError);
            },
        }
        proof {
            assert(pd@ == submitted_data(d0, uv, rv));
        }
        let ghost removed = self@;
        self.entries.insert(i, (k0, pd));
        proof {
            assert(self@ =~= removed.insert(i as int, (key, submitted_data(d0, uv, rv))));
            assert(self@ =~= s0.update(i as int, (key, submitted_data(d0, uv, rv))));
            assert(self@ == submit_transition(s0, key, uv, rv));
            assert forall|a: int, b: int| 0 <= a < b < self@.len() implies (#[trigger] self@[a]).0
                != (#[trigger] self@[b]).0 by {
                assert(self@[a].0 == s0[a].0 && self@[b].0 == s0[b].0);
            };
            assert(self.wf());
        }
        Result::Ok(())
    }
}

/// Decides [`data_wf`] for one poll's data.
pub fn check_data_wf(d: &PollData) -> (r: bool)
    ensures
        r == data_wf(d@),
{
    if d.progresses.len() != d.poll.metric_trackers.len() {
        return false;
    }
    if d.result_states.len() != d.poll.results.len() {
        return false;
    }
    let n_states = d.result_states.len();
    let mut si: usize = 0;
    while si < n_states
        invariant
            0 <= si <= n_states,
            n_states == d.result_states@.len(),
            d.result_states@.len() == d.poll.results@.len(),
            forall|k: int|
                0 <= k < si ==> (#[trigger] d@.result_states[k]).requirements_met.len() == d@
                    .poll.results[k].requirements.len(),
        decreases n_states - si,
    {
        proof {
            assert(d@.result_states[si as int] == d.result_states@[si as int]@);
            assert(d@.poll.results[si as int] == d.poll.results@[si as int]@);
        }
        if d.result_states[si].requirements_met.len() != d.poll.results[si].requirements.len() {
            return false;
        }
        si += 1;
    }
    let n = d.responses.len();
    let mut i: usize = 0;
    while i < n
        invariant
            0 <= i <= n,
            n == d.responses@.len(),
            forall|k: int|
                0 <= k < i ==> responses_valid(d@.poll.questions, (#[trigger] d@.responses[k]).1),
        decreases n - i,
    {
        proof {
            assert(d@.responses[i as int] == d.responses@[i as int].deep_view());
            assert(d@.responses[i as int].1 == d.responses@[i as int].1.deep_view());
        }
        if !validate_responses(&d.poll.questions, &d.responses[i].1) {
            return false;
        }
        i += 1;
    }
    let mut a: usize = 0;
    while a < n
        invariant
            0 <= a <= n,
            n == d.responses@.len(),
            forall|k: int|
                0 <= k < n ==> responses_valid(d@.poll.questions, (#[trigger] d@.responses[k]).1),
            forall|x: int, y: int|
                0 <= x < y < n && x < a ==> (#[trigger] d@.responses[x]).0 != (#[trigger] d@
                    .responses[y]).0,
        decreases n - a,
    {
        let mut bidx: usize = a + 1;
        while bidx < n
            invariant
                0 <= a < bidx <= n,
                n == d.responses@.len(),
                forall|y: int| a < y < bidx ==> (#[trigger] d@.responses[y]).0 != d@.responses[a as int].0,
            decreases n - bidx,
        {
            proof {
                assert(d@.responses[a as int].0 == d.responses@[a as int].0@);
                assert(d@.responses[bidx as int].0 == d.responses@[bidx as int].0@);
            }
            if d.responses[a].0 == d.responses[bidx].0 {
                proof {
                    assert(!users_unique(d@.responses));
                }
                return false;
            }
            bidx += 1;
        }
        a += 1;
    }
    true
}

impl PollStore {
    /// The entries as plain data, for the snapshot codec.
    pub fn entries_ref(&self) -> (r: &Vec<(u64, PollData)>)
        ensures
            r.deep_view() == self@,
    {
        &self.entries
    }

    /// Rebuilds a store from decoded entries.
    pub fn from_entries(entries: Vec<(u64, PollData)>) -> (r: PollStore)
        ensures
            r@ == entries.deep_view(),
    {
        PollStore { entries }
    }

    /// Decides the whole-store invariant [`store_wf`], as a loaded snapshot
    /// must be checked before it is trusted.
    pub fn check_wf(&self) -> (r: bool)
        ensures
            r == self.wf(),
    {
        let n = self.entries.len();
        let mut a: usize = 0;
        while a < n
            invariant
                0 <= a <= n,
                n == self@.len(),
                forall|x: int, y: int|
                    0 <= x < y < n && x < a ==> (#[trigger] self@[x]).0 != (#[trigger] self@[y]).0,
            decreases n - a,
        {
            let mut bidx: usize = a + 1;
            while bidx < n
                invariant
                    0 <= a < bidx <= n,
                    n == self@.len(),
                    forall|y: int| a < y < bidx ==> (#[trigger] self@[y]).0 != self@[a as int].0,
                decreases n - bidx,
            {
                proof {
                    assert(self@[a as int].0 == self.entries@[a as int].0);
                    assert(self@[bidx as int].0 == self.entries@[bidx as int].0);
                }
                if self.entries[a].0 == self.entries[bidx].0 {
                    proof {
                        assert(!keys_unique(self@));
                    }
                    return false;
                }
                bidx += 1;
            }
            a += 1;
        }
        let mut i: usize = 0;
        while i < n
            invariant
                0 <= i <= n,
                n == self@.len(),
                keys_unique(self@),
                forall|k: int| 0 <= k < i ==> data_wf((#[trigger] self@[k]).1),
            decreases n - i,
        {
            proof {
                assert(self@[i as int].1 == self.entries@[i as int].1@);
            }
            if !check_data_wf(&self.entries[i].1) {
                return false;
            }
            i += 1;
        }
        true
    }
}

/// [`lemma_submit_idempotent`] lifted to the whole store.
pub proof fn lemma_store_submit_idempotent(
    s: StoreView,
    key: u64,
    u: Seq<char>,
    r: Seq<FormResponseView>,
)
    requires
        store_wf(s),
        has_key(s, key),
    ensures
        submit_transition(submit_transition(s, key, u, r), key, u, r) == submit_transition(
            s,
            key,
            u,
            r,
        ),
{
    let i = index_of_key(s, key);
    assert(0 <= i < s.len() && s[i].0 == key);
    let s1 = submit_transition(s, key, u, r);
    assert(s1 == s.update(i, (key, submitted_data(s[i].1, u, r))));
    assert forall|a: int, b: int| 0 <= a < b < s1.len() implies (#[trigger] s1[a]).0 != (
    #[trigger] s1[b]).0 by {
        assert(s1[a].0 == s[a].0 && s1[b].0 == s[b].0);
    };
    lemma_index_of_key_unique(s1, key, i);
    assert(data_wf(s[i].1));
    lemma_submit_idempotent(s[i].1, u, r);
    assert(submit_transition(s1, key, u, r) == s1.update(
        i,
        (key, submitted_data(s1[i].1, u, r)),
    ));
    assert(submit_transition(s1, key, u, r) =~= s1);
}

/// [`lemma_submit_last_write_wins`] lifted to the whole store.
pub proof fn lemma_store_submit_last_write_wins(
    s: StoreView,
    key: u64,
    u: Seq<char>,
    r1: Seq<FormResponseView>,
    r2: Seq<FormResponseView>,
)
    requires
        store_wf(s),
        has_key(s, key),
    ensures
        submit_transition(submit_transition(s, key, u, r1), key, u, r2) == submit_transition(
            s,
            key,
            u,
            r2,
        ),
{
    let i = index_of_key(s, key);
    assert(0 <= i < s.len() && s[i].0 == key);
    let s1 = submit_transition(s, key, u, r1);
    assert(s1 == s.update(i, (key, submitted_data(s[i].1, u, r1))));
    assert forall|a: int, b: int| 0 <= a < b < s1.len() implies (#[trigger] s1[a]).0 != (
    #[trigger] s1[b]).0 by {
        assert(s1[a].0 == s[a].0 && s1[b].0 == s[b].0);
    };
    lemma_index_of_key_unique(s1, key, i);
    assert(data_wf(s[i].1));
    lemma_submit_last_write_wins(s[i].1, u, r1, r2);
    assert(submit_transition(s1, key, u, r2) == s1.update(
        i,
        (key, submitted_data(s1[i].1, u, r2)),
    ));
    assert(submit_transition(s1, key, u, r2) =~= submit_transition(s, key, u, r2));
}

// ---------------------------------------------------------------------------
// Healing on startup, seeding, and the wire-level operations
// ---------------------------------------------------------------------------

/// What healing does to one poll's data: a full recomputation where one is
/// possible, and the data untouched where it is not.
pub open spec fn healed_data(d: PollDataView) -> PollDataView {
    if recompute_ok(d.poll, d.responses) {
        PollDataView {
            poll: d.poll,
            responses: d.responses,
            progresses: progresses_of(d.poll, d.responses),
            result_states: result_states_of(d.poll, d.responses),
        }
    } else {
        d
    }
}

impl PollStore {
    /// Recomputes every poll's derived state from its current answers, to
    /// heal any inconsistency a loaded snapshot may carry. Polls whose
    /// indices are out of range are left untouched.
    pub fn update_all_results(&mut self)
        requires
            old(self).wf(),
        ensures
            final(self).wf(),
            final(self)@ == Seq::new(
                old(self)@.len(),
                |i: int| (old(self)@[i].0, healed_data(old(self)@[i].1)),
            ),
    {
        let ghost s0 = self@;
        let mut i: usize = 0;
        let n = self.entries.len();
        while i < n
            invariant
                0 <= i <= s0.len(),
                n == s0.len(),
                self@.len() == s0.len(),
                self.wf(),
                forall|k: int|
                    0 <= k < i ==> #[trigger] self@[k] == (s0[k].0, healed_data(s0[k].1)),
                forall|k: int| i <= k < s0.len() ==> #[trigger] self@[k] == s0[k],
            decreases s0.len() - i,
        {
            let ghost before = self@;
            let (k0, mut pd) = self.entries.remove(i);
            proof {
                assert(pd@ == before[i as int].1);
                assert(data_wf(pd@));
            }
            let _ = pd.update_results();
            proof {
                assert(pd@ == healed_data(before[i as int].1));
            }
            self.entries.insert(i, (k0, pd));
            proof {
                assert(self@ =~= before.update(i as int, (k0, pd@)));
                assert forall|a: int, b: int| 0 <= a < b < self@.len() implies (#[trigger] self@[a]).0
                    != (#[trigger] self@[b]).0 by {
                    assert(self@[a].0 == before[a].0 && self@[b].0 == before[b].0);
                };
            }
            i += 1;
        }
        proof {
            assert(self@ =~= Seq::new(s0.len(), |i: int| (s0[i].0, healed_data(s0[i].1))));
        }
    }

    /// The store a fresh process starts from when no snapshot exists: one
    /// example poll at key zero, with three pick-one-or-none questions, a
    /// hidden tracker counting "Yes" on the first question, and one result
    /// asking for at least two of those, all derived state zeroed.
    pub fn seeded() -> (r: PollStore)
        ensures
            r.wf(),
            r@.len() == 1,
            has_key(r@, 0),
            r@[0].0 == 0,
            r@[0].1 == fresh_poll_data(r@[0].1.poll),
            poll_forms_wf(r@[0].1.poll),
            poll_computable(r@[0].1.poll),
            r@[0].1.poll.questions.len() == 3,
            r@[0].1.poll.metric_trackers.len() == 1,
            r@[0].1.poll.results.len() == 1,
            r@[0].1.poll.title == "Test Poll"@,
            r@[0].1.poll.status == PollStatus::SeekingResponses,
            r@[0].1.poll.metric_trackers[0] == (MetricTracker {
                metric: Metric::SpecificResponses { question_index: 0, choice: Choice::Index(0) },
                publicly_visible: false,
            }),
            r@[0].1.poll.results[0].requirements =~= seq![
                Requirement::AtLeast { metric_index: 0, minimum: 2 },
            ],
    {
        let questions: Vec<Question> = vec![
            Question {
                prompt: String::from_str("Are you going?"),
                form: Form::OneOrNone {
                    options: vec![String::from_str("Yes"), String::from_str("No")],
                },
            },
            Question {
                prompt: String::from_str("How are you arriving?"),
                form: Form::OneOrNone {
                    options: vec![
                        String::from_str("Driving own car"),
                        String::from_str("Walking"),
                        String::from_str("Uber"),
                    ],
                },
            },
            Question {
                prompt: String::from_str("Which restaurant would you prefer?"),
                form: Form::OneOrNone {
                    options: vec![
                        String::from_str("Chilis"),
                        String::from_str("Burger King"),
                        String::from_str("Cheddars"),
                        String::from_str("Papasitos"),
                        String::from_str("Taco Bell"),
                    ],
                },
            },
        ];
        let metric_trackers: Vec<MetricTracker> = vec![
            MetricTracker {
                metric: Metric::SpecificResponses { question_index: 0, choice: Choice::Index(0) },
                publicly_visible: false,
            },
        ];
        let results: Vec<PollResult> = vec![
            PollResult {
                desc: String::from_str("The party happens"),
                requirements: vec![Requirement::AtLeast { metric_index: 0, minimum: 2 }],
            },
        ];
        let poll = Poll {
            title: String::from_str("Test Poll"),
            description: String::from_str("Today, 3pm, you know where"),
            expiration: Option::None,
            announcement: Option::None,
            metric_trackers,
            results,
            status: PollStatus::SeekingResponses,
            questions,
        };
        let ghost pv = poll@;
        let st = ResultState::from_result(&poll.results[0]);
        let pd = PollData {
            poll,
            responses: Vec::new(),
            progresses: vec![Progress::Count(0)],
            result_states: vec![st],
        };
        proof {
            assert(pd@.poll == pv);
            assert(poll_forms_wf(pv));
            assert(poll_computable(pv));
            assert(pd@.progresses =~= fresh_poll_data(pv).progresses);
            assert(st@ =~= zeroed_result_states(pv)[0]);
            assert(pd@.result_states =~= zeroed_result_states(pv));
            assert(pd@.responses =~= Seq::<(Seq<char>, Seq<FormResponseView>)>::empty());
            assert(pd@ == fresh_poll_data(pv));
        }
        let mut entries: Vec<(u64, PollData)> = Vec::new();
        entries.push((0, pd));
        let r = PollStore { entries };
        proof {
            assert(r@.len() == 1);
            assert(r@[0] == (0u64, fresh_poll_data(pv)));
            assert(has_key(r@, 0));
        }
        r
    }

    /// Serves a poll query: the stored poll where the key exists, a miss
    /// otherwise.
    pub fn handle_poll_query(&self, query: PollQuery) -> (r: PollQueryResult)
        requires
            self.wf(),
        ensures
            match r {
                PollQueryResult::Found(p) => has_key(self@, query.id) && p@ == self@[index_of_key(
                    self@,
                    query.id,
                )].1.poll,
                PollQueryResult::NotFound => !has_key(self@, query.id),
            },
    {
        match self.get_poll(query.id) {
            Option::Some(p) => PollQueryResult::Found(p),
            Option::None => PollQueryResult::NotFound,
        }
    }

    /// Serves a poll creation: allocates the smallest unused positive key
    /// and stores the poll with zeroed derived state. Never fails here;
    /// the shell reports an error only when its lock or its disk does.
    pub fn handle_new_poll(&mut self, poll: Poll) -> (r: CreatePollResult)
        requires
            old(self).wf(),
            old(self)@.len() < u64::MAX,
        ensures
            final(self).wf(),
            r matches CreatePollResult::Success { key } && key >= 1 && !has_key(old(self)@, key)
                && (forall|k: u64| 1 <= k < key ==> has_key(old(self)@, k)) && final(self)@ == old(
                self,
            )@.push((key, fresh_poll_data(poll@))),
    {
        let key = self.create_poll(poll);
        CreatePollResult::Success { key }
    }

    /// Serves a submission: success exactly when the poll exists, the
    /// answers fit its question shapes and its own indices are in range;
    /// the store is untouched otherwise.
    pub fn handle_submission(&mut self, req: PollResponse) -> (r: PollSubmissionResult)
        requires
            old(self).wf(),
        ensures
            final(self).wf(),
            !has_key(old(self)@, req.poll_id) ==> (r == PollSubmissionResult::Error && final(self)@
                == old(self)@),
            has_key(old(self)@, req.poll_id) ==> {
                let d = old(self)@[index_of_key(old(self)@, req.poll_id)].1;
                if responses_valid(d.poll.questions, req.responses.deep_view()) && poll_computable(
                    d.poll,
                ) {
                    r == PollSubmissionResult::Success && final(self)@ == submit_transition(
                        old(self)@,
                        req.poll_id,
                        req.user@,
                        req.responses.deep_view(),
                    )
                } else {
                    r == PollSubmissionResult::Error && final(self)@ == old(self)@
                }
            },
    {
        match self.submit_response(req.poll_id, req.user, req.responses) {
            Result::Ok(_) => PollSubmissionResult::Success,
            Result::Err(_) => PollSubmissionResult::Error,
        }
    }

    /// Serves a progress query: the latest derived state with non-public
    /// metrics redacted, an error on an absent key.
    pub fn handle_progress(&self, key: u64) -> (r: ProgressReportResult)
        requires
            self.wf(),
        ensures
            match r {
                ProgressReportResult::Success { progress } => has_key(self@, key) && progress@
                    == progress_projection(self@[index_of_key(self@, key)].1),
                ProgressReportResult::Error => !has_key(self@, key),
            },
    {
        match self.get_progress(key) {
            Result::Ok(progress) => ProgressReportResult::Success { progress },
            Result::Err(_) => ProgressReportResult::Error,
        }
    }
}

} // verus!
