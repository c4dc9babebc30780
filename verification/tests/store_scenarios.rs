use poll_engine::PollError;
use poll_engine::schema::Choice;
use poll_engine::schema::CreatePollResult;
use poll_engine::schema::Form;
use poll_engine::schema::FormResponse;
use poll_engine::schema::Metric;
use poll_engine::schema::MetricTracker;
use poll_engine::schema::Poll;
use poll_engine::schema::PollQuery;
use poll_engine::schema::PollQueryResult;
use poll_engine::schema::PollResponse;
use poll_engine::schema::PollResult;
use poll_engine::schema::PollStatus;
use poll_engine::schema::PollSubmissionResult;
use poll_engine::schema::Progress;
use poll_engine::schema::ProgressReportResult;
use poll_engine::schema::Question;
use poll_engine::schema::Requirement;
use poll_engine::store::PollStore;

fn options(items: &[&str]) -> Vec<String> {
    items.iter().map(|s| s.to_string()).collect()
}

fn tracker(question_index: usize, choice: Choice, publicly_visible: bool) -> MetricTracker {
    MetricTracker {
        metric: Metric::SpecificResponses {
            question_index,
            choice,
        },
        publicly_visible,
    }
}

fn poll_with(
    questions: Vec<Question>,
    metric_trackers: Vec<MetricTracker>,
    results: Vec<PollResult>,
) -> Poll {
    Poll {
        title: "t".to_string(),
        description: "d".to_string(),
        expiration: None,
        announcement: None,
        metric_trackers,
        results,
        status: PollStatus::SeekingResponses,
        questions,
    }
}

fn submit(store: &mut PollStore, key: u64, user: &str, responses: Vec<FormResponse>) -> Result<(), PollError> {
    store.submit_response(key, user.to_string(), responses)
}

#[test]
fn scenario_one_or_none_threshold() {
    // One pick-one-or-none question, one tracker on its first option, one
    // result asking for at least two such answers.
    let poll = poll_with(
        vec![Question {
            prompt: "Are you going?".to_string(),
            form: Form::OneOrNone {
                options: options(&["Yes", "No"]),
            },
        }],
        vec![tracker(0, Choice::Index(0), true)],
        vec![PollResult {
            desc: "The party happens".to_string(),
            requirements: vec![Requirement::AtLeast {
                metric_index: 0,
                minimum: 2,
            }],
        }],
    );
    let mut store = PollStore::new();
    let key = store.create_poll(poll);

    let before = store.get_progress(key).unwrap();
    assert_eq!(before.metric_progresses, vec![Some(Progress::Count(0))]);
    assert_eq!(before.result_states[0].overall_met, false);

    submit(&mut store, key, "Alice", vec![FormResponse::ChooseOneOrNone(Some(Choice::Index(0)))])
        .unwrap();
    submit(&mut store, key, "Bob", vec![FormResponse::ChooseOneOrNone(Some(Choice::Index(0)))])
        .unwrap();
    submit(&mut store, key, "Carol", vec![FormResponse::ChooseOneOrNone(Some(Choice::Index(1)))])
        .unwrap();

    let after = store.get_progress(key).unwrap();
    assert_eq!(after.metric_progresses, vec![Some(Progress::Count(2))]);
    assert_eq!(after.result_states[0].requirements_met, vec![true]);
    assert!(after.result_states[0].overall_met);
}

#[test]
fn scenario_multiple_counts_each_selected_option() {
    let poll = poll_with(
        vec![Question {
            prompt: "Toppings?".to_string(),
            form: Form::Multiple {
                options: options(&["olives", "onions", "peppers"]),
            },
        }],
        vec![
            tracker(0, Choice::Index(0), true),
            tracker(0, Choice::Index(1), true),
            tracker(0, Choice::Index(2), true),
        ],
        vec![],
    );
    let mut store = PollStore::new();
    let key = store.create_poll(poll);
    submit(
        &mut store,
        key,
        "Alice",
        vec![FormResponse::ChooseMultiple(vec![Choice::Index(0), Choice::Index(2)])],
    )
    .unwrap();
    let progress = store.get_progress(key).unwrap();
    assert_eq!(
        progress.metric_progresses,
        vec![
            Some(Progress::Count(1)),
            Some(Progress::Count(0)),
            Some(Progress::Count(1)),
        ]
    );
}

#[test]
fn scenario_ranked_choice_counts_rank_one_only() {
    let poll = poll_with(
        vec![Question {
            prompt: "Order the venues".to_string(),
            form: Form::RankedChoice {
                options: options(&["park", "beach", "hall"]),
            },
        }],
        vec![
            tracker(0, Choice::Index(0), true),
            tracker(0, Choice::Index(1), true),
            tracker(0, Choice::Index(2), true),
        ],
        vec![],
    );
    let mut store = PollStore::new();
    let key = store.create_poll(poll);
    submit(
        &mut store,
        key,
        "Alice",
        vec![FormResponse::RankedChoice(vec![
            Choice::Index(2),
            Choice::Index(0),
            Choice::Index(1),
        ])],
    )
    .unwrap();
    let progress = store.get_progress(key).unwrap();
    assert_eq!(
        progress.metric_progresses,
        vec![
            Some(Progress::Count(0)),
            Some(Progress::Count(0)),
            Some(Progress::Count(1)),
        ]
    );
}

#[test]
fn scenario_shape_mismatch_leaves_store_unchanged() {
    let poll = poll_with(
        vec![Question {
            prompt: "Toppings?".to_string(),
            form: Form::Multiple {
                options: options(&["olives", "onions"]),
            },
        }],
        vec![tracker(0, Choice::Index(0), true)],
        vec![],
    );
    let mut store = PollStore::new();
    let key = store.create_poll(poll);
    submit(&mut store, key, "Alice", vec![FormResponse::ChooseMultiple(vec![Choice::Index(0)])])
        .unwrap();
    let before = store.get_progress(key).unwrap();

    // The wrong variant for this question's form.
    let r = submit(&mut store, key, "Bob", vec![FormResponse::ChooseOne(Choice::Index(0))]);
    assert_eq!(r, Err(PollError::ValidationError));
    assert_eq!(store.get_progress(key).unwrap(), before);

    // An in-variant but out-of-range option index.
    let r = submit(&mut store, key, "Bob", vec![FormResponse::ChooseMultiple(vec![Choice::Index(5)])]);
    assert_eq!(r, Err(PollError::ValidationError));
    assert_eq!(store.get_progress(key).unwrap(), before);

    // A wrong-length answer vector.
    let r = submit(&mut store, key, "Bob", vec![]);
    assert_eq!(r, Err(PollError::ValidationError));
    assert_eq!(store.get_progress(key).unwrap(), before);
}

#[test]
fn submitting_twice_identically_changes_nothing() {
    let poll = poll_with(
        vec![Question {
            prompt: "Going?".to_string(),
            form: Form::YesNo,
        }],
        vec![tracker(0, Choice::YesOrNo(true), true)],
        vec![PollResult {
            desc: "quorum".to_string(),
            requirements: vec![Requirement::AtLeast {
                metric_index: 0,
                minimum: 1,
            }],
        }],
    );
    let mut store = PollStore::new();
    let key = store.create_poll(poll);
    let answer = vec![FormResponse::ChooseOne(Choice::YesOrNo(true))];
    submit(&mut store, key, "Alice", answer.clone()).unwrap();
    let first = store.get_progress(key).unwrap();
    submit(&mut store, key, "Alice", answer).unwrap();
    let second = store.get_progress(key).unwrap();
    assert_eq!(first, second);
    assert_eq!(second.metric_progresses, vec![Some(Progress::Count(1))]);
}

#[test]
fn last_write_per_user_wins() {
    let poll = poll_with(
        vec![Question {
            prompt: "Going?".to_string(),
            form: Form::YesNo,
        }],
        vec![tracker(0, Choice::YesOrNo(true), true)],
        vec![],
    );
    let mut store = PollStore::new();
    let key = store.create_poll(poll);
    submit(&mut store, key, "Alice", vec![FormResponse::ChooseOne(Choice::YesOrNo(true))]).unwrap();
    assert_eq!(
        store.get_progress(key).unwrap().metric_progresses,
        vec![Some(Progress::Count(1))]
    );
    submit(&mut store, key, "Alice", vec![FormResponse::ChooseOne(Choice::YesOrNo(false))])
        .unwrap();
    assert_eq!(
        store.get_progress(key).unwrap().metric_progresses,
        vec![Some(Progress::Count(0))]
    );
}

#[test]
fn created_keys_are_the_smallest_unused_positive_ones() {
    let mut store = PollStore::new();
    let first = store.create_poll(poll_with(vec![], vec![], vec![]));
    let second = store.create_poll(poll_with(vec![], vec![], vec![]));
    let third = store.create_poll(poll_with(vec![], vec![], vec![]));
    assert_eq!(first, 1);
    assert_eq!(second, 2);
    assert_eq!(third, 3);
}

#[test]
fn seeded_store_reserves_key_zero() {
    let mut store = PollStore::seeded();
    assert!(store.contains_key(0));
    let key = store.create_poll(poll_with(vec![], vec![], vec![]));
    assert_eq!(key, 1);
    let seeded = store.get_poll(0).unwrap();
    assert_eq!(seeded.title, "Test Poll");
    assert_eq!(seeded.questions.len(), 3);
    assert_eq!(seeded.metric_trackers.len(), 1);
    assert_eq!(seeded.results.len(), 1);
}

#[test]
fn missing_keys_are_not_found() {
    let mut store = PollStore::new();
    assert_eq!(store.get_poll(7), None);
    assert_eq!(store.get_progress(7), Err(PollError::NotFound));
    let r = store.submit_response(7, "Alice".to_string(), vec![]);
    assert_eq!(r, Err(PollError::NotFound));
}

#[test]
fn hidden_trackers_are_redacted() {
    let poll = poll_with(
        vec![Question {
            prompt: "Going?".to_string(),
            form: Form::YesNo,
        }],
        vec![
            tracker(0, Choice::YesOrNo(true), false),
            tracker(0, Choice::YesOrNo(false), true),
        ],
        vec![],
    );
    let mut store = PollStore::new();
    let key = store.create_poll(poll);
    submit(&mut store, key, "Alice", vec![FormResponse::ChooseOne(Choice::YesOrNo(true))]).unwrap();
    let progress = store.get_progress(key).unwrap();
    assert_eq!(progress.metric_progresses, vec![None, Some(Progress::Count(0))]);
}

#[test]
fn wire_handlers_mirror_the_operations() {
    let mut store = PollStore::new();
    let created = store.handle_new_poll(poll_with(
        vec![Question {
            prompt: "Going?".to_string(),
            form: Form::YesNo,
        }],
        vec![tracker(0, Choice::YesOrNo(true), true)],
        vec![],
    ));
    let key = match created {
        CreatePollResult::Success { key } => key,
        CreatePollResult::Error => panic!("creation cannot fail"),
    };
    assert_eq!(key, 1);

    match store.handle_poll_query(PollQuery { id: key }) {
        PollQueryResult::Found(p) => assert_eq!(p.questions.len(), 1),
        PollQueryResult::NotFound => panic!("the poll was just created"),
    }
    match store.handle_poll_query(PollQuery { id: 99 }) {
        PollQueryResult::Found(_) => panic!("no such poll"),
        PollQueryResult::NotFound => {}
    }

    let ok = store.handle_submission(PollResponse {
        poll_id: key,
        user: "Alice".to_string(),
        responses: vec![FormResponse::ChooseOne(Choice::YesOrNo(true))],
    });
    assert_eq!(ok, PollSubmissionResult::Success);
    let bad = store.handle_submission(PollResponse {
        poll_id: key,
        user: "Bob".to_string(),
        responses: vec![FormResponse::ChooseMultiple(vec![])],
    });
    assert_eq!(bad, PollSubmissionResult::Error);

    match store.handle_progress(key) {
        ProgressReportResult::Success { progress } => {
            assert_eq!(progress.metric_progresses, vec![Some(Progress::Count(1))]);
        }
        ProgressReportResult::Error => panic!("the poll exists"),
    }
    match store.handle_progress(42) {
        ProgressReportResult::Success { .. } => panic!("no such poll"),
        ProgressReportResult::Error => {}
    }
}

#[test]
fn empty_rankings_are_rejected_before_storage() {
    // An empty ranking has no rank-1 entry to read: submission is a
    // validation error and the store is untouched; a partial but non-empty
    // ranking is accepted.
    let poll = poll_with(
        vec![Question {
            prompt: "Order the venues".to_string(),
            form: Form::RankedChoice {
                options: options(&["park", "beach"]),
            },
        }],
        vec![tracker(0, Choice::Index(1), true)],
        vec![],
    );
    let mut store = PollStore::new();
    let key = store.create_poll(poll);
    let before = store.get_progress(key).unwrap();
    let r = submit(&mut store, key, "Alice", vec![FormResponse::RankedChoice(vec![])]);
    assert_eq!(r, Err(PollError::ValidationError));
    assert_eq!(store.get_progress(key).unwrap(), before);
    submit(&mut store, key, "Alice", vec![FormResponse::RankedChoice(vec![Choice::Index(1)])])
        .unwrap();
    assert_eq!(
        store.get_progress(key).unwrap().metric_progresses,
        vec![Some(Progress::Count(1))]
    );
}

#[test]
fn closed_status_is_advisory() {
    // No operation inspects the status: a closed poll still accepts
    // submissions.
    let mut poll = poll_with(
        vec![Question {
            prompt: "Going?".to_string(),
            form: Form::YesNo,
        }],
        vec![tracker(0, Choice::YesOrNo(true), true)],
        vec![],
    );
    poll.status = PollStatus::Closed;
    let mut store = PollStore::new();
    let key = store.create_poll(poll);
    submit(&mut store, key, "Alice", vec![FormResponse::ChooseOne(Choice::YesOrNo(true))]).unwrap();
    assert_eq!(
        store.get_progress(key).unwrap().metric_progresses,
        vec![Some(Progress::Count(1))]
    );
}

#[test]
fn polls_with_out_of_range_indices_reject_submissions_and_skip_healing() {
    // Creation never fails, even for a poll whose tracker points past its
    // questions; every submission to it is a validation error and healing
    // leaves its zeroed state untouched.
    let poll = poll_with(
        vec![Question {
            prompt: "Going?".to_string(),
            form: Form::YesNo,
        }],
        vec![tracker(9, Choice::YesOrNo(true), true)],
        vec![],
    );
    let mut store = PollStore::new();
    let key = store.create_poll(poll);
    let r = submit(&mut store, key, "Alice", vec![FormResponse::ChooseOne(Choice::YesOrNo(true))]);
    assert_eq!(r, Err(PollError::ValidationError));
    let before = store.get_progress(key).unwrap();
    store.update_all_results();
    assert_eq!(store.get_progress(key).unwrap(), before);
    assert_eq!(before.metric_progresses, vec![Some(Progress::Count(0))]);
}

#[test]
fn update_all_results_heals_loaded_state() {
    let poll = poll_with(
        vec![Question {
            prompt: "Going?".to_string(),
            form: Form::YesNo,
        }],
        vec![tracker(0, Choice::YesOrNo(true), true)],
        vec![PollResult {
            desc: "anyone".to_string(),
            requirements: vec![Requirement::AtLeast {
                metric_index: 0,
                minimum: 0,
            }],
        }],
    );
    let mut store = PollStore::new();
    let key = store.create_poll(poll);
    // Creation zeroes the result state; a zero minimum is already met, so
    // healing recomputes it to true.
    assert!(!store.get_progress(key).unwrap().result_states[0].overall_met);
    store.update_all_results();
    assert!(store.get_progress(key).unwrap().result_states[0].overall_met);
}
