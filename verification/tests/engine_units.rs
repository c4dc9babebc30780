use poll_engine::PollError;
use poll_engine::schema::Choice;
use poll_engine::schema::Form;
use poll_engine::schema::FormResponse;
use poll_engine::schema::Metric;
use poll_engine::schema::MetricTracker;
use poll_engine::schema::Poll;
use poll_engine::schema::PollResult;
use poll_engine::schema::PollStatus;
use poll_engine::schema::Progress;
use poll_engine::schema::Question;
use poll_engine::schema::Requirement;
use poll_engine::schema::ResultState;
use poll_engine::schema::check_response;
use poll_engine::schema::validate_responses;
use poll_engine::schema::check_poll_computable;

fn question(prompt: &str, form: Form) -> Question {
    Question {
        prompt: prompt.to_string(),
        form,
    }
}

fn one_or_none(options: &[&str]) -> Form {
    Form::OneOrNone {
        options: options.iter().map(|s| s.to_string()).collect(),
    }
}

fn entry(user: &str, responses: Vec<FormResponse>) -> (String, Vec<FormResponse>) {
    (user.to_string(), responses)
}

#[test]
fn count_choose_one_or_none() {
    let m = Metric::SpecificResponses {
        question_index: 0,
        choice: Choice::Index(0),
    };
    let responses = vec![
        entry("alice", vec![FormResponse::ChooseOneOrNone(Some(Choice::Index(0)))]),
        entry("bob", vec![FormResponse::ChooseOneOrNone(Some(Choice::Index(1)))]),
        entry("carol", vec![FormResponse::ChooseOneOrNone(None)]),
    ];
    assert_eq!(m.calculate_progress(&responses), Ok(Progress::Count(1)));
}

#[test]
fn count_choose_one() {
    let m = Metric::SpecificResponses {
        question_index: 0,
        choice: Choice::YesOrNo(true),
    };
    let responses = vec![
        entry("alice", vec![FormResponse::ChooseOne(Choice::YesOrNo(true))]),
        entry("bob", vec![FormResponse::ChooseOne(Choice::YesOrNo(false))]),
    ];
    assert_eq!(m.calculate_progress(&responses), Ok(Progress::Count(1)));
}

#[test]
fn count_choose_multiple_is_membership() {
    let m = Metric::SpecificResponses {
        question_index: 0,
        choice: Choice::Index(2),
    };
    let responses = vec![
        entry("alice", vec![FormResponse::ChooseMultiple(vec![Choice::Index(0), Choice::Index(2)])]),
        // A duplicated selection still counts this respondent once.
        entry("bob", vec![FormResponse::ChooseMultiple(vec![Choice::Index(2), Choice::Index(2)])]),
        entry("carol", vec![FormResponse::ChooseMultiple(vec![])]),
    ];
    assert_eq!(m.calculate_progress(&responses), Ok(Progress::Count(2)));
}

#[test]
fn count_ranked_choice_rank_one_only() {
    let first = Metric::SpecificResponses {
        question_index: 0,
        choice: Choice::Index(2),
    };
    let second = Metric::SpecificResponses {
        question_index: 0,
        choice: Choice::Index(0),
    };
    let responses = vec![entry(
        "alice",
        vec![FormResponse::RankedChoice(vec![
            Choice::Index(2),
            Choice::Index(0),
            Choice::Index(1),
        ])],
    )];
    assert_eq!(first.calculate_progress(&responses), Ok(Progress::Count(1)));
    assert_eq!(second.calculate_progress(&responses), Ok(Progress::Count(0)));
}

#[test]
fn count_yes_no_none_answers() {
    let m = Metric::SpecificResponses {
        question_index: 0,
        choice: Choice::YesOrNo(true),
    };
    let responses = vec![
        entry("alice", vec![FormResponse::ChooseOneOrNone(Some(Choice::YesOrNo(true)))]),
        entry("bob", vec![FormResponse::ChooseOneOrNone(Some(Choice::YesOrNo(false)))]),
        entry("carol", vec![FormResponse::ChooseOneOrNone(None)]),
    ];
    assert_eq!(m.calculate_progress(&responses), Ok(Progress::Count(1)));
}

#[test]
fn count_empty_ranking_is_validation_error() {
    // The counting rule looks up the rank-1 entry; an empty ranking makes
    // that lookup a validation error, never a panic.
    let m = Metric::SpecificResponses {
        question_index: 0,
        choice: Choice::Index(0),
    };
    let responses = vec![entry("alice", vec![FormResponse::RankedChoice(vec![])])];
    assert_eq!(m.calculate_progress(&responses), Err(PollError::ValidationError));
}

#[test]
fn count_out_of_range_question_is_validation_error() {
    let m = Metric::SpecificResponses {
        question_index: 1,
        choice: Choice::Index(0),
    };
    let responses = vec![entry("alice", vec![FormResponse::ChooseOne(Choice::Index(0))])];
    assert_eq!(m.calculate_progress(&responses), Err(PollError::ValidationError));
}

#[test]
fn count_over_empty_table_is_zero() {
    let m = Metric::SpecificResponses {
        question_index: 5,
        choice: Choice::Index(0),
    };
    let responses: Vec<(String, Vec<FormResponse>)> = Vec::new();
    assert_eq!(m.calculate_progress(&responses), Ok(Progress::Count(0)));
}

#[test]
fn evaluate_threshold() {
    let progresses = vec![Progress::Count(3), Progress::Count(0)];
    let at_least_two = Requirement::AtLeast {
        metric_index: 0,
        minimum: 2,
    };
    let at_least_one = Requirement::AtLeast {
        metric_index: 1,
        minimum: 1,
    };
    let zero_minimum = Requirement::AtLeast {
        metric_index: 1,
        minimum: 0,
    };
    assert_eq!(at_least_two.evaluate(&progresses), Ok(true));
    assert_eq!(at_least_one.evaluate(&progresses), Ok(false));
    assert_eq!(zero_minimum.evaluate(&progresses), Ok(true));
}

#[test]
fn evaluate_out_of_range_is_validation_error() {
    let progresses = vec![Progress::Count(3)];
    let req = Requirement::AtLeast {
        metric_index: 1,
        minimum: 1,
    };
    assert_eq!(req.evaluate(&progresses), Err(PollError::ValidationError));
}

#[test]
fn compute_state_conjunction() {
    let progresses = vec![Progress::Count(2), Progress::Count(5)];
    let result = PollResult {
        desc: "both".to_string(),
        requirements: vec![
            Requirement::AtLeast {
                metric_index: 0,
                minimum: 2,
            },
            Requirement::AtLeast {
                metric_index: 1,
                minimum: 6,
            },
        ],
    };
    let st = result.compute_state(&progresses).unwrap();
    assert_eq!(st.requirements_met, vec![true, false]);
    assert!(!st.overall_met);
}

#[test]
fn compute_state_empty_is_vacuously_true() {
    let progresses = vec![Progress::Count(0)];
    let result = PollResult {
        desc: "free".to_string(),
        requirements: vec![],
    };
    let st = result.compute_state(&progresses).unwrap();
    assert_eq!(st.requirements_met, Vec::<bool>::new());
    assert!(st.overall_met);
}

#[test]
fn compute_state_out_of_range_is_validation_error() {
    let progresses = vec![Progress::Count(0)];
    let result = PollResult {
        desc: "broken".to_string(),
        requirements: vec![Requirement::AtLeast {
            metric_index: 7,
            minimum: 1,
        }],
    };
    assert_eq!(result.compute_state(&progresses), Err(PollError::ValidationError));
}

#[test]
fn from_result_zeroes_every_slot() {
    let result = PollResult {
        desc: "r".to_string(),
        requirements: vec![
            Requirement::AtLeast {
                metric_index: 0,
                minimum: 1,
            },
            Requirement::AtLeast {
                metric_index: 0,
                minimum: 2,
            },
        ],
    };
    let st = ResultState::from_result(&result);
    assert_eq!(st.requirements_met, vec![false, false]);
    assert!(!st.overall_met);
}

#[test]
fn init_responses_per_form() {
    let poll = Poll {
        title: "t".to_string(),
        description: "d".to_string(),
        expiration: None,
        announcement: None,
        metric_trackers: vec![],
        results: vec![],
        status: PollStatus::SeekingResponses,
        questions: vec![
            question("a", one_or_none(&["x", "y"])),
            question("b", Form::One {
                options: vec!["x".to_string()],
            }),
            question("c", Form::Multiple {
                options: vec!["x".to_string(), "y".to_string()],
            }),
            question("d", Form::RankedChoice {
                options: vec!["x".to_string(), "y".to_string(), "z".to_string()],
            }),
            question("e", Form::YesNoNone),
            question("f", Form::YesNo),
        ],
    };
    let blank = poll.init_responses();
    assert_eq!(
        blank,
        vec![
            FormResponse::ChooseOneOrNone(None),
            FormResponse::ChooseOne(Choice::Index(0)),
            FormResponse::ChooseMultiple(vec![]),
            FormResponse::RankedChoice(vec![Choice::Index(0), Choice::Index(1), Choice::Index(2)]),
            FormResponse::ChooseOneOrNone(None),
            FormResponse::ChooseOne(Choice::YesOrNo(false)),
        ]
    );
    assert!(validate_responses(&poll.questions, &blank));
}

#[test]
fn init_from_questions_picks_first_question() {
    let questions = vec![question("a", one_or_none(&["x", "y"]))];
    let tracker = MetricTracker::init_from_questions(&questions).unwrap();
    assert_eq!(
        tracker,
        MetricTracker {
            metric: Metric::SpecificResponses {
                question_index: 0,
                choice: Choice::Index(0),
            },
            publicly_visible: false,
        }
    );
    let yes_no = vec![question("a", Form::YesNo)];
    let tracker = MetricTracker::init_from_questions(&yes_no).unwrap();
    assert_eq!(
        tracker.metric,
        Metric::SpecificResponses {
            question_index: 0,
            choice: Choice::YesOrNo(true),
        }
    );
    let none: Vec<Question> = Vec::new();
    assert_eq!(MetricTracker::init_from_questions(&none), None);
}

#[test]
fn render_names_the_choice_and_prompt() {
    let questions = vec![question("Are you going?", one_or_none(&["Yes", "No"]))];
    let m = Metric::SpecificResponses {
        question_index: 0,
        choice: Choice::Index(0),
    };
    assert_eq!(m.render(&questions), "Yes to Are you going?");
    let yes_no = vec![question("Coming?", Form::YesNo)];
    let m = Metric::SpecificResponses {
        question_index: 0,
        choice: Choice::YesOrNo(false),
    };
    assert_eq!(m.render(&yes_no), "No to Coming?");
}

#[test]
fn form_labels() {
    assert_eq!(one_or_none(&["x"]).label(), "Pick 1/None");
    assert_eq!(Form::One { options: vec![] }.label(), "Pick 1");
    assert_eq!(Form::Multiple { options: vec![] }.label(), "Pick Multiple");
    assert_eq!(Form::RankedChoice { options: vec![] }.label(), "Ranked Choice");
    assert_eq!(Form::YesNoNone.label(), "Yes/No/None");
    assert_eq!(Form::YesNo.label(), "Yes/No");
}

#[test]
fn defaults_match_the_drafting_flow() {
    assert_eq!(Form::default(), Form::OneOrNone { options: vec![] });
    assert_eq!(PollStatus::default(), PollStatus::SeekingResponses);
    let q = Question::default();
    assert_eq!(q.prompt, "");
    assert_eq!(q.form, Form::OneOrNone { options: vec![] });
    let r = PollResult::default();
    assert_eq!(r.desc, "");
    assert_eq!(
        r.requirements,
        vec![Requirement::AtLeast {
            metric_index: 0,
            minimum: 1,
        }]
    );
}

#[test]
fn response_shapes_are_checked() {
    let form = one_or_none(&["x", "y"]);
    assert!(check_response(&form, &FormResponse::ChooseOneOrNone(None)));
    assert!(check_response(&form, &FormResponse::ChooseOneOrNone(Some(Choice::Index(1)))));
    assert!(!check_response(&form, &FormResponse::ChooseOneOrNone(Some(Choice::Index(2)))));
    assert!(!check_response(&form, &FormResponse::ChooseOneOrNone(Some(Choice::YesOrNo(true)))));
    assert!(!check_response(&form, &FormResponse::ChooseOne(Choice::Index(0))));
    let multiple = Form::Multiple {
        options: vec!["x".to_string(), "y".to_string()],
    };
    assert!(check_response(&multiple, &FormResponse::ChooseMultiple(vec![Choice::Index(1)])));
    assert!(!check_response(&multiple, &FormResponse::ChooseMultiple(vec![Choice::Index(2)])));
    assert!(check_response(&Form::YesNo, &FormResponse::ChooseOne(Choice::YesOrNo(true))));
    assert!(!check_response(&Form::YesNo, &FormResponse::ChooseOne(Choice::Index(0))));
    let ranked = Form::RankedChoice {
        options: vec!["x".to_string(), "y".to_string()],
    };
    assert!(check_response(&ranked, &FormResponse::RankedChoice(vec![Choice::Index(1)])));
    assert!(!check_response(&ranked, &FormResponse::RankedChoice(vec![])));
    assert!(!check_response(&ranked, &FormResponse::RankedChoice(vec![Choice::Index(2)])));
}

#[test]
fn poll_computability_requires_indices_in_range() {
    let mut poll = Poll {
        title: "t".to_string(),
        description: "d".to_string(),
        expiration: None,
        announcement: None,
        metric_trackers: vec![MetricTracker {
            metric: Metric::SpecificResponses {
                question_index: 0,
                choice: Choice::Index(0),
            },
            publicly_visible: true,
        }],
        results: vec![PollResult {
            desc: "r".to_string(),
            requirements: vec![Requirement::AtLeast {
                metric_index: 0,
                minimum: 1,
            }],
        }],
        status: PollStatus::SeekingResponses,
        questions: vec![question("a", one_or_none(&["x"]))],
    };
    assert!(check_poll_computable(&poll));
    poll.metric_trackers[0].metric = Metric::SpecificResponses {
        question_index: 3,
        choice: Choice::Index(0),
    };
    assert!(!check_poll_computable(&poll));
    poll.metric_trackers[0].metric = Metric::SpecificResponses {
        question_index: 0,
        choice: Choice::Index(0),
    };
    poll.results[0].requirements[0] = Requirement::AtLeast {
        metric_index: 9,
        minimum: 1,
    };
    assert!(!check_poll_computable(&poll));
}
