use poll_engine::schema::Choice;
use poll_engine::schema::Form;
use poll_engine::schema::FormResponse;
use poll_engine::schema::Metric;
use poll_engine::schema::MetricTracker;
use poll_engine::schema::Poll;
use poll_engine::schema::PollResult;
use poll_engine::schema::PollStatus;
use poll_engine::schema::Question;
use poll_engine::schema::Requirement;
use poll_engine::snapshot::load;
use poll_engine::snapshot::save;
use poll_engine::store::PollStore;

fn busy_store() -> PollStore {
    let mut store = PollStore::seeded();
    let key = store.create_poll(Poll {
        title: "Lunch".to_string(),
        description: "Where to?".to_string(),
        expiration: Some(1_700_000_000),
        announcement: Some("bring cash".to_string()),
        metric_trackers: vec![MetricTracker {
            metric: Metric::SpecificResponses {
                question_index: 0,
                choice: Choice::Index(1),
            },
            publicly_visible: true,
        }],
        results: vec![PollResult {
            desc: "tacos win".to_string(),
            requirements: vec![Requirement::AtLeast {
                metric_index: 0,
                minimum: 1,
            }],
        }],
        status: PollStatus::SeekingResponses,
        questions: vec![Question {
            prompt: "Pick a place".to_string(),
            form: Form::RankedChoice {
                options: vec!["deli".to_string(), "taqueria".to_string()],
            },
        }],
    });
    store
        .submit_response(
            key,
            "Ana".to_string(),
            vec![FormResponse::RankedChoice(vec![Choice::Index(1), Choice::Index(0)])],
        )
        .unwrap();
    store
        .submit_response(
            key,
            "Benny".to_string(),
            vec![FormResponse::RankedChoice(vec![Choice::Index(0), Choice::Index(1)])],
        )
        .unwrap();
    store
}

#[test]
fn round_trip_empty_store() {
    let store = PollStore::new();
    let bytes = save(&store);
    let back = load(&bytes).unwrap();
    assert_eq!(back, store);
}

#[test]
fn round_trip_seeded_store() {
    let store = PollStore::seeded();
    let bytes = save(&store);
    let back = load(&bytes).unwrap();
    assert_eq!(back, store);
}

#[test]
fn round_trip_store_with_answers() {
    let store = busy_store();
    let bytes = save(&store);
    let back = load(&bytes).unwrap();
    assert_eq!(back, store);
    // The restored store keeps serving the same derived state.
    assert_eq!(back.get_progress(1), store.get_progress(1));
}

#[test]
fn round_trip_keeps_every_character() {
    let mut store = PollStore::new();
    let key = store.create_poll(Poll {
        title: "Fête 🎉 øß漢字".to_string(),
        description: "".to_string(),
        expiration: None,
        announcement: Some("παρακαλώ".to_string()),
        metric_trackers: vec![],
        results: vec![],
        status: PollStatus::Closed,
        questions: vec![],
    });
    let bytes = save(&store);
    let back = load(&bytes).unwrap();
    assert_eq!(back, store);
    let poll = back.get_poll(key).unwrap();
    assert_eq!(poll.title, "Fête 🎉 øß漢字");
    assert_eq!(poll.announcement.as_deref(), Some("παρακαλώ"));
}

#[test]
fn load_rejects_garbage() {
    assert_eq!(load(&Vec::new()), None);
    assert_eq!(load(&vec![0xde, 0xad, 0xbe, 0xef]), None);
    let mut huge_count = vec![0xff; 16];
    huge_count.extend(vec![0u8; 64]);
    assert_eq!(load(&huge_count), None);
}

#[test]
fn load_rejects_trailing_bytes() {
    let store = busy_store();
    let mut bytes = save(&store);
    bytes.push(0);
    assert_eq!(load(&bytes), None);
}

#[test]
fn load_rejects_truncated_snapshots() {
    let store = busy_store();
    let bytes = save(&store);
    let truncated: Vec<u8> = bytes[..bytes.len() - 3].to_vec();
    assert_eq!(load(&truncated), None);
}
