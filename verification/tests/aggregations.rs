use online_history::aggregation::{Aggregation, Progress};
use online_history::error::{AggregationError, InvalidInputError, StoreAccessError};
use online_history::history::History;
use online_history::timespan::TimeSpan;

const FIRST: &str = "dc1a46a3-6e0f-4a9b-9e37-22291471e8e5";
const FIRST_NUMBER: u128 = 0xdc1a46a3_6e0f_4a9b_9e37_22291471e8e5;
const SECOND: &str = "936da01f-9abd-4d9d-80c7-02af85c822a8";
const SECOND_NUMBER: u128 = 0x936da01f_9abd_4d9d_80c7_02af85c822a8;

fn run(
    listed: Result<Vec<&str>, StoreAccessError>,
    answers: Vec<Result<Vec<i64>, StoreAccessError>>,
) -> Result<Vec<History>, AggregationError> {
    let listed = listed.map(|names| names.into_iter().map(String::from).collect::<Vec<String>>());
    let asked: Vec<String> = match &listed {
        Ok(names) => names.clone(),
        Err(_) => Vec::new(),
    };
    let mut progress = Aggregation::begin(listed)?;
    let mut answers = answers.into_iter();
    let mut at = 0;
    loop {
        match progress {
            Progress::Done(histories) => {
                assert_eq!(at, asked.len());
                return Ok(histories);
            }
            Progress::Fetch(state) => {
                assert_eq!(state.pending(), asked[at]);
                at += 1;
                progress = state.absorb(answers.next().unwrap())?;
            }
        }
    }
}

#[test]
fn empty_store_has_no_histories() {
    assert_eq!(run(Ok(Vec::new()), Vec::new()), Ok(Vec::new()));
}

#[test]
fn failed_listing_fails_the_aggregation() {
    assert_eq!(run(Err(StoreAccessError {}), Vec::new()), Err(AggregationError::StoreAccess));
}

#[test]
fn failed_fetch_fails_the_aggregation() {
    assert_eq!(
        run(
            Ok(vec![FIRST, SECOND]),
            vec![Ok(vec![1, 2, 3, 4, 5]), Err(StoreAccessError {})]
        ),
        Err(AggregationError::StoreAccess)
    );
    assert_eq!(
        run(Ok(vec![FIRST, SECOND]), vec![Err(StoreAccessError {})]),
        Err(AggregationError::StoreAccess)
    );
}

#[test]
fn four_pings_never_show() {
    assert_eq!(run(Ok(vec![FIRST]), vec![Ok(vec![10, 20, 30, 40])]), Ok(Vec::new()));
    assert_eq!(
        run(
            Ok(vec![FIRST, SECOND]),
            vec![Ok(vec![10, 20, 30, 40]), Ok(vec![10, 20, 30, 40, 50])]
        ),
        run(Ok(vec![SECOND]), vec![Ok(vec![10, 20, 30, 40, 50])])
    );
}

#[test]
fn five_pings_show_with_one_session() {
    assert_eq!(
        run(Ok(vec![FIRST]), vec![Ok(vec![10, 20, 30, 40, 50])]),
        Ok(vec![History {
            user: FIRST_NUMBER,
            online_history: vec![TimeSpan { start: 10, end: 50, duration: 40 }],
        }])
    );
}

#[test]
fn unreadable_identity_is_left_out_and_the_others_stay() {
    assert_eq!(
        run(
            Ok(vec![FIRST, "no identifier", SECOND]),
            vec![
                Ok(vec![1000, 1100, 1200, 6000, 6100, 6200]),
                Ok(vec![1, 2, 3, 4, 5, 6]),
                Ok(vec![5, 5, 5, 5, 5]),
            ]
        ),
        Ok(vec![
            History {
                user: FIRST_NUMBER,
                online_history: vec![
                    TimeSpan { start: 1000, end: 1200, duration: 200 },
                    TimeSpan { start: 6000, end: 6200, duration: 200 },
                ],
            },
            History {
                user: SECOND_NUMBER,
                online_history: vec![TimeSpan { start: 5, end: 5, duration: 0 }],
            },
        ])
    );
}

#[test]
fn histories_come_in_the_order_of_the_listing() {
    let first = vec![1, 2, 3, 4, 5];
    let second = vec![100, 200, 300, 400, 1000];
    let forth = run(Ok(vec![FIRST, SECOND]), vec![Ok(first.clone()), Ok(second.clone())]).unwrap();
    let back = run(Ok(vec![SECOND, FIRST]), vec![Ok(second), Ok(first)]).unwrap();
    assert_eq!(forth.len(), 2);
    assert_eq!(forth[0].user, FIRST_NUMBER);
    assert_eq!(forth[1].user, SECOND_NUMBER);
    assert_eq!(
        forth[1].online_history,
        vec![
            TimeSpan { start: 100, end: 400, duration: 300 },
            TimeSpan { start: 1000, end: 1000, duration: 0 },
        ]
    );
    assert_eq!(back, vec![forth[1].clone(), forth[0].clone()]);
}

#[test]
fn faulty_answer_fails_the_aggregation() {
    assert_eq!(
        run(
            Ok(vec![FIRST, SECOND]),
            vec![Ok(vec![1, 2, 3, 4, 5]), Ok(vec![1, 2, 3, 5, 4])]
        ),
        Err(AggregationError::InvalidInput(InvalidInputError::Unsorted { index: 4 }))
    );
    assert_eq!(
        run(Ok(vec![FIRST, SECOND]), vec![Ok(vec![i64::MIN, 2, 3, 4, 5])]),
        Err(AggregationError::InvalidInput(InvalidInputError::OutOfRange { index: 0 }))
    );
}

#[test]
fn pending_follows_the_listing() {
    let listed = vec![String::from(FIRST), String::from(SECOND)];
    let state = match Aggregation::begin(Ok(listed)) {
        Ok(Progress::Fetch(state)) => state,
        _ => panic!("two identities are listed"),
    };
    assert_eq!(state.pending(), FIRST);
    let state = match state.absorb(Ok(Vec::new())) {
        Ok(Progress::Fetch(state)) => state,
        _ => panic!("one identity is left"),
    };
    assert_eq!(state.pending(), SECOND);
    match state.absorb(Ok(Vec::new())) {
        Ok(Progress::Done(histories)) => assert_eq!(histories, Vec::new()),
        _ => panic!("no identity is left"),
    }
}
