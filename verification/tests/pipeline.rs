use matrix_pipeline::decode::DecodeError;
use matrix_pipeline::number::Number;
use matrix_pipeline::parser::{parse, ParseError};
use matrix_pipeline::pipeline::{Action, Config, Event, Pipeline, State, StorageEvent};
use matrix_pipeline::response::{InvocationOutcome, PipelineError, Stage};

const NOT_SAVED: &str = "The lambda encountered an error and your calculation wasn't saved";
const NOT_STORED: &str = "The lambda encountered an error and your message was not saved";
const NOT_READ: &str =
    "The lambda could not read your file as a linear equation and your calculation wasn't saved";
const NOT_SOLVED: &str =
    "The lambda could not solve your linear equation and your calculation wasn't saved";

fn begin(key: &str) -> (Pipeline, Action) {
    Pipeline::start(
        Config { read_bucket: "uploads".to_string(), write_bucket: "results".to_string() },
        StorageEvent { key: key.to_string() },
    )
}

fn failure(message: &str) -> Action {
    Action::Finish(InvocationOutcome::Failure { message: message.to_string() })
}

fn success(message: &str) -> Action {
    Action::Finish(InvocationOutcome::Success { message: message.to_string() })
}

fn solving(key: &str, text: &str) -> Pipeline {
    let (mut p, _) = begin(key);
    let action = p.step(Event::Fetched(text.as_bytes().to_vec()));
    assert!(matches!(action, Action::Solve(_)));
    p
}

fn storing(key: &str, solution: Option<&str>) -> Pipeline {
    let mut p = solving(key, "2 0\n0 2\n4 4");
    let action = p.step(Event::Solved(solution.map(|s| s.to_string())));
    assert!(matches!(action, Action::Store { .. }));
    p
}

fn all_events() -> Vec<Event> {
    vec![
        Event::Fetched(b"1\n1".to_vec()),
        Event::FetchFailed,
        Event::Decoded(Ok("1\n1".to_string())),
        Event::Decoded(Err(DecodeError { detail: "broken".to_string() })),
        Event::Solved(Some("[1.0]".to_string())),
        Event::Solved(None),
        Event::SolveFailed,
        Event::Stored,
        Event::StoreFailed,
    ]
}

fn values(numbers: &Vec<Number>) -> Vec<f64> {
    numbers
        .iter()
        .map(|n| std::str::from_utf8(n.as_bytes()).unwrap().parse::<f64>().unwrap())
        .collect()
}

#[test]
fn a_run_starts_by_fetching_the_object_from_the_read_bucket() {
    let (p, action) = begin("system.txt");
    assert_eq!(
        action,
        Action::Fetch { bucket: "uploads".to_string(), key: "system.txt".to_string() }
    );
    assert_eq!(p.state, State::Fetching);
    assert_eq!(p.read_bucket, "uploads");
    assert_eq!(p.write_bucket, "results");
    assert_eq!(p.key, "system.txt");
    assert!(!p.is_over());
    assert_eq!(p.result(), None);
}

#[test]
fn a_run_from_upload_to_stored_solution() {
    let (mut p, _) = begin("system.txt");

    let action = p.step(Event::Fetched(b"2 0\n0 2\n4 4".to_vec()));
    let system = match action {
        Action::Solve(system) => system,
        other => panic!("unexpected action {:?}", other),
    };
    assert_eq!(p.state, State::Solving);
    assert_eq!(system.dimension(), 2);
    assert_eq!(values(system.matrix()), vec![2.0, 0.0, 0.0, 2.0]);
    assert_eq!(values(system.vector()), vec![4.0, 4.0]);

    let rendering = format!("{:?}", vec![2.0, 2.0]);
    let action = p.step(Event::Solved(Some(rendering)));
    assert_eq!(
        action,
        Action::Store {
            bucket: "results".to_string(),
            key: "system.txt".to_string(),
            body: "[2.0, 2.0]".to_string(),
            content_type: "text/plain".to_string(),
        }
    );
    assert_eq!(p.state, State::Storing { result: "[2.0, 2.0]".to_string() });
    assert!(!p.is_over());

    let action = p.step(Event::Stored);
    let message = "Result was: [2.0, 2.0], it was stored in bucket results/system.txt";
    assert_eq!(action, success(message));
    assert_eq!(p.state, State::Done { message: message.to_string() });
    assert!(p.is_over());
    assert_eq!(p.result(), Some(InvocationOutcome::Success { message: message.to_string() }));
}

#[test]
fn the_system_handed_to_the_solver_is_what_the_parser_reads() {
    let text = "1 2\n3 4\n5 6\n7 8";
    let (mut p, _) = begin("k");
    assert_eq!(
        p.step(Event::Fetched(text.as_bytes().to_vec())),
        Action::Solve(parse(text).unwrap())
    );
}

#[test]
fn no_solution_is_stored_in_fixed_words_and_is_a_success() {
    let mut p = solving("unsolvable.txt", "1 1\n1 1\n1 2");
    let action = p.step(Event::Solved(None));
    assert_eq!(
        action,
        Action::Store {
            bucket: "results".to_string(),
            key: "unsolvable.txt".to_string(),
            body: "No solution found".to_string(),
            content_type: "text/plain".to_string(),
        }
    );
    let action = p.step(Event::Stored);
    assert_eq!(
        action,
        success("Result was: No solution found, it was stored in bucket results/unsolvable.txt")
    );
    assert!(matches!(p.result(), Some(InvocationOutcome::Success { .. })));
}

#[test]
fn a_failed_fetch_fails_the_run_and_nothing_is_written() {
    let (mut p, _) = begin("missing.txt");
    assert_eq!(p.step(Event::FetchFailed), failure(NOT_SAVED));
    assert_eq!(p.state, State::Failed { error: PipelineError::Fetch });
    assert!(p.is_over());
    for event in all_events() {
        let action = p.step(event);
        assert_eq!(action, failure(NOT_SAVED));
        assert_eq!(p.state, State::Failed { error: PipelineError::Fetch });
    }
}

#[test]
fn a_failed_store_fails_the_run_though_a_solution_was_computed() {
    let mut p = storing("system.txt", Some("[2.0, 2.0]"));
    assert_eq!(p.step(Event::StoreFailed), failure(NOT_STORED));
    assert_eq!(p.state, State::Failed { error: PipelineError::Store });
    assert_eq!(
        p.result(),
        Some(InvocationOutcome::Failure { message: NOT_STORED.to_string() })
    );
}

#[test]
fn bytes_that_are_no_text_fail_the_run_with_the_words_of_the_decoder() {
    let bytes = vec![b'1', b' ', 0xff];
    let detail = String::from_utf8(bytes.clone()).unwrap_err().to_string();
    let (mut p, _) = begin("binary");
    assert_eq!(p.step(Event::Fetched(bytes)), failure(&detail));
    match &p.state {
        State::Failed { error } => {
            assert_eq!(error.stage(), Stage::Decoding);
            assert_eq!(error, &PipelineError::Decode(DecodeError { detail }));
        },
        other => panic!("unexpected state {:?}", other),
    }
}

#[test]
fn an_object_that_cannot_be_read_in_full_fails_at_decoding() {
    let (mut p, _) = begin("k");
    let e = DecodeError { detail: "connection reset".to_string() };
    assert_eq!(p.step(Event::Decoded(Err(e))), failure("connection reset"));
    assert_eq!(
        p.state,
        State::Failed {
            error: PipelineError::Decode(DecodeError { detail: "connection reset".to_string() })
        }
    );
}

#[test]
fn text_decoded_by_the_driver_is_parsed_like_fetched_bytes() {
    let (mut p, _) = begin("k");
    let (mut q, _) = begin("k");
    let text = "2 0\n0 2\n4 4";
    assert_eq!(
        p.step(Event::Decoded(Ok(text.to_string()))),
        q.step(Event::Fetched(text.as_bytes().to_vec()))
    );
    assert_eq!(p, q);
}

#[test]
fn text_that_is_no_system_fails_at_parsing_and_keeps_the_fault() {
    let cases: Vec<(&str, ParseError)> = vec![
        ("", ParseError::EmptyInput),
        ("1 2\n3", ParseError::RowLengthMismatch { expected: 2, actual: 1, line_index: 1 }),
        ("1 2 3\n4 5 6", ParseError::InsufficientData),
        ("1 x", ParseError::MalformedNumber { token: b"x".to_vec(), line_index: 0 }),
    ];
    for (text, fault) in cases {
        let (mut p, _) = begin("k");
        assert_eq!(p.step(Event::Fetched(text.as_bytes().to_vec())), failure(NOT_READ));
        assert_eq!(p.state, State::Failed { error: PipelineError::Parse(fault) });
        for event in all_events() {
            assert_eq!(p.step(event), failure(NOT_READ));
        }
    }
}

#[test]
fn a_solver_that_fails_fails_the_run() {
    let mut p = solving("k", "1\n1");
    assert_eq!(p.step(Event::SolveFailed), failure(NOT_SOLVED));
    assert_eq!(p.state, State::Failed { error: PipelineError::Solve });
}

#[test]
fn an_event_out_of_turn_fails_the_step_that_was_waited_for() {
    for event in all_events() {
        let expected = matches!(event, Event::Fetched(_) | Event::Decoded(_));
        let (mut p, _) = begin("k");
        let action = p.step(event);
        if !expected {
            assert_eq!(action, failure(NOT_SAVED));
            assert_eq!(p.state, State::Failed { error: PipelineError::Fetch });
        }
    }
    for event in all_events() {
        let expected = matches!(event, Event::Solved(_));
        let mut p = solving("k", "1\n1");
        let action = p.step(event);
        if !expected {
            assert_eq!(action, failure(NOT_SOLVED));
            assert_eq!(p.state, State::Failed { error: PipelineError::Solve });
        }
    }
    for event in all_events() {
        let expected = matches!(event, Event::Stored);
        let mut p = storing("k", None);
        let action = p.step(event);
        if !expected {
            assert_eq!(action, failure(NOT_STORED));
            assert_eq!(p.state, State::Failed { error: PipelineError::Store });
        }
    }
}

#[test]
fn a_store_is_asked_for_only_when_the_solver_answered() {
    for first in all_events() {
        let (mut p, _) = begin("k");
        assert!(!matches!(p.step(first), Action::Store { .. }));
    }
    for second in all_events() {
        let answered = matches!(second, Event::Solved(_));
        let mut p = solving("k", "1\n1");
        assert_eq!(matches!(p.step(second), Action::Store { .. }), answered);
    }
    for third in all_events() {
        let mut p = storing("k", Some("[1.0]"));
        assert!(!matches!(p.step(third), Action::Store { .. }));
    }
}

#[test]
fn a_finished_run_reports_the_same_result_again() {
    let mut p = storing("k", Some("[1.0]"));
    let first = p.step(Event::Stored);
    let state = State::Done {
        message: "Result was: [1.0], it was stored in bucket results/k".to_string(),
    };
    assert_eq!(p.state, state);
    for event in all_events() {
        assert_eq!(p.step(event), first);
        assert_eq!(p.state, state);
    }
}

#[test]
fn every_run_is_over_after_three_events() {
    for first in all_events() {
        for second in all_events() {
            for third in all_events() {
                let (mut p, _) = begin("k");
                p.step(copy_of(&first));
                p.step(copy_of(&second));
                let last = p.step(copy_of(&third));
                assert!(p.is_over());
                assert!(matches!(last, Action::Finish(_)));
                assert_eq!(p.result().map(Action::Finish), Some(last));
                assert_eq!(p.read_bucket, "uploads");
                assert_eq!(p.write_bucket, "results");
                assert_eq!(p.key, "k");
            }
        }
    }
}

fn copy_of(event: &Event) -> Event {
    match event {
        Event::Fetched(bytes) => Event::Fetched(bytes.clone()),
        Event::FetchFailed => Event::FetchFailed,
        Event::Decoded(Ok(text)) => Event::Decoded(Ok(text.clone())),
        Event::Decoded(Err(e)) => Event::Decoded(Err(DecodeError { detail: e.detail.clone() })),
        Event::Solved(solution) => Event::Solved(solution.clone()),
        Event::SolveFailed => Event::SolveFailed,
        Event::Stored => Event::Stored,
        Event::StoreFailed => Event::StoreFailed,
    }
}
