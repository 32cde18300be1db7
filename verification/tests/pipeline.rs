use fanout::Data;
use fanout::Msg;
use fanout::process_msg;
use fanout::producer_messages;
use fanout::route;
use fanout::run_system;
use std::collections::HashMap;

fn expected_sum(producer: i32, count: usize) -> i32 {
    (0..count).map(|n| producer * 10 + n as i32).sum()
}

#[test]
fn normal_execution_all_data_counted() {
    let result = run_system(
        3,     // producers
        2,     // consumers
        5,     // messages per producer
        false, // no early Done
    );

    for p in 0..3 {
        let data = result.get(&p).expect("missing producer");
        assert!(data.closed, "producer {p} not closed");
        assert_eq!(
            data.sum,
            expected_sum(p, 5),
            "incorrect sum for producer {p}"
        );
    }
}

#[test]
fn no_double_done_corruption() {
    let result = run_system(3, 2, 5, true);

    for (_, data) in result {
        assert!(data.sum >= 0);
    }
}

#[test]
fn single_consumer_all_data_counted() {
    let result = run_system(3, 1, 5, false);

    for p in 0..3 {
        let data = result.get(&p).unwrap();
        assert!(data.closed);
        assert_eq!(data.sum, expected_sum(p, 5));
    }
}

#[test]
fn multiple_consumers_same_result() {
    let result = run_system(3, 4, 5, false);

    for p in 0..3 {
        let data = result.get(&p).unwrap();
        assert!(data.closed);
        assert_eq!(data.sum, expected_sum(p, 5));
    }
}

#[test]
fn early_done_ignores_late_data() {
    let result = run_system(3, 3, 5, true);

    for p in 0..3 {
        let data = result.get(&p).unwrap();
        assert!(data.closed);
        assert_eq!(data.sum, expected_sum(p, 3));
    }
}

#[test]
fn no_double_counting_with_many_consumers() {
    let result = run_system(5, 8, 100, false);

    for p in 0..5 {
        let data = result.get(&p).unwrap();
        assert_eq!(data.sum, expected_sum(p, 100));
    }
}

#[test]
fn system_terminates_cleanly() {
    let _ = run_system(5, 5, 10, false);
}

#[test]
fn example_scenario_single_worker() {
    let result = run_system(3, 1, 5, false);

    assert_eq!(result.len(), 3);
    let e0 = result.get(&0).unwrap();
    let e1 = result.get(&1).unwrap();
    let e2 = result.get(&2).unwrap();
    assert!(e0.closed && e1.closed && e2.closed);
    assert_eq!(e0.sum, 10);
    assert_eq!(e1.sum, 60);
    assert_eq!(e2.sum, 110);
}

#[test]
fn example_scenario_early_completion() {
    let result = run_system(3, 2, 5, true);

    assert_eq!(result.len(), 3);
    let e0 = result.get(&0).unwrap();
    let e1 = result.get(&1).unwrap();
    let e2 = result.get(&2).unwrap();
    assert!(e0.closed && e1.closed && e2.closed);
    assert_eq!(e0.sum, 3);
    assert_eq!(e1.sum, 33);
    assert_eq!(e2.sum, 63);
}

#[test]
fn worker_count_never_changes_the_result() {
    let baseline = run_system(4, 1, 7, false);
    for workers in [2, 3, 4, 8] {
        let result = run_system(4, workers, 7, false);
        assert_eq!(result.len(), baseline.len());
        for p in 0..4 {
            let a = baseline.get(&p).unwrap();
            let b = result.get(&p).unwrap();
            assert_eq!(a.sum, b.sum);
            assert_eq!(a.closed, b.closed);
        }
    }
}

#[test]
fn worker_count_never_changes_the_result_with_early_completion() {
    let baseline = run_system(4, 1, 7, true);
    for workers in [2, 3, 4, 8] {
        let result = run_system(4, workers, 7, true);
        for p in 0..4 {
            let a = baseline.get(&p).unwrap();
            let b = result.get(&p).unwrap();
            assert_eq!(a.sum, b.sum);
            assert_eq!(a.closed, b.closed);
        }
    }
}

#[test]
fn no_producers_gives_empty_store() {
    let result = run_system(0, 3, 5, false);
    assert!(result.is_empty());
}

#[test]
fn zero_messages_still_closes_every_producer() {
    let result = run_system(2, 3, 0, false);
    assert_eq!(result.len(), 2);
    for p in 0..2 {
        let data = result.get(&p).unwrap();
        assert!(data.closed);
        assert_eq!(data.sum, 0);
    }
}

#[test]
fn short_stream_never_reaches_the_early_completion() {
    // The early `Done` is injected just before index 3; a stream of two
    // messages never gets there, so everything is counted.
    let result = run_system(1, 1, 2, true);
    let data = result.get(&0).unwrap();
    assert!(data.closed);
    assert_eq!(data.sum, 1);
}

#[test]
fn producer_stream_has_the_documented_shape() {
    let msgs = producer_messages(1, 5, true);
    // `None` stands for a `Done` of producer 1.
    let expected = [
        Some(10),
        Some(11),
        Some(12),
        None,
        Some(13),
        Some(14),
        None,
    ];
    assert_eq!(msgs.len(), expected.len());
    for (msg, want) in msgs.iter().zip(expected.iter()) {
        match (msg, want) {
            (Msg::Data { producer: 1, value }, Some(v)) => assert_eq!(value, v),
            (Msg::Done { producer: 1 }, None) => {}
            _ => panic!("unexpected message in the stream"),
        }
    }
}

#[test]
fn producer_stream_without_injection_ends_with_one_done() {
    let msgs = producer_messages(2, 3, false);
    assert_eq!(msgs.len(), 4);
    for (n, msg) in msgs.iter().take(3).enumerate() {
        match msg {
            Msg::Data { producer, value } => {
                assert_eq!(*producer, 2);
                assert_eq!(*value, 20 + n as i32);
            }
            _ => panic!("expected a data message at index {n}"),
        }
    }
    assert!(matches!(msgs[3], Msg::Done { producer: 2 }));
}

#[test]
fn routing_is_total_and_in_range() {
    assert_eq!(route(0, 2), 0);
    assert_eq!(route(5, 2), 1);
    assert_eq!(route(7, 3), 1);
    // More sources than workers is fine: routing wraps around instead of
    // indexing out of bounds.
    assert_eq!(route(9, 4), 1);
    for source in 0..100 {
        assert!(route(source, 7) < 7);
    }
}

#[test]
fn data_for_an_open_source_is_added() {
    let mut state: HashMap<i32, Data> = HashMap::new();
    let stop = process_msg(Msg::Data { producer: 4, value: 11 }, &mut state);
    assert!(!stop);
    let stop = process_msg(Msg::Data { producer: 4, value: 6 }, &mut state);
    assert!(!stop);
    let entry = state.get(&4).unwrap();
    assert_eq!(entry.sum, 17);
    assert!(!entry.closed);
}

#[test]
fn data_after_done_is_discarded() {
    let mut state: HashMap<i32, Data> = HashMap::new();
    process_msg(Msg::Data { producer: 0, value: 5 }, &mut state);
    process_msg(Msg::Done { producer: 0 }, &mut state);
    process_msg(Msg::Data { producer: 0, value: 100 }, &mut state);
    let entry = state.get(&0).unwrap();
    assert_eq!(entry.sum, 5);
    assert!(entry.closed);
}

#[test]
fn done_twice_is_idempotent() {
    let mut state: HashMap<i32, Data> = HashMap::new();
    process_msg(Msg::Data { producer: 7, value: 9 }, &mut state);
    process_msg(Msg::Done { producer: 7 }, &mut state);
    let after_first: (i32, bool) = {
        let e = state.get(&7).unwrap();
        (e.sum, e.closed)
    };
    process_msg(Msg::Done { producer: 7 }, &mut state);
    let e = state.get(&7).unwrap();
    assert_eq!((e.sum, e.closed), after_first);
    assert!(e.closed);
}

#[test]
fn done_for_an_unseen_source_creates_a_closed_entry() {
    let mut state: HashMap<i32, Data> = HashMap::new();
    process_msg(Msg::Done { producer: 3 }, &mut state);
    let e = state.get(&3).unwrap();
    assert_eq!(e.sum, 0);
    assert!(e.closed);
}

#[test]
fn shutdown_stops_the_worker_and_touches_nothing() {
    let mut state: HashMap<i32, Data> = HashMap::new();
    process_msg(Msg::Data { producer: 1, value: 2 }, &mut state);
    let stop = process_msg(Msg::Shutdown, &mut state);
    assert!(stop);
    assert_eq!(state.len(), 1);
    let e = state.get(&1).unwrap();
    assert_eq!(e.sum, 2);
    assert!(!e.closed);
}
