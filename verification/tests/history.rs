//! The ring of generations and the pin.
use ramjet_ingress::calendar::{civil_from_days, Moment};
use ramjet_ingress::history::{
    rfc3339, CertKeys, GenerationHistory, PinChange, PinError, Snapshot, Step,
};
use ramjet_ingress::tls::CertStore;
use std::sync::Arc;

/// A table at `generation` that sends everything to `port`, so two generations
/// can be told apart by where they send a request.
fn table(generation: u64, port: u16) -> Arc<Snapshot<Option<u16>>> {
    Arc::new(Snapshot {
        generation,
        route_count: 1,
        host_count: 1,
        wildcard_host_count: 0,
        table: Some(port),
    })
}

fn history(capacity: usize) -> GenerationHistory<Option<u16>> {
    let empty = Arc::new(Snapshot {
        generation: 0,
        route_count: 0,
        host_count: 0,
        wildcard_host_count: 0,
        table: None,
    });
    GenerationHistory::new(empty, CertStore::new(), capacity)
}

fn record(history: &mut GenerationHistory<Option<u16>>, generation: u64, port: u16) -> bool {
    history.record(
        generation,
        generation,
        Arc::new(serde_json::Value::Null),
        table(generation, port),
        Arc::new(CertKeys::new()),
        Moment::Since(generation),
    )
}

/// Which port the published table currently sends everything to.
fn serving_port(history: &GenerationHistory<Option<u16>>) -> Option<u16> {
    history.live().table
}

#[test]
fn the_ring_evicts_the_oldest_generation() {
    let mut history = history(3);
    for generation in 1..=5 {
        record(&mut history, generation, 8080);
    }

    let held: Vec<u64> =
        history.with_records(|_, ring| ring.iter().map(|r| r.generation).collect());
    assert_eq!(held, vec![3, 4, 5], "the ring keeps the newest `capacity`");
}

#[test]
fn a_history_of_zero_still_holds_one_generation() {
    // A ring that keeps nothing could never answer a rollback, which is
    // the only reason it exists.
    let mut history = history(0);
    assert_eq!(history.capacity(), 1);
    record(&mut history, 1, 8080);
    assert_eq!(history.with_records(|_, ring| ring.len()), 1);
}

#[test]
fn recording_publishes_when_nothing_is_pinned() {
    let mut history = history(5);
    assert!(record(&mut history, 1, 8080));
    assert_eq!(history.serving(), 1);
    assert_eq!(serving_port(&history), Some(8080));
    assert_eq!(history.pinned(), None);
}

/// The whole state machine, in the order an incident goes: pin an old
/// generation, watch the controller keep working without reaching the
/// wire, then resume onto the newest thing it built.
#[test]
fn a_pin_holds_publication_and_resuming_jumps_to_the_latest() {
    let mut history = history(5);
    record(&mut history, 1, 8080);
    record(&mut history, 2, 8081);
    assert_eq!(serving_port(&history), Some(8081));

    history.pin(1).expect("generation 1 is in the ring");
    assert_eq!(history.pinned(), Some(1));
    assert_eq!(history.serving(), 1);
    assert_eq!(serving_port(&history), Some(8080), "the pinned table is back on the wire");

    // The controller has not stopped. Generations keep arriving and keep
    // being recorded; none of them reach the data plane.
    assert!(!record(&mut history, 3, 8082));
    assert!(!record(&mut history, 4, 8083));
    assert_eq!(history.serving(), 1);
    assert_eq!(serving_port(&history), Some(8080));

    let published: Vec<(u64, bool)> = history
        .with_records(|_, ring| ring.iter().map(|r| (r.generation, r.published)).collect());
    assert_eq!(
        published,
        vec![(1, true), (2, true), (3, false), (4, false)],
        "a live generation recorded behind a pin must say it did not go live"
    );

    assert_eq!(history.unpin(), Some(4));
    assert_eq!(history.pinned(), None);
    assert_eq!(history.serving(), 4, "resuming publishes the newest, not the next");
    assert_eq!(serving_port(&history), Some(8083));

    let published: Vec<(u64, bool)> = history
        .with_records(|_, ring| ring.iter().map(|r| (r.generation, r.published)).collect());
    assert_eq!(
        published,
        vec![(1, true), (2, true), (3, false), (4, true)],
        "resuming makes the newest live and leaves the ones it skipped saying they never were"
    );
}

#[test]
fn pinning_an_unknown_generation_is_refused() {
    let mut history = history(2);
    record(&mut history, 1, 8080);
    record(&mut history, 2, 8081);
    record(&mut history, 3, 8082);

    assert_eq!(
        history.pin(1),
        Err(PinError::Unknown(1)),
        "generation 1 was evicted"
    );
    assert_eq!(history.pin(99), Err(PinError::Unknown(99)));
    assert_eq!(history.pinned(), None);
    assert_eq!(history.serving(), 3, "a refused pin changes nothing");
    assert_eq!(PinError::Unknown(99).to_text(), "generation 99 is not in the history");
}

#[test]
fn pinning_twice_names_what_is_already_pinned() {
    let mut history = history(5);
    record(&mut history, 1, 8080);
    record(&mut history, 2, 8081);

    history.pin(1).expect("pins");
    assert_eq!(history.pin(2), Err(PinError::AlreadyPinned(1)));
    assert_eq!(history.pinned(), Some(1), "the first pin stands");
    assert_eq!(PinError::AlreadyPinned(1).to_text(), "already pinned to generation 1");
}

#[test]
fn releasing_a_pin_nobody_set_is_not_an_error() {
    let mut history = history(5);
    record(&mut history, 1, 8080);
    assert_eq!(history.unpin(), None);
    assert_eq!(history.unpin(), None);
    assert_eq!(history.serving(), 1);
}

#[test]
fn a_pinned_generation_is_not_evicted_by_the_generations_it_is_holding_back() {
    // Otherwise a long pin would quietly lose the only copy of the thing
    // it is serving, and releasing would be the only way to notice.
    let mut history = history(3);
    record(&mut history, 1, 8080);
    history.pin(1).expect("pins");
    for generation in 2..=6 {
        record(&mut history, generation, 8080 + generation as u16);
    }

    let held: Vec<u64> =
        history.with_records(|_, ring| ring.iter().map(|r| r.generation).collect());
    assert!(
        !held.contains(&1),
        "this documents the eviction that does happen: the ring is a ring"
    );
    assert_eq!(history.pinned(), Some(1));
}

#[test]
fn pin_and_resume_are_announced() {
    let mut history = history(5);
    history.notify();

    record(&mut history, 1, 8080);
    record(&mut history, 2, 8081);
    history.pin(1).expect("pins");
    history.unpin();

    assert_eq!(
        history.take_changes(),
        vec![
            PinChange::Pinned {
                generation: 1,
                replaced: 2
            },
            PinChange::Resumed { generation: 2 },
        ],
        "recording a generation is not a pin change"
    );
    assert!(history.take_changes().is_empty());
}

#[test]
fn timestamps_are_rfc3339_in_utc() {
    assert_eq!(rfc3339(Moment::Since(0)), "1970-01-01T00:00:00Z");
    assert_eq!(rfc3339(Moment::Since(1_000_000_000)), "2001-09-09T01:46:40Z");
    // A leap day, which is where a hand-rolled calendar goes wrong.
    assert_eq!(rfc3339(Moment::Since(1_709_164_800)), "2024-02-29T00:00:00Z");
    // 2000 is a leap year and 1900 was not; the era arithmetic is what
    // gets that right.
    assert_eq!(rfc3339(Moment::Since(951_782_400)), "2000-02-29T00:00:00Z");
    assert_eq!(rfc3339(Moment::Since(1_767_225_599)), "2025-12-31T23:59:59Z");
}

#[test]
fn a_clock_that_was_stepped_back_is_still_written() {
    assert_eq!(rfc3339(Moment::Before(1)), "1969-12-31T23:59:59Z");
    assert_eq!(rfc3339(Moment::Before(2_203_891_200)), "1900-03-01T00:00:00Z");
}

#[test]
fn nobody_is_told_who_did_not_ask() {
    let mut history = history(5);
    record(&mut history, 1, 8080);
    history.pin(1).expect("pins");
    history.unpin();
    assert!(history.take_changes().is_empty());
}

#[test]
fn a_generation_that_comes_again_is_the_newest() {
    let mut history = history(5);
    record(&mut history, 1, 8080);
    record(&mut history, 2, 8081);
    record(&mut history, 1, 8090);
    let held: Vec<u64> = history.records().iter().map(|r| r.generation).collect();
    assert_eq!(held, vec![2, 1]);
    assert_eq!(serving_port(&history), Some(8090));
}

#[test]
fn certificates_are_stored_before_the_table_that_names_them() {
    let mut history = history(5);
    record(&mut history, 4, 8080);
    let (first, second) = history.publication();
    assert!(matches!(first, Step::Certificates(keys) if keys.is_empty()));
    assert!(matches!(second, Step::Routes(table) if table.generation == 4));
}

#[test]
fn timestamps_sort_as_the_moments_they_show() {
    let moments: Vec<Moment> = vec![
        Moment::Before(62_167_219_200),
        Moment::Before(31_556_952_000),
        Moment::Before(2_203_891_201),
        Moment::Before(2_203_891_200),
        Moment::Before(1),
        Moment::Since(0),
        Moment::Since(59),
        Moment::Since(60),
        Moment::Since(86_399),
        Moment::Since(86_400),
        Moment::Since(951_782_399),
        Moment::Since(951_782_400),
        Moment::Since(1_709_164_800),
        Moment::Since(4_102_444_800),
        Moment::Since(253_402_300_799),
    ];
    let shown: Vec<String> = moments.iter().map(|moment| rfc3339(*moment)).collect();
    for pair in shown.windows(2) {
        assert!(pair[0] < pair[1], "{pair:?}");
    }
    for stamp in &shown {
        assert_eq!(stamp.len(), 20, "{stamp}");
        for (place, byte) in stamp.bytes().enumerate() {
            match place {
                4 | 7 => assert_eq!(byte, b'-'),
                10 => assert_eq!(byte, b'T'),
                13 | 16 => assert_eq!(byte, b':'),
                19 => assert_eq!(byte, b'Z'),
                _ => assert!(byte.is_ascii_digit(), "{stamp}"),
            }
        }
    }
    assert_eq!(shown.first().map(String::as_str), Some("0000-01-01T00:00:00Z"));
    assert_eq!(shown.last().map(String::as_str), Some("9999-12-31T23:59:59Z"));
    assert_eq!(rfc3339(Moment::Since(0)), rfc3339(Moment::Before(0)));
}

#[test]
fn the_ring_holds_the_latest_through_repeats_and_pins() {
    let mut history = history(3);
    let held = |history: &GenerationHistory<Option<u16>>| -> Vec<u64> {
        history.records().iter().map(|r| r.generation).collect()
    };
    record(&mut history, 1, 8001);
    record(&mut history, 2, 8002);
    record(&mut history, 1, 8011);
    assert_eq!(held(&history), vec![2, 1]);
    history.pin(2).expect("pins");
    for generation in 3..=6 {
        record(&mut history, generation, 8000);
    }
    assert_eq!(held(&history), vec![4, 5, 6]);
    assert_eq!(serving_port(&history), Some(8002), "the pin still serves what it named");
    assert_eq!(history.unpin(), Some(6));
    record(&mut history, 7, 8007);
    record(&mut history, 6, 8016);
    record(&mut history, 7, 8017);
    assert_eq!(held(&history), vec![5, 6, 7]);
    assert_eq!(serving_port(&history), Some(8017));
}

#[test]
fn the_calendar_reaches_as_far_as_its_days() {
    let first = civil_from_days(i64::MIN);
    assert_eq!((first.year, first.month, first.day), (-25252734927764585, 6, 7));
    let last = civil_from_days(i64::MAX - 719_468);
    assert_eq!((last.year, last.month, last.day), (25252734927766554, 9, 25));
}
