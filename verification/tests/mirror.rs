//! Copies of requests, and how much of a body is read for one.
use bytes::Bytes;
use ramjet_ingress::metrics::Metrics;
use ramjet_ingress::mirror::{
    mirror_timeout, Buffered, Buffering, Mirror, Piece, DEFAULT_MIRROR_MAX_BODY, MIRRORED_BY,
    MIRRORED_BY_VALUE, MIRROR_QUEUE_DEPTH,
};
use ramjet_ingress::time::Duration;

#[test]
fn the_marker_header_names_this_controller() {
    // A shadow backend has to be able to tell a copy from the real thing
    // before it decides whether to charge somebody's card.
    assert_eq!(MIRRORED_BY, "x-mirrored-by");
    assert_eq!(MIRRORED_BY_VALUE, "ramjet-ingress");
}

#[test]
fn the_defaults_bound_memory_rather_than_coverage() {
    assert_eq!(DEFAULT_MIRROR_MAX_BODY, 256 * 1024);
    assert_eq!(MIRROR_QUEUE_DEPTH, 256);
    assert!(
        mirror_timeout() < Duration::from_secs(60),
        "a mirror must not get the primary's response budget"
    );
    assert_eq!(Mirror::default().max_body(), DEFAULT_MIRROR_MAX_BODY);
}

#[test]
fn a_closed_queue_counts_a_drop_and_returns() {
    let mirror = Mirror::default();
    let mut metrics = Metrics::new();
    mirror.enqueued(&mut metrics, false);
    assert_eq!(metrics.mirror_dropped(), 1);
}

#[test]
fn a_full_queue_drops_rather_than_waiting() {
    // The invariant the bound exists for: the request path must return at
    // the same speed whether or not the mirror is keeping up.
    let mirror = Mirror::default();
    let mut metrics = Metrics::new();
    for attempt in 0..4 {
        mirror.enqueued(&mut metrics, attempt < 1);
    }
    assert_eq!(metrics.mirrored(), 0, "nothing was sent, only queued");
    assert_eq!(
        metrics.mirror_dropped(),
        3,
        "one fits in the queue and the rest are dropped"
    );
}

#[test]
fn the_body_cap_is_settable_per_runtime() {
    let mirror = Mirror::default().with_max_body(4096);
    assert_eq!(mirror.max_body(), 4096);
}

#[test]
fn a_copy_that_was_answered_is_told_from_one_that_was_not() {
    let mirror = Mirror::default();
    let mut metrics = Metrics::new();
    mirror.exchanged(&mut metrics, true);
    mirror.exchanged(&mut metrics, false);
    mirror.exchanged(&mut metrics, false);
    assert_eq!((metrics.mirrored(), metrics.mirror_failures()), (1, 2));
}

type Reading = Option<Buffered<&'static str, &'static str>>;

fn data(buffering: &mut Buffering, chunk: &'static [u8]) -> Reading {
    buffering.take(Piece::Data(Bytes::from_static(chunk)))
}

#[test]
fn a_body_within_the_cap_is_whole() {
    let mut buffering = Buffering::new(5);
    assert!(data(&mut buffering, b"abc").is_none());
    assert!(data(&mut buffering, b"de").is_none());
    let end: Reading = buffering.take(Piece::End);
    match end {
        Some(Buffered::Complete(body)) => assert_eq!(&body[..], b"abcde"),
        other => panic!("{other:?}"),
    }
}

#[test]
fn a_body_over_the_cap_is_handed_back_with_nothing_missing() {
    let mut buffering = Buffering::new(5);
    assert!(data(&mut buffering, b"abc").is_none());
    match data(&mut buffering, b"def") {
        Some(Buffered::TooLarge { prefix, next: None }) => assert_eq!(&prefix[..], b"abcdef"),
        other => panic!("{other:?}"),
    }
}

#[test]
fn trailers_and_failures_are_handed_back_too() {
    let mut buffering = Buffering::new(5);
    assert!(data(&mut buffering, b"abc").is_none());
    let ended: Reading = buffering.take(Piece::Trailers("checksum"));
    match ended {
        Some(Buffered::TooLarge { prefix, next: Some(Piece::Trailers("checksum")) }) => {
            assert_eq!(&prefix[..], b"abc")
        }
        other => panic!("{other:?}"),
    }
    let mut buffering = Buffering::new(5);
    let ended: Reading = buffering.take(Piece::Failed("reset"));
    match ended {
        Some(Buffered::TooLarge { prefix, next: Some(Piece::Failed("reset")) }) => {
            assert!(prefix.is_empty())
        }
        other => panic!("{other:?}"),
    }
}
