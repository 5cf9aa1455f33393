use chronicle::stream::{InxError, LedgerUpdateEvent, LedgerUpdateMarker, LedgerUpdateStream};
use chronicle::types::MilestoneIndex;

type Event = LedgerUpdateEvent<u32, u64, String>;

fn marker(index: u32, created: usize, consumed: usize) -> LedgerUpdateMarker {
    LedgerUpdateMarker {
        milestone_index: MilestoneIndex(index),
        created_count: created,
        consumed_count: consumed,
    }
}

#[test]
fn milestone_is_assembled() {
    let mut stream = LedgerUpdateStream::<(), u32, u64>::new(());
    assert!(stream.handle::<String>(Event::Begin(marker(7, 2, 1))).is_none());
    assert!(stream.handle::<String>(Event::Consumed(Ok(10))).is_none());
    assert!(stream.handle::<String>(Event::Created(Ok(1))).is_none());
    assert!(stream.handle::<String>(Event::Created(Ok(2))).is_none());
    assert_eq!(stream.received(), 3);
    match stream.handle::<String>(Event::End(marker(7, 2, 1))) {
        Some(Some(Ok(record))) => {
            assert_eq!(record.milestone_index, MilestoneIndex(7));
            assert_eq!(record.created, vec![1, 2]);
            assert_eq!(record.consumed, vec![10]);
        }
        _ => panic!("expected a record"),
    }
    assert_eq!(stream.received(), 0);
}

#[test]
fn count_mismatch_at_end() {
    let mut stream = LedgerUpdateStream::<(), u32, u64>::new(());
    stream.handle::<String>(Event::Begin(marker(1, 2, 0)));
    stream.handle::<String>(Event::Created(Ok(1)));
    match stream.handle::<String>(Event::End(marker(1, 2, 0))) {
        Some(Some(Err(InxError::InvalidLedgerUpdateCount { received, expected }))) => {
            assert_eq!((received, expected), (1, 2));
        }
        _ => panic!("expected a count mismatch"),
    }
}

#[test]
fn update_outside_milestone() {
    let mut stream = LedgerUpdateStream::<(), u32, u64>::new(());
    assert!(matches!(
        stream.handle::<String>(Event::Created(Ok(1))),
        Some(Some(Err(InxError::InvalidMilestoneState)))
    ));
    assert!(matches!(
        stream.handle::<String>(Event::Consumed(Ok(1))),
        Some(Some(Err(InxError::InvalidMilestoneState)))
    ));
    assert!(matches!(
        stream.handle::<String>(Event::End(marker(1, 0, 0))),
        Some(Some(Err(InxError::InvalidMilestoneState)))
    ));
}

#[test]
fn begin_twice() {
    let mut stream = LedgerUpdateStream::<(), u32, u64>::new(());
    stream.handle::<String>(Event::Begin(marker(1, 1, 1)));
    stream.handle::<String>(Event::Consumed(Ok(3)));
    match stream.handle::<String>(Event::Begin(marker(2, 0, 0))) {
        Some(Some(Err(InxError::InvalidLedgerUpdateCount { received, expected }))) => {
            assert_eq!(received, 1);
            assert!(expected >= received);
        }
        _ => panic!("expected a count mismatch"),
    }
    // The open record was dropped: a new milestone can begin.
    assert!(stream.handle::<String>(Event::Begin(marker(2, 0, 0))).is_none());
}

#[test]
fn source_errors_pass_through() {
    let mut stream = LedgerUpdateStream::<(), u32, u64>::new(());
    match stream.handle::<String>(Event::Failed("broken".to_string())) {
        Some(Some(Err(InxError::Inx(e)))) => assert_eq!(e, "broken"),
        _ => panic!("expected the source error"),
    }
    stream.handle::<String>(Event::Begin(marker(3, 1, 0)));
    match stream.handle::<String>(Event::Created(Err("bad output".to_string()))) {
        Some(Some(Err(InxError::Inx(e)))) => assert_eq!(e, "bad output"),
        _ => panic!("expected the conversion error"),
    }
    // The record stays open.
    assert!(stream.handle::<String>(Event::Created(Ok(4))).is_none());
    assert!(matches!(stream.handle::<String>(Event::End(marker(3, 1, 0))), Some(Some(Ok(_)))));
}

#[test]
fn end_of_source() {
    let mut stream = LedgerUpdateStream::<(), u32, u64>::new(());
    assert!(matches!(stream.handle::<String>(Event::Finished), Some(None)));
    stream.handle::<String>(Event::Begin(marker(5, 3, 0)));
    stream.handle::<String>(Event::Created(Ok(9)));
    match stream.handle::<String>(Event::Finished) {
        Some(Some(Err(InxError::InvalidLedgerUpdateCount { received, expected }))) => {
            assert_eq!(received, 1);
            assert!(expected >= 3);
        }
        _ => panic!("expected a count mismatch"),
    }
}
