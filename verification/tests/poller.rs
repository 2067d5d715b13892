//! Tests of the block event polling state machine.

use paint_client::errors::ClientError;
use paint_client::events::{Event, EventDescriptor, RawEntry};
use paint_client::poller::{deliver_events, poll_step, run_poll, BlockCursor, HashReply,
    PollerAction, PollerState, SessionEnd, SourceReply};
use paint_client::types::Hash32;

const DESC: EventDescriptor = EventDescriptor { module_tag: 5, event_tag: 2 };

fn hash_for(index: u32) -> Hash32 {
    Hash32 { bytes: vec![index as u8; 32] }
}

fn index_of(state: &PollerState) -> Option<u32> {
    match state {
        PollerState::AwaitingBlock(c) => Some(c.index),
        PollerState::Done => None,
    }
}

/// A simulated block source: hashes for indices 1-3, none for index 4 on the
/// first request, then a hash on retry. The poller must issue exactly one
/// backoff before advancing past index 4, and must never skip an index.
#[test]
fn trailing_the_tip_backs_off_once_and_skips_nothing() {
    let limit = 5;
    let mut replies = vec![
        (1u32, HashReply::Resolved(hash_for(1))),
        (2, HashReply::Resolved(hash_for(2))),
        (3, HashReply::Resolved(hash_for(3))),
        (4, HashReply::NotYet),
        (4, HashReply::Resolved(hash_for(4))),
    ]
    .into_iter();

    let mut state = PollerState::AwaitingBlock(BlockCursor { index: 1, resolved: None });
    let mut backoffs: u32 = 0;
    let mut requested: Vec<u32> = Vec::new();
    loop {
        let index = match index_of(&state) {
            Some(i) if i < limit => i,
            _ => break,
        };
        let (expected_index, reply) = replies.next().expect("source script exhausted");
        assert_eq!(index, expected_index, "request must be for the cursor's index");
        requested.push(index);
        let (next, action) = poll_step(state, limit, reply).expect("no hard failure here");
        state = next;
        match action {
            PollerAction::FetchEvents => {
                let log: Vec<RawEntry> = vec![];
                let (advanced, outcome) = deliver_events(state, limit, &log, &DESC);
                assert!(outcome.matches.is_empty());
                // The cursor advances by exactly one per processed block.
                assert_eq!(index_of(&advanced), Some(index + 1));
                state = advanced;
            },
            PollerAction::Backoff => {
                backoffs += 1;
                // No advance on backoff: the same index is retried.
                assert_eq!(index_of(&state), Some(index));
            },
            PollerAction::Stop => break,
        }
    }
    assert_eq!(backoffs, 1);
    assert_eq!(requested, vec![1, 2, 3, 4, 4]);
    let (_, action) = poll_step(state, limit, HashReply::NotYet).expect("done is not an error");
    assert_eq!(action, PollerAction::Stop);
}

#[test]
fn reaching_the_limit_stops() {
    let state = PollerState::AwaitingBlock(BlockCursor { index: 5, resolved: None });
    let (next, action) = poll_step(state, 5, HashReply::Resolved(hash_for(5))).unwrap();
    assert_eq!(action, PollerAction::Stop);
    assert!(matches!(next, PollerState::Done));
}

#[test]
fn hard_transport_failure_propagates() {
    let state = PollerState::AwaitingBlock(BlockCursor { index: 2, resolved: None });
    let err = poll_step(state, 5, HashReply::Unavailable).unwrap_err();
    assert_eq!(err, ClientError::TransportUnavailable);
}

#[test]
fn done_state_ignores_replies() {
    let (next, action) = poll_step(PollerState::Done, 5, HashReply::Unavailable).unwrap();
    assert_eq!(action, PollerAction::Stop);
    assert!(matches!(next, PollerState::Done));
}

#[test]
fn delivered_events_come_from_the_scanned_log() {
    let mut raw = vec![DESC.module_tag, DESC.event_tag];
    raw.extend(vec![0x42; 32]);
    let log = vec![RawEntry::Parsed(raw), RawEntry::Corrupt];
    let state = PollerState::AwaitingBlock(
        BlockCursor { index: 7, resolved: Some(hash_for(7)) },
    );
    let (next, outcome) = deliver_events(state, 10, &log, &DESC);
    assert_eq!(index_of(&next), Some(8));
    assert_eq!(outcome.matches.len(), 1);
    assert!(outcome.malformed.is_empty());
}

fn matching_raw(fill: u8) -> Vec<u8> {
    let mut raw = vec![DESC.module_tag, DESC.event_tag];
    raw.extend(vec![fill; 32]);
    raw
}

#[test]
fn session_backs_off_once_and_delivers_in_block_order() {
    // Blocks 1-3 produced, block 4 not yet on the first request, produced
    // on the retry: one backoff, completion at the limit, and the matches
    // of every block in order.
    let replies = vec![
        SourceReply::Produced(hash_for(1), vec![RawEntry::Parsed(matching_raw(1))]),
        SourceReply::Produced(hash_for(2), vec![]),
        SourceReply::Produced(hash_for(3), vec![RawEntry::Parsed(matching_raw(3))]),
        SourceReply::NotYet,
        SourceReply::Produced(hash_for(4), vec![RawEntry::Parsed(matching_raw(4))]),
    ];
    let report = run_poll(&replies, 1, 5, &DESC);
    assert_eq!(report.end, SessionEnd::Completed);
    assert_eq!(report.final_index, 5);
    assert_eq!(report.backoffs, 1);
    assert_eq!(report.matches.len(), 3);
    for (ev, fill) in report.matches.iter().zip([1u8, 3, 4]) {
        match ev {
            Event::CodeStored(h) => assert_eq!(h.bytes, vec![fill; 32]),
        }
    }
    assert!(report.malformed.is_empty());
}

#[test]
fn session_surfaces_malformed_entries_with_their_block() {
    let mut short = matching_raw(9);
    short.truncate(20);
    let replies = vec![
        SourceReply::Produced(hash_for(0), vec![RawEntry::Corrupt]),
        SourceReply::Produced(hash_for(1), vec![RawEntry::Parsed(matching_raw(1)),
            RawEntry::Parsed(short)]),
    ];
    let report = run_poll(&replies, 0, 2, &DESC);
    assert_eq!(report.end, SessionEnd::Completed);
    assert_eq!(report.matches.len(), 1);
    assert_eq!(report.malformed, vec![(1, 1)]);
}

#[test]
fn session_fails_hard_and_preserves_the_cursor() {
    let replies = vec![
        SourceReply::Produced(hash_for(0), vec![]),
        SourceReply::Unavailable,
        SourceReply::Produced(hash_for(1), vec![]),
    ];
    let report = run_poll(&replies, 0, 5, &DESC);
    assert_eq!(report.end, SessionEnd::Failed);
    assert_eq!(report.final_index, 1);
    assert!(report.matches.is_empty());
}

#[test]
fn session_reports_an_exhausted_source() {
    let replies = vec![SourceReply::NotYet, SourceReply::NotYet];
    let report = run_poll(&replies, 3, 5, &DESC);
    assert_eq!(report.end, SessionEnd::SourceExhausted);
    assert_eq!(report.final_index, 3);
    assert_eq!(report.backoffs, 2);
}

#[test]
fn session_started_at_the_limit_completes_at_once() {
    let replies = vec![SourceReply::Unavailable];
    let report = run_poll(&replies, 5, 5, &DESC);
    assert_eq!(report.end, SessionEnd::Completed);
    assert_eq!(report.final_index, 5);
    assert_eq!(report.backoffs, 0);
}

#[test]
fn cursor_starts_where_the_caller_says() {
    let c = BlockCursor::at(0);
    assert_eq!(c.index, 0);
    assert!(c.resolved.is_none());
    let c = BlockCursor::at(17);
    assert_eq!(c.index, 17);
}
