//! Tests of the event decoder and the log scanner.

use paint_client::events::{decode_event, scan_log, Event, EventDescriptor, RawEntry};

const DESC: EventDescriptor = EventDescriptor { module_tag: 5, event_tag: 2 };

fn matching_entry(fill: u8) -> Vec<u8> {
    let mut raw = vec![DESC.module_tag, DESC.event_tag];
    raw.extend(vec![fill; 32]);
    raw
}

#[test]
fn tag_match_decodes_payload() {
    let raw = matching_entry(0x7f);
    let decoded = decode_event(&raw, &DESC).expect("well-shaped entry");
    match decoded {
        Some(Event::CodeStored(h)) => assert_eq!(h.bytes, vec![0x7f; 32]),
        None => panic!("tags match, so this must decode"),
    }
}

#[test]
fn module_tag_mismatch_is_no_match() {
    let mut raw = matching_entry(0x7f);
    raw[0] = 6;
    assert!(decode_event(&raw, &DESC).expect("mismatch is not an error").is_none());
}

#[test]
fn event_tag_mismatch_is_no_match() {
    let mut raw = matching_entry(0x7f);
    raw[1] = 3;
    assert!(decode_event(&raw, &DESC).expect("mismatch is not an error").is_none());
}

#[test]
fn tag_mismatch_wins_over_any_payload() {
    // The tag check precedes the payload decode: whatever the payload holds
    // — too short, too long, garbage — a differing tag means "no match",
    // never an error.
    for payload_len in [0usize, 1, 31, 32, 33, 100] {
        let mut raw = vec![9, 9];
        raw.extend(vec![0xee; payload_len]);
        assert!(decode_event(&raw, &DESC).expect("mismatch is not an error").is_none());
    }
}

#[test]
fn tag_match_with_short_payload_is_surfaced() {
    let mut raw = matching_entry(0x7f);
    raw.pop();
    assert!(decode_event(&raw, &DESC).is_err());
}

#[test]
fn tag_match_with_long_payload_is_surfaced() {
    let mut raw = matching_entry(0x7f);
    raw.push(0x00);
    assert!(decode_event(&raw, &DESC).is_err());
}

#[test]
fn entry_too_short_for_tags_is_surfaced() {
    let raw = vec![DESC.module_tag];
    assert!(decode_event(&raw, &DESC).is_err());
    let empty: Vec<u8> = vec![];
    assert!(decode_event(&empty, &DESC).is_err());
}

#[test]
fn corrupt_entry_is_skipped_without_aborting() {
    // Five entries; the third is corrupt at the transport's lower layer.
    // The scan must still deliver the matches of entries 1, 2, 4 and 5.
    let entries = vec![
        RawEntry::Parsed(matching_entry(1)),
        RawEntry::Parsed(matching_entry(2)),
        RawEntry::Corrupt,
        RawEntry::Parsed(matching_entry(4)),
        RawEntry::Parsed(matching_entry(5)),
    ];
    let outcome = scan_log(&entries, &DESC);
    assert_eq!(outcome.matches.len(), 4);
    for (ev, fill) in outcome.matches.iter().zip([1u8, 2, 4, 5]) {
        match ev {
            Event::CodeStored(h) => assert_eq!(h.bytes, vec![fill; 32]),
        }
    }
    assert!(outcome.malformed.is_empty());
}

#[test]
fn malformed_entry_is_surfaced_by_index() {
    let mut short = matching_entry(3);
    short.truncate(10);
    let entries = vec![
        RawEntry::Parsed(matching_entry(1)),
        RawEntry::Parsed(short),
        RawEntry::Parsed(matching_entry(9)),
    ];
    let outcome = scan_log(&entries, &DESC);
    assert_eq!(outcome.matches.len(), 2);
    assert_eq!(outcome.malformed, vec![1]);
}

#[test]
fn non_matching_entries_yield_nothing() {
    let mut other = matching_entry(1);
    other[1] = 77;
    let entries = vec![RawEntry::Parsed(other), RawEntry::Corrupt];
    let outcome = scan_log(&entries, &DESC);
    assert!(outcome.matches.is_empty());
    assert!(outcome.malformed.is_empty());
}
