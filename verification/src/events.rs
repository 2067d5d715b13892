//! The event decoder and the log scanner.
//!
//! A raw event-log entry carries `(moduleTag, eventNameTag, payload-bytes)`.
//! Decoding first compares both tags against the caller's descriptor; on a
//! mismatch the outcome is "no match" — not an error, since callers probe
//! many descriptors against one stream. Only on a tag match is the payload
//! decoded structurally; a shape mismatch there is a `MalformedEncoding`
//! error that must be surfaced, because it means the client's and the
//! runtime's schemas disagree. Entries that already failed to parse at the
//! transport's lower layer are skipped without aborting the scan.

use vstd::prelude::*;

use crate::errors::ClientError;
use crate::types::{Hash32, ID_WIDTH};

verus! {

/// A static (module-tag, event-name-tag) pair used as a decode filter key.
/// Event shapes may share a module tag but not a whole pair.
#[derive(Clone, Copy, Debug, PartialEq, Eq, Structural)]
pub struct EventDescriptor {
    pub module_tag: u8,
    pub event_tag: u8,
}

/// A typed contracts-module event, decoded from a raw log entry.
#[derive(Debug)]
pub enum Event {
    /// Contract code was stored; carries the content hash of the code.
    CodeStored(Hash32),
}

/// One raw entry of a block's event log, as the transport hands it over:
/// its wire bytes, or the mark of an entry the transport already failed to
/// parse at its own, lower layer.
#[derive(Debug)]
pub enum RawEntry {
    Parsed(Vec<u8>),
    Corrupt,
}

/// The payload a typed event carries.
pub open spec fn spec_event_payload(e: Event) -> Seq<u8> {
    match e {
        Event::CodeStored(h) => h.bytes@,
    }
}

/// Whether `raw` carries the descriptor's tags in its first two bytes.
pub open spec fn spec_tags_match(raw: Seq<u8>, d: EventDescriptor) -> bool {
    raw.len() >= 2 && raw[0] == d.module_tag && raw[1] == d.event_tag
}

/// Whether `raw` decodes to a typed event under `d`: the tags match and the
/// payload has the declared shape (a 32-byte content hash).
pub open spec fn spec_raw_matches(raw: Seq<u8>, d: EventDescriptor) -> bool {
    spec_tags_match(raw, d) && raw.len() == 2 + ID_WIDTH
}

/// Whether `raw` is malformed under `d`: either too short to carry tags at
/// all, or tag-matching with a payload of the wrong shape. Such an entry
/// must be surfaced, never folded into "no match".
pub open spec fn spec_raw_malformed(raw: Seq<u8>, d: EventDescriptor) -> bool {
    raw.len() < 2 || (spec_tags_match(raw, d) && raw.len() != 2 + ID_WIDTH)
}

/// Decode one raw event against a descriptor.
///
/// Three distinct outcomes, none folded into another:
/// - `Ok(None)`: the tags differ from `d` — "no match", whatever the
///   payload holds;
/// - `Ok(Some(event))`: the tags match and the payload has the declared
///   shape; the event carries the payload bytes exactly;
/// - `Err(MalformedEncoding)`: the entry is too short to carry tags, or the
///   tags match but the payload's shape does not.
pub fn decode_event(raw: &Vec<u8>, d: &EventDescriptor) -> (r: Result<Option<Event>, ClientError>)
    ensures
        match r {
            Ok(decoded) => match decoded {
                Some(ev) => spec_raw_matches(raw@, *d) && spec_event_payload(ev) == raw@.skip(2),
                None => raw@.len() >= 2 && !spec_tags_match(raw@, *d),
            },
            Err(e) => e == ClientError::MalformedEncoding && spec_raw_malformed(raw@, *d),
        },
{
    if raw.len() < 2 {
        return Err(ClientError::MalformedEncoding);
    }
    if raw[0] != d.module_tag || raw[1] != d.event_tag {
        return Ok(None);
    }
    if raw.len() != 2 + ID_WIDTH {
        return Err(ClientError::MalformedEncoding);
    }
    let mut payload: Vec<u8> = Vec::new();
    let mut i: usize = 2;
    while i < raw.len()
        invariant
            2 <= i <= raw@.len(),
            payload@ == raw@.subrange(2, i as int),
        decreases raw@.len() - i,
    {
        payload.push(raw[i]);
        i = i + 1;
        proof {
            assert(payload@ =~= raw@.subrange(2, i as int));
        }
    }
    proof {
        assert(raw@.subrange(2, raw@.len() as int) =~= raw@.skip(2));
    }
    Ok(Some(Event::CodeStored(Hash32 { bytes: payload })))
}

/// Whether a raw log entry yields a typed event under `d`.
pub open spec fn spec_entry_matches(e: RawEntry, d: EventDescriptor) -> bool {
    match e {
        RawEntry::Parsed(raw) => spec_raw_matches(raw@, d),
        RawEntry::Corrupt => false,
    }
}

/// Whether a raw log entry must be surfaced as malformed under `d`.
/// A `Corrupt` entry is not: it already failed below this layer and is
/// skipped.
pub open spec fn spec_entry_malformed(e: RawEntry, d: EventDescriptor) -> bool {
    match e {
        RawEntry::Parsed(raw) => spec_raw_malformed(raw@, d),
        RawEntry::Corrupt => false,
    }
}

/// The payload bytes a matching entry carries.
pub open spec fn spec_entry_payload(e: RawEntry) -> Seq<u8> {
    match e {
        RawEntry::Parsed(raw) => raw@.skip(2),
        RawEntry::Corrupt => Seq::empty(),
    }
}

/// The payloads of the matching entries of a log, in log order.
pub open spec fn spec_scan_matches(entries: Seq<RawEntry>, d: EventDescriptor) -> Seq<Seq<u8>>
    decreases entries.len(),
{
    if entries.len() == 0 {
        Seq::empty()
    } else {
        let init = spec_scan_matches(entries.drop_last(), d);
        if spec_entry_matches(entries.last(), d) {
            init.push(spec_entry_payload(entries.last()))
        } else {
            init
        }
    }
}

/// The indices of the malformed entries of a log, in log order.
pub open spec fn spec_scan_malformed(entries: Seq<RawEntry>, d: EventDescriptor) -> Seq<int>
    decreases entries.len(),
{
    if entries.len() == 0 {
        Seq::empty()
    } else {
        let init = spec_scan_malformed(entries.drop_last(), d);
        if spec_entry_malformed(entries.last(), d) {
            init.push(entries.len() - 1)
        } else {
            init
        }
    }
}

/// What scanning a log yields: the decoded matches in log order, and the
/// indices of the entries that matched the descriptor's tags but were
/// malformed — surfaced so the caller learns of a schema mismatch.
#[derive(Debug)]
pub struct ScanOutcome {
    pub matches: Vec<Event>,
    pub malformed: Vec<usize>,
}

/// Run the decoder over every entry of a log, in order.
///
/// Corrupt entries and malformed entries are skipped over, never aborting
/// the scan: every entry of the log is examined. Matches are delivered in
/// log order; malformed entries are surfaced by index.
pub fn scan_log(entries: &Vec<RawEntry>, d: &EventDescriptor) -> (r: ScanOutcome)
    ensures
        r.matches@.map_values(|e: Event| spec_event_payload(e)) == spec_scan_matches(entries@, *d),
        r.malformed@.map_values(|u: usize| u as int) == spec_scan_malformed(entries@, *d),
{
    let mut matches: Vec<Event> = Vec::new();
    let mut malformed: Vec<usize> = Vec::new();
    let mut i: usize = 0;
    while i < entries.len()
        invariant
            i <= entries@.len(),
            matches@.map_values(|e: Event| spec_event_payload(e)) == spec_scan_matches(
                entries@.take(i as int),
                *d,
            ),
            malformed@.map_values(|u: usize| u as int) == spec_scan_malformed(
                entries@.take(i as int),
                *d,
            ),
        decreases entries@.len() - i,
    {
        let ghost prefix = entries@.take(i as int);
        match &entries[i] {
            RawEntry::Parsed(raw) => {
                match decode_event(raw, d) {
                    Ok(Some(ev)) => {
                        matches.push(ev);
                    },
                    Ok(None) => {},
                    Err(_) => {
                        malformed.push(i);
                    },
                }
            },
            RawEntry::Corrupt => {},
        }
        i = i + 1;
        proof {
            let next = entries@.take(i as int);
            assert(next.drop_last() =~= prefix);
            assert(next.last() == entries@[i - 1]);
            assert(matches@.map_values(|e: Event| spec_event_payload(e)) =~= spec_scan_matches(
                next,
                *d,
            ));
            assert(malformed@.map_values(|u: usize| u as int) =~= spec_scan_malformed(next, *d));
        }
    }
    proof {
        assert(entries@.take(entries@.len() as int) =~= entries@);
    }
    ScanOutcome { matches, malformed }
}

} // verus!
