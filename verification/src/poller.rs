//! The block-by-block event polling state machine.
//!
//! A single logical task trails a live, growing block sequence: while the
//! cursor is below the caller's limit it asks the external block source for
//! the hash of the block at the cursor's index. A resolved hash leads to one
//! event-log fetch, a scan of every entry, and an advance of the cursor by
//! exactly one; an unresolved hash ("not yet produced") leads to one backoff
//! sleep and a retry of the same index, so no index is ever skipped. A hard
//! transport failure propagates and terminates the session; the caller keeps
//! the cursor and decides whether to restart.
//!
//! The library holds no I/O: the caller performs the requests, the fetch and
//! the backoff sleep, and feeds the replies into [`poll_step`] and
//! [`deliver_events`]. The cursor is an explicit, externally checkpointable
//! value — resumability across restarts is the caller's choice, not hidden
//! process-local state.

use vstd::prelude::*;

use crate::errors::ClientError;
use crate::events::{scan_log, spec_scan_malformed, spec_scan_matches, spec_event_payload, Event,
    EventDescriptor, RawEntry, ScanOutcome};
use crate::types::Hash32;

verus! {

/// The poller's position: a monotonically increasing block index, plus the
/// block's resolved hash once the source has returned it. Created at zero or
/// at a caller-supplied checkpoint, advanced by exactly one per processed
/// block, never decremented.
#[derive(Debug)]
pub struct BlockCursor {
    pub index: u32,
    pub resolved: Option<Hash32>,
}

impl BlockCursor {
    /// A cursor at `start`, with no block resolved yet.
    pub fn at(start: u32) -> (c: BlockCursor)
        ensures
            c.index == start,
            c.resolved is None,
    {
        BlockCursor { index: start, resolved: None }
    }
}

/// The two states of a polling session.
#[derive(Debug)]
pub enum PollerState {
    /// Waiting for the block at the cursor's index to be produced.
    AwaitingBlock(BlockCursor),
    /// The cursor reached the limit; the session is over.
    Done,
}

impl PollerState {
    /// The cursor's index; the limit once the session is done.
    pub open spec fn spec_index(self, limit: u32) -> int {
        match self {
            PollerState::AwaitingBlock(c) => c.index as int,
            PollerState::Done => limit as int,
        }
    }

    /// Validity: an awaited index never stands past the limit.
    pub open spec fn wf(self, limit: u32) -> bool {
        match self {
            PollerState::AwaitingBlock(c) => c.index <= limit,
            PollerState::Done => true,
        }
    }
}

/// What the external block source answered to one hash request.
#[derive(Debug)]
pub enum HashReply {
    /// The block exists; here is its hash.
    Resolved(Hash32),
    /// The block has not yet been produced: back off and retry.
    NotYet,
    /// A hard transport failure, distinct from "not yet produced".
    Unavailable,
}

/// What the caller must do next, as decided by [`poll_step`].
#[derive(Clone, Copy, Debug, PartialEq, Eq, Structural)]
pub enum PollerAction {
    /// Fetch the event log of the block the cursor resolved, then hand it
    /// to [`deliver_events`].
    FetchEvents,
    /// Sleep for the fixed backoff interval, then request the same index
    /// again.
    Backoff,
    /// The session is over; issue no further requests.
    Stop,
}

/// The transition the poller makes on one hash reply.
pub open spec fn spec_poll_step(state: PollerState, limit: u32, reply: HashReply) -> Result<
    (PollerState, PollerAction),
    ClientError,
> {
    match state {
        PollerState::Done => Ok((PollerState::Done, PollerAction::Stop)),
        PollerState::AwaitingBlock(c) => {
            if c.index >= limit {
                Ok((PollerState::Done, PollerAction::Stop))
            } else {
                match reply {
                    HashReply::Resolved(h) => Ok(
                        (
                            PollerState::AwaitingBlock(
                                BlockCursor { index: c.index, resolved: Some(h) },
                            ),
                            PollerAction::FetchEvents,
                        ),
                    ),
                    HashReply::NotYet => Ok(
                        (
                            PollerState::AwaitingBlock(
                                BlockCursor { index: c.index, resolved: None },
                            ),
                            PollerAction::Backoff,
                        ),
                    ),
                    HashReply::Unavailable => Err(ClientError::TransportUnavailable),
                }
            }
        },
    }
}

/// Advance the state machine on one reply from the block source.
///
/// While the cursor is below `limit`: a resolved hash is stored in the
/// cursor and the caller is told to fetch that block's events; "not yet
/// produced" keeps the index where it is — no advance, no skip — and asks
/// for one backoff sleep; a hard failure surfaces as `TransportUnavailable`
/// and ends the session. At or past `limit` the session is done.
pub fn poll_step(state: PollerState, limit: u32, reply: HashReply) -> (r: Result<
    (PollerState, PollerAction),
    ClientError,
>)
    ensures
        r == spec_poll_step(state, limit, reply),
{
    match state {
        PollerState::Done => Ok((PollerState::Done, PollerAction::Stop)),
        PollerState::AwaitingBlock(c) => {
            if c.index >= limit {
                Ok((PollerState::Done, PollerAction::Stop))
            } else {
                match reply {
                    HashReply::Resolved(h) => Ok(
                        (
                            PollerState::AwaitingBlock(
                                BlockCursor { index: c.index, resolved: Some(h) },
                            ),
                            PollerAction::FetchEvents,
                        ),
                    ),
                    HashReply::NotYet => Ok(
                        (
                            PollerState::AwaitingBlock(
                                BlockCursor { index: c.index, resolved: None },
                            ),
                            PollerAction::Backoff,
                        ),
                    ),
                    HashReply::Unavailable => Err(ClientError::TransportUnavailable),
                }
            }
        },
    }
}

/// Scan one fetched event log and advance the cursor past its block.
///
/// Must only be called in `AwaitingBlock` with a resolved hash and the index
/// below `limit` — that is, right after [`poll_step`] answered
/// `FetchEvents`. The cursor advances by exactly one, only now that the
/// block's events have been fully delivered, and the resolved hash is
/// cleared for the next request.
pub fn deliver_events(
    state: PollerState,
    limit: u32,
    entries: &Vec<RawEntry>,
    d: &EventDescriptor,
) -> (r: (PollerState, ScanOutcome))
    requires
        state matches PollerState::AwaitingBlock(c) && c.resolved is Some && c.index < limit,
    ensures
        r.0 matches PollerState::AwaitingBlock(c2) && c2.index == state.spec_index(limit) + 1
            && c2.resolved is None,
        r.1.matches@.map_values(|e: Event| spec_event_payload(e)) == spec_scan_matches(
            entries@,
            *d,
        ),
        r.1.malformed@.map_values(|u: usize| u as int) == spec_scan_malformed(entries@, *d),
{
    let outcome = scan_log(entries, d);
    match state {
        PollerState::AwaitingBlock(c) => {
            (
                PollerState::AwaitingBlock(BlockCursor { index: c.index + 1, resolved: None }),
                outcome,
            )
        },
        PollerState::Done => {
            proof {
                assert(false);
            }
            (PollerState::Done, outcome)
        },
    }
}

/// One recorded exchange with the block source during a session: the block
/// at the requested index was produced (its hash and its event log came
/// back), or it was not yet produced, or the transport failed hard.
#[derive(Debug)]
pub enum SourceReply {
    Produced(Hash32, Vec<RawEntry>),
    NotYet,
    Unavailable,
}

/// How a polling session ended.
#[derive(Clone, Copy, Debug, PartialEq, Eq, Structural)]
pub enum SessionEnd {
    /// The cursor reached the limit.
    Completed,
    /// The source's replies ran out before the limit was reached.
    SourceExhausted,
    /// The transport failed hard; the final cursor index is preserved.
    Failed,
}

/// How a session run over `replies` from `index` ends.
pub open spec fn spec_session_end(replies: Seq<SourceReply>, index: int, limit: u32) -> SessionEnd
    decreases replies.len(),
{
    if index >= limit {
        SessionEnd::Completed
    } else if replies.len() == 0 {
        SessionEnd::SourceExhausted
    } else {
        match replies[0] {
            SourceReply::Produced(h, log) => spec_session_end(replies.skip(1), index + 1, limit),
            SourceReply::NotYet => spec_session_end(replies.skip(1), index, limit),
            SourceReply::Unavailable => SessionEnd::Failed,
        }
    }
}

/// The cursor index a session ends on: one past every processed block,
/// never past the limit, and held in place by backoffs and failures.
pub open spec fn spec_session_final_index(replies: Seq<SourceReply>, index: int, limit: u32) -> int
    decreases replies.len(),
{
    if index >= limit {
        index
    } else if replies.len() == 0 {
        index
    } else {
        match replies[0] {
            SourceReply::Produced(h, log) => spec_session_final_index(
                replies.skip(1),
                index + 1,
                limit,
            ),
            SourceReply::NotYet => spec_session_final_index(replies.skip(1), index, limit),
            SourceReply::Unavailable => index,
        }
    }
}

/// How many backoff sleeps a session issues: exactly one per "not yet
/// produced" reply consumed before the end.
pub open spec fn spec_session_backoffs(replies: Seq<SourceReply>, index: int, limit: u32) -> int
    decreases replies.len(),
{
    if index >= limit {
        0
    } else if replies.len() == 0 {
        0
    } else {
        match replies[0] {
            SourceReply::Produced(h, log) => spec_session_backoffs(
                replies.skip(1),
                index + 1,
                limit,
            ),
            SourceReply::NotYet => 1 + spec_session_backoffs(replies.skip(1), index, limit),
            SourceReply::Unavailable => 0,
        }
    }
}

/// The payloads of every matching event a session delivers, in block order
/// and, within a block, in log order.
pub open spec fn spec_session_matches(
    replies: Seq<SourceReply>,
    index: int,
    limit: u32,
    d: EventDescriptor,
) -> Seq<Seq<u8>>
    decreases replies.len(),
{
    if index >= limit {
        Seq::empty()
    } else if replies.len() == 0 {
        Seq::empty()
    } else {
        match replies[0] {
            SourceReply::Produced(h, log) => spec_scan_matches(log@, d) + spec_session_matches(
                replies.skip(1),
                index + 1,
                limit,
                d,
            ),
            SourceReply::NotYet => spec_session_matches(replies.skip(1), index, limit, d),
            SourceReply::Unavailable => Seq::empty(),
        }
    }
}

/// Each entry index of a scan, paired with its block index.
pub open spec fn spec_pair_block(block: int, entry_indices: Seq<int>) -> Seq<(int, int)> {
    entry_indices.map_values(|e: int| (block, e))
}

/// The malformed entries a session surfaces, as (block index, entry index)
/// pairs, in block and log order.
pub open spec fn spec_session_malformed(
    replies: Seq<SourceReply>,
    index: int,
    limit: u32,
    d: EventDescriptor,
) -> Seq<(int, int)>
    decreases replies.len(),
{
    if index >= limit {
        Seq::empty()
    } else if replies.len() == 0 {
        Seq::empty()
    } else {
        match replies[0] {
            SourceReply::Produced(h, log) => spec_pair_block(
                index,
                spec_scan_malformed(log@, d),
            ) + spec_session_malformed(replies.skip(1), index + 1, limit, d),
            SourceReply::NotYet => spec_session_malformed(replies.skip(1), index, limit, d),
            SourceReply::Unavailable => Seq::empty(),
        }
    }
}

/// What one polling session yielded: how it ended, the final cursor index
/// for external checkpointing, the number of backoff sleeps issued, every
/// delivered match, and every surfaced malformed entry.
#[derive(Debug)]
pub struct SessionReport {
    pub end: SessionEnd,
    pub final_index: u32,
    pub backoffs: usize,
    pub matches: Vec<Event>,
    pub malformed: Vec<(u32, usize)>,
}

/// Mapping a function over a concatenation is the concatenation of the
/// mapped halves.
proof fn lemma_map_values_distributes<A, B>(a: Seq<A>, b: Seq<A>, f: spec_fn(A) -> B)
    ensures
        (a + b).map_values(f) == a.map_values(f) + b.map_values(f),
{
    assert((a + b).map_values(f) =~= a.map_values(f) + b.map_values(f));
}

/// Pair every surfaced entry index with the block it came from.
fn tag_block(block: u32, entries: Vec<usize>) -> (out: Vec<(u32, usize)>)
    ensures
        out@.map_values(|p: (u32, usize)| (p.0 as int, p.1 as int)) == spec_pair_block(
            block as int,
            entries@.map_values(|u: usize| u as int),
        ),
{
    let ghost target = spec_pair_block(block as int, entries@.map_values(|u: usize| u as int));
    let mut out: Vec<(u32, usize)> = Vec::new();
    let mut k: usize = 0;
    proof {
        assert(out@.map_values(|p: (u32, usize)| (p.0 as int, p.1 as int)) =~= target.take(0));
    }
    while k < entries.len()
        invariant
            k <= entries@.len(),
            target == spec_pair_block(block as int, entries@.map_values(|u: usize| u as int)),
            out@.map_values(|p: (u32, usize)| (p.0 as int, p.1 as int)) == target.take(k as int),
        decreases entries@.len() - k,
    {
        out.push((block, entries[k]));
        k = k + 1;
        proof {
            assert(target.take(k as int) =~= target.take(k - 1).push(target[k - 1]));
            assert(target[k - 1] == (block as int, entries@[k - 1] as int));
            assert(out@.map_values(|p: (u32, usize)| (p.0 as int, p.1 as int)) =~= target.take(
                k as int,
            ));
        }
    }
    proof {
        assert(target.take(entries@.len() as int) =~= target);
    }
    out
}

/// Run a whole polling session over a recorded sequence of source replies.
///
/// Replies are consumed in order, one per hash request: a produced block's
/// log is scanned and the cursor advances by exactly one; a "not yet"
/// reply costs exactly one backoff and retries the same index, skipping
/// none; a hard failure ends the session with the cursor preserved. The
/// session completes when the cursor reaches `limit`, or reports the
/// source exhausted when the replies run out first.
pub fn run_poll(
    replies: &Vec<SourceReply>,
    start: u32,
    limit: u32,
    d: &EventDescriptor,
) -> (r: SessionReport)
    ensures
        r.end == spec_session_end(replies@, start as int, limit),
        r.final_index as int == spec_session_final_index(replies@, start as int, limit),
        r.backoffs as int == spec_session_backoffs(replies@, start as int, limit),
        r.matches@.map_values(|e: Event| spec_event_payload(e)) == spec_session_matches(
            replies@,
            start as int,
            limit,
            *d,
        ),
        r.malformed@.map_values(|p: (u32, usize)| (p.0 as int, p.1 as int))
            == spec_session_malformed(replies@, start as int, limit, *d),
{
    let ghost all = replies@;
    let mut index: u32 = start;
    let mut i: usize = 0;
    let mut failed = false;
    let mut backoffs: usize = 0;
    let mut matches: Vec<Event> = Vec::new();
    let mut malformed: Vec<(u32, usize)> = Vec::new();
    proof {
        assert(all.skip(0) =~= all);
    }
    while !failed && index < limit && i < replies.len()
        invariant
            i <= all.len(),
            replies@ == all,
            backoffs <= i,
            !failed ==> spec_session_end(all, start as int, limit) == spec_session_end(
                all.skip(i as int),
                index as int,
                limit,
            ),
            failed ==> spec_session_end(all, start as int, limit) == SessionEnd::Failed,
            !failed ==> spec_session_final_index(all, start as int, limit)
                == spec_session_final_index(all.skip(i as int), index as int, limit),
            failed ==> spec_session_final_index(all, start as int, limit) == index as int,
            !failed ==> spec_session_backoffs(all, start as int, limit) == backoffs
                + spec_session_backoffs(all.skip(i as int), index as int, limit),
            failed ==> spec_session_backoffs(all, start as int, limit) == backoffs as int,
            !failed ==> spec_session_matches(all, start as int, limit, *d) == matches@.map_values(
                |e: Event| spec_event_payload(e),
            ) + spec_session_matches(all.skip(i as int), index as int, limit, *d),
            failed ==> spec_session_matches(all, start as int, limit, *d) == matches@.map_values(
                |e: Event| spec_event_payload(e),
            ),
            !failed ==> spec_session_malformed(all, start as int, limit, *d)
                == malformed@.map_values(|p: (u32, usize)| (p.0 as int, p.1 as int))
                + spec_session_malformed(all.skip(i as int), index as int, limit, *d),
            failed ==> spec_session_malformed(all, start as int, limit, *d)
                == malformed@.map_values(|p: (u32, usize)| (p.0 as int, p.1 as int)),
        decreases all.len() - i + (if failed {
            0int
        } else {
            1int
        }),
    {
        let ghost rem = all.skip(i as int);
        proof {
            assert(rem[0] == all[i as int]);
            assert(rem.skip(1) =~= all.skip(i as int + 1));
        }
        match &replies[i] {
            SourceReply::Produced(_h, log) => {
                let outcome = scan_log(log, d);
                let ghost fraw = malformed@;
                let ghost mraw = matches@;
                let ghost entry_seq = spec_scan_malformed(log@, *d);
                let ghost scanned = spec_scan_matches(log@, *d);
                let mut tagged = tag_block(index, outcome.malformed);
                let ghost tview = tagged@;
                malformed.append(&mut tagged);
                let mut fresh = outcome.matches;
                let ghost mview = fresh@;
                matches.append(&mut fresh);
                proof {
                    lemma_map_values_distributes(
                        fraw,
                        tview,
                        |p: (u32, usize)| (p.0 as int, p.1 as int),
                    );
                    lemma_map_values_distributes(mraw, mview, |e: Event| spec_event_payload(e));
                    assert(malformed@.map_values(|p: (u32, usize)| (p.0 as int, p.1 as int))
                        == fraw.map_values(|p: (u32, usize)| (p.0 as int, p.1 as int))
                        + spec_pair_block(index as int, entry_seq));
                    assert(matches@.map_values(|e: Event| spec_event_payload(e)) == mraw.map_values(
                        |e: Event| spec_event_payload(e),
                    ) + scanned);
                    assert(fraw.map_values(|p: (u32, usize)| (p.0 as int, p.1 as int)) + (
                    spec_pair_block(index as int, entry_seq) + spec_session_malformed(
                        all.skip(i as int + 1),
                        index as int + 1,
                        limit,
                        *d,
                    )) =~= (fraw.map_values(|p: (u32, usize)| (p.0 as int, p.1 as int))
                        + spec_pair_block(index as int, entry_seq)) + spec_session_malformed(
                        all.skip(i as int + 1),
                        index as int + 1,
                        limit,
                        *d,
                    ));
                    assert(mraw.map_values(|e: Event| spec_event_payload(e)) + (scanned
                        + spec_session_matches(all.skip(i as int + 1), index as int + 1, limit, *d))
                        =~= (mraw.map_values(|e: Event| spec_event_payload(e)) + scanned)
                        + spec_session_matches(all.skip(i as int + 1), index as int + 1, limit, *d));
                }
                index = index + 1;
                i = i + 1;
            },
            SourceReply::NotYet => {
                backoffs = backoffs + 1;
                i = i + 1;
            },
            SourceReply::Unavailable => {
                failed = true;
            },
        }
    }
    let end: SessionEnd = if failed {
        SessionEnd::Failed
    } else if index >= limit {
        SessionEnd::Completed
    } else {
        proof {
            assert(all.skip(i as int) =~= Seq::<SourceReply>::empty());
        }
        SessionEnd::SourceExhausted
    };
    SessionReport { end, final_index: index, backoffs, matches, malformed }
}

/// Over a whole session the cursor never leaves `[start, limit]`: it is
/// never decremented and never overshoots, and it stands exactly at the
/// limit when and only when the session completed.
pub proof fn lemma_session_cursor_bounds(replies: Seq<SourceReply>, index: int, limit: u32)
    requires
        index <= limit,
    ensures
        index <= spec_session_final_index(replies, index, limit) <= limit,
        spec_session_end(replies, index, limit) == SessionEnd::Completed
            <==> spec_session_final_index(replies, index, limit) == limit,
    decreases replies.len(),
{
    if index < limit && replies.len() > 0 {
        match replies[0] {
            SourceReply::Produced(h, log) => lemma_session_cursor_bounds(
                replies.skip(1),
                index + 1,
                limit,
            ),
            SourceReply::NotYet => lemma_session_cursor_bounds(replies.skip(1), index, limit),
            SourceReply::Unavailable => {},
        }
    }
}

/// The cursor never moves backwards: whatever the source replies, the index
/// after a step is at least the index before it, and a backoff reply keeps
/// it exactly where it was — retrying the same block, skipping none.
pub proof fn lemma_cursor_monotonic(state: PollerState, limit: u32, reply: HashReply)
    requires
        state.wf(limit),
    ensures
        match spec_poll_step(state, limit, reply) {
            Ok(sa) => state.spec_index(limit) <= sa.0.spec_index(limit) && (sa.1
                == PollerAction::Backoff ==> sa.0.spec_index(limit) == state.spec_index(limit)),
            Err(e) => e == ClientError::TransportUnavailable,
        },
{
}

} // verus!
