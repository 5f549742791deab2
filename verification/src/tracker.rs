//! The sampling loop's state machine.
//!
//! The loop holds one piece of state between ticks: the title seen on the
//! previous tick, empty before the first tick. Each tick compares the newly
//! sampled title against it; a change closes the running session and, unless
//! the state was still initial, emits one [`LogRecord`] for it. The spec
//! function [`emits`] says exactly when a tick emits, and
//! [`lemma_emit_count_is_runs_minus_one`] proves the run-counting law for
//! whole probe sequences.

use vstd::prelude::*;

use crate::numeral::is_digit;
use crate::record::LogRecord;

verus! {

/// State carried from one tick to the next: the title sampled on the
/// previous tick. Empty means no session has started yet.
pub struct LoopState {
    /// Title sampled on the previous tick; empty before the first tick.
    pub previous_title: Vec<u8>,
}

impl LoopState {
    /// The state before the first tick: no title seen yet.
    pub fn new() -> (s: LoopState)
        ensures
            s.previous_title@ == Seq::<u8>::empty(),
    {
        LoopState { previous_title: Vec::new() }
    }
}

/// Everything one tick decides: the state for the next tick, whether the
/// sampled title differed from the tracked one (so the caller restarts its
/// session clock), and the record to append, if any.
pub struct TickOutcome {
    /// State to carry into the next tick.
    pub state: LoopState,
    /// Whether the sampled title differed from the tracked one.
    pub transitioned: bool,
    /// The record closing the just-ended session, when one is owed.
    pub record: Option<LogRecord>,
}

/// Whether a tick that sees `current` while tracking `previous` emits a
/// record: the title changed, and some session was actually open.
pub open spec fn emits(previous: Seq<u8>, current: Seq<u8>) -> bool {
    current != previous && previous.len() > 0
}

/// Byte-for-byte equality of two titles.
fn bytes_eq(a: &Vec<u8>, b: &Vec<u8>) -> (r: bool)
    ensures
        r == (a@ == b@),
{
    if a.len() != b.len() {
        return false;
    }
    let mut i: usize = 0;
    while i < a.len()
        invariant
            0 <= i <= a@.len(),
            a@.len() == b@.len(),
            forall|j: int| 0 <= j < i ==> a@[j] == b@[j],
        decreases a@.len() - i,
    {
        if a[i] != b[i] {
            return false;
        }
        i = i + 1;
    }
    proof {
        assert(a@ =~= b@);
    }
    true
}

/// One tick of the loop, with the session-end timestamp supplied by the
/// caller. Emits a record exactly when the title changed away from a
/// nonempty tracked title; the record closes the previous session with the
/// given timestamp and elapsed seconds. The new state always tracks the
/// sampled title.
pub fn tick(
    state: LoopState,
    current_title: Vec<u8>,
    end_timestamp: Vec<u8>,
    elapsed_secs: u64,
) -> (out: TickOutcome)
    ensures
        out.state.previous_title@ == current_title@,
        out.transitioned == (current_title@ != state.previous_title@),
        out.record is Some == emits(state.previous_title@, current_title@),
        out.record matches Some(rec) ==> rec.window_title@ == state.previous_title@
            && rec.end_timestamp@ == end_timestamp@ && rec.duration_secs == elapsed_secs,
{
    let unchanged = bytes_eq(&state.previous_title, &current_title);
    if unchanged {
        TickOutcome { state, transitioned: false, record: None }
    } else if state.previous_title.len() == 0 {
        TickOutcome {
            state: LoopState { previous_title: current_title },
            transitioned: true,
            record: None,
        }
    } else {
        let record = LogRecord {
            window_title: state.previous_title,
            end_timestamp,
            duration_secs: elapsed_secs,
        };
        TickOutcome {
            state: LoopState { previous_title: current_title },
            transitioned: true,
            record: Some(record),
        }
    }
}

/// The shape of every rendered session-end timestamp, `YYYY-MM-DD
/// HH:MM:SS`: a year of at least four digits (a sign first only outside
/// the four-digit range), then month, day, hour, minute and second as
/// two-digit zero-padded fields with their fixed separators — the last
/// fifteen bytes of the stamp.
pub open spec fn timestamp_shape(s: Seq<u8>) -> bool {
    let n = s.len() as int;
    &&& n >= 19
    &&& (is_digit(s[0]) || s[0] == 0x2b || s[0] == 0x2d)
    &&& (forall|i: int| 1 <= i < n - 15 ==> is_digit(s[i]))
    &&& s[n - 15] == 0x2d
    &&& is_digit(s[n - 14]) && is_digit(s[n - 13])
    &&& s[n - 12] == 0x2d
    &&& is_digit(s[n - 11]) && is_digit(s[n - 10])
    &&& s[n - 9] == 0x20
    &&& is_digit(s[n - 8]) && is_digit(s[n - 7])
    &&& s[n - 6] == 0x3a
    &&& is_digit(s[n - 5]) && is_digit(s[n - 4])
    &&& s[n - 3] == 0x3a
    &&& is_digit(s[n - 2]) && is_digit(s[n - 1])
}

/// Relies on `chrono::Local::now` and `chrono`'s `format` with
/// `%Y-%m-%d %H:%M:%S`: `%Y` writes the year zero-padded to at least four
/// digits, with a sign only for years outside zero to ten thousand, and
/// the remaining fields are two-digit zero-padded with fixed separators,
/// so every outcome has [`timestamp_shape`].
#[verifier::external_body]
fn current_timestamp() -> (r: Vec<u8>)
    ensures
        timestamp_shape(r@),
{
    chrono::Local::now().format("%Y-%m-%d %H:%M:%S").to_string().into_bytes()
}

/// One tick of the loop against the real calendar clock: as [`tick`], with
/// the session-end timestamp read from the system when a record is owed,
/// so the emitted record's timestamp has the `YYYY-MM-DD HH:MM:SS` shape.
pub fn tick_with_clock(state: LoopState, current_title: Vec<u8>, elapsed_secs: u64) -> (out:
    TickOutcome)
    ensures
        out.state.previous_title@ == current_title@,
        out.transitioned == (current_title@ != state.previous_title@),
        out.record is Some == emits(state.previous_title@, current_title@),
        out.record matches Some(rec) ==> rec.window_title@ == state.previous_title@
            && timestamp_shape(rec.end_timestamp@) && rec.duration_secs == elapsed_secs,
{
    let will_emit = !bytes_eq(&state.previous_title, &current_title)
        && state.previous_title.len() > 0;
    let end_timestamp = if will_emit {
        current_timestamp()
    } else {
        Vec::new()
    };
    tick(state, current_title, end_timestamp, elapsed_secs)
}

/// How many records a run of the loop emits over the titles still to come,
/// having tracked `previous` so far.
pub open spec fn emit_count_from(previous: Seq<u8>, titles: Seq<Seq<u8>>) -> nat
    decreases titles.len(),
{
    if titles.len() == 0 {
        0
    } else {
        (if emits(previous, titles[0]) {
            1nat
        } else {
            0nat
        }) + emit_count_from(titles[0], titles.drop_first())
    }
}

/// How many records a whole run of the loop emits over a probe sequence,
/// starting from the initial (empty) state.
pub open spec fn emit_count(titles: Seq<Seq<u8>>) -> nat {
    emit_count_from(Seq::empty(), titles)
}

/// How many maximal runs of equal consecutive titles remain, the first of
/// them already opened by `previous`.
pub open spec fn run_count_from(previous: Seq<u8>, titles: Seq<Seq<u8>>) -> nat
    decreases titles.len(),
{
    if titles.len() == 0 {
        0
    } else {
        (if titles[0] != previous {
            1nat
        } else {
            0nat
        }) + run_count_from(titles[0], titles.drop_first())
    }
}

/// The number of maximal runs of equal consecutive titles in a probe
/// sequence.
pub open spec fn run_count(titles: Seq<Seq<u8>>) -> nat {
    if titles.len() == 0 {
        0
    } else {
        1 + run_count_from(titles[0], titles.drop_first())
    }
}

/// Once a session is open, every further run opens with exactly one
/// emitted record.
proof fn lemma_emit_count_in_session(previous: Seq<u8>, titles: Seq<Seq<u8>>)
    requires
        previous.len() > 0,
        forall|i: int| 0 <= i < titles.len() ==> titles[i].len() > 0,
    ensures
        emit_count_from(previous, titles) == run_count_from(previous, titles),
    decreases titles.len(),
{
    if titles.len() > 0 {
        assert(titles[0].len() > 0);
        assert(forall|i: int|
            0 <= i < titles.drop_first().len() ==> titles.drop_first()[i] == titles[i + 1]);
        lemma_emit_count_in_session(titles[0], titles.drop_first());
    }
}

/// A probe that reports the same title on every tick, however long the
/// run, never has a record emitted: the one session never closes.
pub proof fn lemma_constant_titles_emit_nothing(titles: Seq<Seq<u8>>, title: Seq<u8>)
    requires
        forall|i: int| 0 <= i < titles.len() ==> titles[i] == title,
    ensures
        emit_count(titles) == 0,
{
    lemma_constant_suffix_emits_nothing(Seq::empty(), titles, title);
}

/// Helper for the constant-probe law: whatever title is tracked, a stretch
/// of equal upcoming titles emits at most on its first tick, and not even
/// there when the tracked title already equals it or is empty.
proof fn lemma_constant_suffix_emits_nothing(previous: Seq<u8>, titles: Seq<Seq<u8>>, title: Seq<u8>)
    requires
        forall|i: int| 0 <= i < titles.len() ==> titles[i] == title,
        previous == Seq::<u8>::empty() || previous == title,
    ensures
        emit_count_from(previous, titles) == 0,
    decreases titles.len(),
{
    if titles.len() > 0 {
        assert(!emits(previous, titles[0]));
        assert(forall|i: int|
            0 <= i < titles.drop_first().len() ==> titles.drop_first()[i] == titles[i + 1]);
        lemma_constant_suffix_emits_nothing(titles[0], titles.drop_first(), title);
    }
}

/// The run-counting law: over any probe sequence of nonempty titles, the
/// loop emits exactly one record per maximal run of equal consecutive
/// titles, except the first run, which only opens the first session.
pub proof fn lemma_emit_count_is_runs_minus_one(titles: Seq<Seq<u8>>)
    requires
        forall|i: int| 0 <= i < titles.len() ==> titles[i].len() > 0,
    ensures
        titles.len() == 0 ==> emit_count(titles) == 0,
        titles.len() > 0 ==> emit_count(titles) == run_count(titles) - 1,
{
    if titles.len() > 0 {
        assert(!emits(Seq::empty(), titles[0]));
        assert(forall|i: int|
            0 <= i < titles.drop_first().len() ==> titles.drop_first()[i] == titles[i + 1]);
        lemma_emit_count_in_session(titles[0], titles.drop_first());
    }
}

} // verus!
