//! Time-ordered 64-bit identifiers. An identifier holds, most significant
//! first, the clock tick (39 bits, ticks of 10 ms since a fixed epoch), the
//! machine identifier (16 bits) and a per-tick sequence number (8 bits).
use vstd::prelude::*;

verus! {

/// The largest tick the time field can hold (about 174 years of 10 ms ticks).
pub const MAX_TICK: u64 = 549755813887;

/// The largest per-tick sequence number.
pub const MAX_SEQUENCE: u16 = 255;

/// How many ticks the clock may step back before it counts as a regression.
pub const CLOCK_TOLERANCE: u64 = 10;

/// Why no identifier was issued.
#[derive(Debug, Clone, Copy, PartialEq, Eq, Structural)]
pub enum IdError {
    /// The clock went back further than the tolerance: the instance stops
    /// issuing identifiers until the clock is corrected.
    ClockRegression,
    /// Every sequence number of the current tick was used; retry on a later tick.
    SequenceExhausted,
}

/// The value that packs a tick, a machine identifier and a sequence number.
pub open spec fn compose(tick: int, machine: int, sequence: int) -> int {
    tick * 16777216 + machine * 256 + sequence
}

/// The state of a generator.
pub struct GeneratorState {
    pub machine_id: u16,
    pub last_timestamp: u64,
    pub sequence: u16,
}

impl GeneratorState {
    pub open spec fn wf(self) -> bool {
        self.last_timestamp <= MAX_TICK && self.sequence <= MAX_SEQUENCE
    }

    /// The identifier that the state stands at: every identifier issued so far
    /// is at most this one.
    pub open spec fn last_id(self) -> int {
        compose(self.last_timestamp as int, self.machine_id as int, self.sequence as int)
    }

    /// One request for an identifier at clock tick `now`: the next state and
    /// the outcome. On an error the state stays as it was.
    pub open spec fn next(self, now: u64) -> (GeneratorState, Result<u64, IdError>) {
        if now > self.last_timestamp {
            let s = GeneratorState { last_timestamp: now, sequence: 0, ..self };
            (s, Ok(s.last_id() as u64))
        } else if self.last_timestamp - now <= CLOCK_TOLERANCE {
            if self.sequence >= MAX_SEQUENCE {
                (self, Err(IdError::SequenceExhausted))
            } else {
                let s = GeneratorState { sequence: (self.sequence + 1) as u16, ..self };
                (s, Ok(s.last_id() as u64))
            }
        } else {
            (self, Err(IdError::ClockRegression))
        }
    }
}

/// A generator of unique identifiers for one machine identifier. One instance
/// per machine identifier may run at a time; callers share it behind a lock.
pub struct IdGenerator {
    machine_id: u16,
    last_timestamp: u64,
    sequence: u16,
}

impl View for IdGenerator {
    type V = GeneratorState;

    closed spec fn view(&self) -> GeneratorState {
        GeneratorState {
            machine_id: self.machine_id,
            last_timestamp: self.last_timestamp,
            sequence: self.sequence,
        }
    }
}

proof fn lemma_compose_bound(tick: int, machine: int, sequence: int)
    requires
        0 <= tick <= MAX_TICK,
        0 <= machine <= 65535,
        0 <= sequence <= MAX_SEQUENCE,
    ensures
        0 <= compose(tick, machine, sequence) <= u64::MAX,
{
}

impl IdGenerator {
    /// A generator for `machine_id` that has issued nothing yet.
    pub fn new(machine_id: u16) -> (r: IdGenerator)
        ensures
            r@ == (GeneratorState { machine_id, last_timestamp: 0, sequence: 0 }),
            r@.wf(),
    {
        IdGenerator { machine_id, last_timestamp: 0, sequence: 0 }
    }

    pub fn machine_id(&self) -> (r: u16)
        ensures
            r == self@.machine_id,
    {
        self.machine_id
    }

    /// Issues the identifier for clock tick `now` (see `GeneratorState::next`).
    pub fn next_id(&mut self, now: u64) -> (r: Result<u64, IdError>)
        requires
            old(self)@.wf(),
            now <= MAX_TICK,
        ensures
            (final(self)@, r) == old(self)@.next(now),
            final(self)@.wf(),
    {
        if now > self.last_timestamp {
            self.last_timestamp = now;
            self.sequence = 0;
        } else if self.last_timestamp - now <= CLOCK_TOLERANCE {
            if self.sequence >= MAX_SEQUENCE {
                return Err(IdError::SequenceExhausted);
            }
            self.sequence = self.sequence + 1;
        } else {
            return Err(IdError::ClockRegression);
        }
        proof {
            lemma_compose_bound(
                self.last_timestamp as int,
                self.machine_id as int,
                self.sequence as int,
            );
        }
        Ok(self.last_timestamp * 16777216 + (self.machine_id as u64) * 256 + self.sequence as u64)
    }
}

/// A successful request moves the state strictly forward and returns the
/// identifier the new state stands at.
pub proof fn lemma_next_advances(s: GeneratorState, now: u64)
    requires
        s.wf(),
        now <= MAX_TICK,
        s.next(now).1 is Ok,
    ensures
        s.next(now).0.wf(),
        s.next(now).0.machine_id == s.machine_id,
        s.next(now).0.last_id() > s.last_id(),
        s.next(now).1->Ok_0 == s.next(now).0.last_id(),
{
    let t = s.next(now).0;
    lemma_compose_bound(t.last_timestamp as int, t.machine_id as int, t.sequence as int);
}

/// Identifiers issued by successive successful requests to one generator are
/// strictly increasing, hence pairwise distinct.
pub proof fn lemma_sequential_ids_increase(
    states: Seq<GeneratorState>,
    nows: Seq<u64>,
    ids: Seq<u64>,
)
    requires
        states.len() == ids.len() + 1,
        nows.len() == ids.len(),
        states[0].wf(),
        forall|i: int| 0 <= i < nows.len() ==> #[trigger] nows[i] <= MAX_TICK,
        forall|i: int|
            0 <= i < ids.len() ==> #[trigger] states[i].next(nows[i]) == (states[i + 1], Ok::<
                u64,
                IdError,
            >(ids[i])),
    ensures
        forall|i: int, j: int| 0 <= i < j < ids.len() ==> ids[i] < ids[j],
{
    lemma_states_advance(states, nows, ids, ids.len() as int);
    assert forall|i: int, j: int| 0 <= i < j < ids.len() implies ids[i] < ids[j] by {
        lemma_advance_from(states, ids, i + 1, j);
    }
}

proof fn lemma_states_advance(
    states: Seq<GeneratorState>,
    nows: Seq<u64>,
    ids: Seq<u64>,
    k: int,
)
    requires
        states.len() == ids.len() + 1,
        nows.len() == ids.len(),
        states[0].wf(),
        0 <= k <= ids.len(),
        forall|i: int| 0 <= i < nows.len() ==> #[trigger] nows[i] <= MAX_TICK,
        forall|i: int|
            0 <= i < ids.len() ==> #[trigger] states[i].next(nows[i]) == (states[i + 1], Ok::<
                u64,
                IdError,
            >(ids[i])),
    ensures
        forall|i: int| 0 <= i <= k ==> #[trigger] states[i].wf(),
        forall|i: int| 0 <= i < k ==> states[i + 1].last_id() > #[trigger] states[i].last_id(),
        forall|i: int| 0 <= i < k ==> ids[i] == #[trigger] states[i + 1].last_id(),
    decreases k,
{
    if k > 0 {
        lemma_states_advance(states, nows, ids, k - 1);
        assert(states[k - 1].next(nows[k - 1]) == (states[k], Ok::<u64, IdError>(ids[k - 1])));
        lemma_next_advances(states[k - 1], nows[k - 1]);
    }
}

proof fn lemma_advance_from(states: Seq<GeneratorState>, ids: Seq<u64>, a: int, b: int)
    requires
        states.len() == ids.len() + 1,
        1 <= a <= b <= ids.len(),
        forall|i: int| 0 <= i < ids.len() ==> states[i + 1].last_id() > #[trigger] states[i].last_id(),
        forall|i: int| 0 <= i < ids.len() ==> ids[i] == #[trigger] states[i + 1].last_id(),
    ensures
        states[a].last_id() <= states[b].last_id(),
        a < b ==> states[a].last_id() < states[b].last_id(),
    decreases b - a,
{
    if a < b {
        lemma_advance_from(states, ids, a, b - 1);
        assert(states[b].last_id() > states[b - 1].last_id());
    }
}

} // verus!
