//! The sampling loop, as far as it decides: what a sample does to the
//! cache, what the metrics are to record, and in which order a tick goes
//! through the probes. Reading the sensors and sleeping is the caller's.

use vstd::prelude::*;
use crate::cache::{all_absent, display_names, Reading, TemperatureCache};
use crate::probe::{resolved, Probe, ProbeView};
use crate::sensor::ReadError;

verus! {

/// What the metrics are to record of one sample.
#[derive(Clone, Copy, Debug, PartialEq, Eq, Structural)]
pub enum SampleEvent {
    /// A reading: set the raw and the calibrated gauge of the probe.
    Measured { raw: i32, calibrated: i64 },
    /// A failure: count it for the probe under its class.
    Failed { class: ReadError },
}

/// What the cache holds for a probe after a sample: the raw value plus the
/// probe's offset, or nothing where the read failed.
pub open spec fn reading_after(probe: ProbeView, outcome: Result<i32, ReadError>) -> Reading {
    match outcome {
        Ok(raw) => Some((raw + probe.offset) as i64),
        Err(_) => None,
    }
}

/// What the metrics are to record of a sample.
pub open spec fn event_of(probe: ProbeView, outcome: Result<i32, ReadError>) -> SampleEvent {
    match outcome {
        Ok(raw) => SampleEvent::Measured { raw, calibrated: (raw + probe.offset) as i64 },
        Err(class) => SampleEvent::Failed { class },
    }
}

/// The cache after one write: the reading replaces what stood under a
/// known name, and an unknown name changes nothing.
pub open spec fn written(
    cache: Map<Seq<char>, Reading>,
    name: Seq<char>,
    reading: Reading,
) -> Map<Seq<char>, Reading> {
    if cache.contains_key(name) {
        cache.insert(name, reading)
    } else {
        cache
    }
}

/// Takes the outcome of one read of one probe into the cache and says
/// what the metrics are to record. No other entry is touched.
pub fn record_sample(
    cache: &mut TemperatureCache,
    probe: &Probe,
    outcome: Result<i32, ReadError>,
) -> (event: SampleEvent)
    ensures
        event == event_of(probe@, outcome),
        final(cache)@ == written(old(cache)@, probe@.name, reading_after(probe@, outcome)),
        final(cache)@.dom() == old(cache)@.dom(),
{
    match outcome {
        Ok(raw) => {
            let calibrated = probe.calibrate(raw);
            cache.record(probe.name.as_str(), Some(calibrated));
            SampleEvent::Measured { raw, calibrated }
        },
        Err(class) => {
            cache.record(probe.name.as_str(), None);
            SampleEvent::Failed { class }
        },
    }
}

/// The cache after a run of writes, the first of them first.
pub open spec fn replay(
    cache: Map<Seq<char>, Reading>,
    writes: Seq<(Seq<char>, Reading)>,
) -> Map<Seq<char>, Reading>
    decreases writes.len(),
{
    if writes.len() == 0 {
        cache
    } else {
        written(replay(cache, writes.drop_last()), writes.last().0, writes.last().1)
    }
}

/// The reading of the last write under `name`, if there is one.
pub open spec fn last_write(writes: Seq<(Seq<char>, Reading)>, name: Seq<char>) -> Option<Reading>
    decreases writes.len(),
{
    if writes.len() == 0 {
        None
    } else if writes.last().0 == name {
        Some(writes.last().1)
    } else {
        last_write(writes.drop_last(), name)
    }
}

/// However many writes there are and whatever they hold, the cache keeps
/// the names it was made with.
pub proof fn lemma_names_are_fixed(cache: Map<Seq<char>, Reading>, writes: Seq<(Seq<char>, Reading)>)
    ensures
        replay(cache, writes).dom() == cache.dom(),
    decreases writes.len(),
{
    if writes.len() > 0 {
        lemma_names_are_fixed(cache, writes.drop_last());
        let earlier = replay(cache, writes.drop_last());
        assert(written(earlier, writes.last().0, writes.last().1).dom() =~= earlier.dom());
    }
}

/// A read finds under each name the reading of the last write under that
/// name, whole, or what the cache held at first where nothing was
/// written under it.
pub proof fn lemma_last_writer_wins(
    cache: Map<Seq<char>, Reading>,
    writes: Seq<(Seq<char>, Reading)>,
    name: Seq<char>,
)
    requires
        cache.contains_key(name),
    ensures
        replay(cache, writes).contains_key(name),
        replay(cache, writes)[name] == match last_write(writes, name) {
            Some(reading) => reading,
            None => cache[name],
        },
    decreases writes.len(),
{
    if writes.len() > 0 {
        lemma_last_writer_wins(cache, writes.drop_last(), name);
        lemma_names_are_fixed(cache, writes.drop_last());
    }
}

/// The writes of one tick: for each probe, in order, what its read came
/// to.
pub open spec fn tick_writes(
    probes: Seq<ProbeView>,
    outcomes: Seq<Result<i32, ReadError>>,
) -> Seq<(Seq<char>, Reading)> {
    Seq::new(probes.len(), |i: int| (probes[i].name, reading_after(probes[i], outcomes[i])))
}

/// No probe after the one at `i` goes by the same display name.
pub open spec fn last_of_its_name(probes: Seq<ProbeView>, i: int) -> bool {
    forall|j: int| i < j < probes.len() ==> (#[trigger] probes[j]).name != probes[i].name
}

/// After a tick each probe's entry holds what its own read came to,
/// calibrated by its own offset, whatever became of the other reads.
pub proof fn lemma_reads_are_isolated(
    cache: Map<Seq<char>, Reading>,
    probes: Seq<ProbeView>,
    outcomes: Seq<Result<i32, ReadError>>,
    i: int,
)
    requires
        probes.len() == outcomes.len(),
        0 <= i < probes.len(),
        last_of_its_name(probes, i),
        cache.contains_key(probes[i].name),
    ensures
        replay(cache, tick_writes(probes, outcomes))[probes[i].name] == reading_after(
            probes[i],
            outcomes[i],
        ),
{
    let writes = tick_writes(probes, outcomes);
    lemma_last_writer_wins(cache, writes, probes[i].name);
    lemma_last_write_of_tick(probes, outcomes, i, probes.len() as int);
    assert(writes.take(probes.len() as int) =~= writes);
}

proof fn lemma_last_write_of_tick(
    probes: Seq<ProbeView>,
    outcomes: Seq<Result<i32, ReadError>>,
    i: int,
    upto: int,
)
    requires
        probes.len() == outcomes.len(),
        last_of_its_name(probes, i),
        0 <= i < upto <= probes.len(),
    ensures
        last_write(tick_writes(probes, outcomes).take(upto), probes[i].name) == Some(
            reading_after(probes[i], outcomes[i]),
        ),
    decreases upto,
{
    let writes = tick_writes(probes, outcomes).take(upto);
    assert(writes.last() == (probes[upto - 1].name, reading_after(probes[upto - 1], outcomes[upto - 1])));
    if i < upto - 1 {
        assert(writes.drop_last() =~= tick_writes(probes, outcomes).take(upto - 1));
        lemma_last_write_of_tick(probes, outcomes, i, upto - 1);
    }
}

/// The first tick leaves under each probe's name what the probe's own read
/// came to, and nothing under any name but the probes'.
pub proof fn lemma_first_tick(
    probes: Seq<ProbeView>,
    outcomes: Seq<Result<i32, ReadError>>,
    i: int,
)
    requires
        probes.len() == outcomes.len(),
        0 <= i < probes.len(),
        last_of_its_name(probes, i),
    ensures
        replay(all_absent(display_names(probes)), tick_writes(probes, outcomes)).dom()
            == display_names(probes),
        replay(all_absent(display_names(probes)), tick_writes(probes, outcomes))[probes[i].name]
            == reading_after(probes[i], outcomes[i]),
{
    let start = all_absent(display_names(probes));
    assert(display_names(probes).contains(probes[i].name));
    assert(start.dom() =~= display_names(probes));
    lemma_names_are_fixed(start, tick_writes(probes, outcomes));
    lemma_reads_are_isolated(start, probes, outcomes, i);
}

/// A sensor without a configured offset is cached at its raw value.
pub proof fn lemma_unconfigured_offset(
    id: Seq<char>,
    labels: Map<Seq<char>, String>,
    offsets: Map<Seq<char>, i32>,
    raw: i32,
)
    requires
        !offsets.contains_key(id),
    ensures
        reading_after(resolved(id, labels, offsets), Ok(raw)) == Some(raw as i64),
{
}

/// A sensor with a configured offset is cached at its raw value plus that
/// offset.
pub proof fn lemma_configured_offset(
    id: Seq<char>,
    labels: Map<Seq<char>, String>,
    offsets: Map<Seq<char>, i32>,
    raw: i32,
)
    requires
        offsets.contains_key(id),
    ensures
        reading_after(resolved(id, labels, offsets), Ok(raw)) == Some((raw + offsets[id]) as i64),
        reading_after(resolved(id, labels, offsets), Ok(raw))->0 == raw + offsets[id],
{
}

/// What the sampling loop is to do next.
#[derive(Clone, Copy, Debug, PartialEq, Eq, Structural)]
pub enum Action {
    /// Read the probe at this place in the list of probes.
    Read { probe: usize },
    /// The tick is over: wait this many seconds.
    Sleep { seconds: u64 },
}

/// The place in the round after the step taken at `position`: on to the
/// next probe, or back to the first once the sleep is due.
pub open spec fn position_after(probes: nat, position: nat) -> nat {
    if position < probes {
        position + 1
    } else {
        0
    }
}

/// The step taken at `position`: a read of the probe there, or the sleep
/// once every probe was read.
pub open spec fn action_at(probes: nat, interval: u64, position: nat) -> Action {
    if position < probes {
        Action::Read { probe: position as usize }
    } else {
        Action::Sleep { seconds: interval }
    }
}

/// The place in the round after `steps` steps from the start.
pub open spec fn position_after_steps(probes: nat, steps: nat) -> nat
    decreases steps,
{
    if steps == 0 {
        0
    } else {
        position_after(probes, position_after_steps(probes, (steps - 1) as nat))
    }
}

/// The loop goes round for ever: every read in the order of the probes,
/// then the sleep, then the first probe again.
pub proof fn lemma_round(probes: nat, steps: nat)
    ensures
        position_after_steps(probes, steps) == steps % (probes + 1),
    decreases steps,
{
    let m = (probes + 1) as int;
    if steps == 0 {
        assert(0int % m == 0) by (nonlinear_arith)
            requires
                m > 0,
        ;
    } else {
        lemma_round(probes, (steps - 1) as nat);
        let k = (steps - 1) as int;
        assert(0 <= k % m < m && (k + 1) % m == if k % m + 1 < m {
            k % m + 1
        } else {
            0
        }) by (nonlinear_arith)
            requires
                m > 0,
                k >= 0,
        ;
    }
}

/// Where the sampling loop stands in its round over the probes.
#[derive(Debug)]
pub struct Schedule {
    probes: usize,
    interval: u64,
    position: usize,
}

impl Schedule {
    /// The number of probes in a round.
    pub closed spec fn probes(&self) -> nat {
        self.probes as nat
    }

    /// The seconds slept between two rounds.
    pub closed spec fn interval(&self) -> u64 {
        self.interval
    }

    /// The place of the probe to read next, or the number of probes once
    /// the sleep is due.
    pub closed spec fn position(&self) -> nat {
        self.position as nat
    }

    #[verifier::type_invariant]
    spec fn within_round(&self) -> bool {
        self.position <= self.probes
    }

    /// The schedule at the start of the first tick.
    pub fn new(probes: usize, interval: u64) -> (schedule: Self)
        ensures
            schedule.probes() == probes,
            schedule.interval() == interval,
            schedule.position() == 0,
    {
        Schedule { probes, interval, position: 0 }
    }

    /// Says what to do next and moves on.
    pub fn advance(&mut self) -> (action: Action)
        ensures
            action == action_at(old(self).probes(), old(self).interval(), old(self).position()),
            final(self).position() == position_after(old(self).probes(), old(self).position()),
            final(self).probes() == old(self).probes(),
            final(self).interval() == old(self).interval(),
    {
        proof {
            use_type_invariant(&*self);
        }
        if self.position < self.probes {
            let probe = self.position;
            self.position = probe + 1;
            Action::Read { probe }
        } else {
            self.position = 0;
            Action::Sleep { seconds: self.interval }
        }
    }
}

} // verus!
