//! The latest reading of every probe, by display name.
//!
//! The names are fixed when the cache is made: one entry for each probe,
//! absent until the first sample. After that entries are only replaced.

use vstd::prelude::*;
use vstd::string::*;
use crate::probe::{views_of, Probe, ProbeView};
use crate::table::{as_map, ascending, Table};

verus! {

/// A calibrated temperature in thousandths of a degree, or nothing where
/// the latest read failed.
pub type Reading = Option<i64>;

/// The display names of the probes.
pub open spec fn display_names(probes: Seq<ProbeView>) -> Set<Seq<char>> {
    Set::new(|name: Seq<char>| exists|i: int| 0 <= i < probes.len() && (#[trigger] probes[i]).name == name)
}

/// The map that holds no reading under each of the names.
pub open spec fn all_absent(names: Set<Seq<char>>) -> Map<Seq<char>, Reading> {
    Map::new(|name: Seq<char>| names.contains(name), |name: Seq<char>| None::<i64>)
}

/// The latest reading of every probe.
#[derive(Debug)]
pub struct TemperatureCache {
    readings: Table<Reading>,
}

impl TemperatureCache {
    /// The entries in ascending order of name.
    pub closed spec fn listing(&self) -> Seq<(Seq<char>, Reading)> {
        self.readings.listing()
    }

    /// The entries stand in strictly ascending order of name.
    #[verifier::type_invariant]
    pub open spec fn wf(&self) -> bool {
        ascending(self.listing())
    }

    /// The cache as a map from display names to readings.
    pub open spec fn view(&self) -> Map<Seq<char>, Reading> {
        as_map(self.listing())
    }

    /// The cache at startup: every probe's name, and no reading yet.
    pub fn new(probes: &[Probe]) -> (cache: Self)
        ensures
            cache.wf(),
            cache@ == all_absent(display_names(views_of(probes@))),
    {
        let mut readings: Table<Reading> = Table::new();
        let ghost views = views_of(probes@);
        assert(readings@ =~= all_absent(display_names(views.take(0))));
        let mut i: usize = 0;
        while i < probes.len()
            invariant
                i <= probes.len(),
                views == views_of(probes@),
                readings.wf(),
                readings@ == all_absent(display_names(views.take(i as int))),
            decreases probes.len() - i,
        {
            let name = probes[i].name.clone();
            proof {
                let before = views.take(i as int);
                let after = views.take(i + 1);
                assert(after[i as int].name == name@);
                assert forall|key: Seq<char>| display_names(after).contains(key) <==> (key == name@
                    || display_names(before).contains(key)) by {
                    if display_names(after).contains(key) {
                        let k = choose|k: int| 0 <= k < after.len() && (#[trigger] after[k]).name == key;
                        if k < i {
                            assert(before[k].name == key);
                        }
                    }
                    if display_names(before).contains(key) {
                        let k = choose|k: int| 0 <= k < before.len() && (#[trigger] before[k]).name == key;
                        assert(after[k].name == key);
                    }
                }
                assert(all_absent(display_names(before)).insert(name@, None) =~= all_absent(
                    display_names(after),
                ));
            }
            readings.insert(name, None);
            i += 1;
        }
        assert(views.take(i as int) =~= views);
        TemperatureCache { readings }
    }

    /// The number of entries.
    pub fn len(&self) -> (n: usize)
        ensures
            n == self.listing().len(),
            n == self@.dom().len(),
    {
        self.readings.len()
    }

    /// The name of entry `i`, in ascending order of name.
    pub fn name_at(&self, i: usize) -> (name: &str)
        requires
            i < self.listing().len(),
        ensures
            name@ == self.listing()[i as int].0,
    {
        self.readings.name_at(i)
    }

    /// The reading of entry `i`, in ascending order of name.
    pub fn reading_at(&self, i: usize) -> (reading: Reading)
        requires
            i < self.listing().len(),
        ensures
            reading == self.listing()[i as int].1,
    {
        *self.readings.value_at(i)
    }

    /// What the cache holds under `name`: `None` for a name that it does
    /// not know, `Some(None)` for a probe without a reading.
    pub fn get(&self, name: &str) -> (entry: Option<Reading>)
        ensures
            entry == if self@.contains_key(name@) {
                Some(self@[name@])
            } else {
                None
            },
    {
        match self.readings.get(name) {
            Some(reading) => Some(*reading),
            None => None,
        }
    }

    /// Replaces the reading under `name` and says whether the name is
    /// known. An unknown name changes nothing: the names are fixed.
    pub fn record(&mut self, name: &str, reading: Reading) -> (known: bool)
        ensures
            final(self).wf(),
            known == old(self)@.contains_key(name@),
            final(self)@ == if known {
                old(self)@.insert(name@, reading)
            } else {
                old(self)@
            },
            final(self)@.dom() == old(self)@.dom(),
    {
        let mut readings: Table<Reading> = Table::new();
        core::mem::swap(&mut self.readings, &mut readings);
        let known = readings.replace(name, reading);
        self.readings = readings;
        known
    }

    /// A copy of the cache as it stands, for a reader to work on.
    pub fn snapshot(&self) -> (copy: Self)
        ensures
            copy.wf(),
            copy.listing() == self.listing(),
            copy@ == self@,
    {
        TemperatureCache { readings: self.readings.duplicate() }
    }
}

} // verus!
