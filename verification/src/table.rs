//! A small map from names to values that keeps its rows in ascending
//! order of name, so that a walk over it needs no sorting.

use vstd::prelude::*;
use vstd::string::*;
use crate::text::{
    lemma_precedes_asymmetric, lemma_precedes_transitive, placement, precedes, Placement,
};

verus! {

/// The rows stand in strictly ascending order of name.
pub open spec fn ascending<V>(rows: Seq<(Seq<char>, V)>) -> bool {
    forall|i: int, j: int|
        0 <= i < j < rows.len() ==> precedes((#[trigger] rows[i]).0, (#[trigger] rows[j]).0)
}

/// Some row carries `name`.
pub open spec fn has_name<V>(rows: Seq<(Seq<char>, V)>, name: Seq<char>) -> bool {
    exists|i: int| 0 <= i < rows.len() && (#[trigger] rows[i]).0 == name
}

/// The place of a row that carries `name`.
pub open spec fn row_of<V>(rows: Seq<(Seq<char>, V)>, name: Seq<char>) -> int {
    choose|i: int| 0 <= i < rows.len() && (#[trigger] rows[i]).0 == name
}

/// The rows read as a map.
pub open spec fn as_map<V>(rows: Seq<(Seq<char>, V)>) -> Map<Seq<char>, V> {
    Map::new(|name: Seq<char>| has_name(rows, name), |name: Seq<char>| rows[row_of(rows, name)].1)
}

/// In ascending rows every name stands in one place only.
pub proof fn lemma_row_of<V>(rows: Seq<(Seq<char>, V)>, i: int)
    requires
        ascending(rows),
        0 <= i < rows.len(),
    ensures
        has_name(rows, rows[i].0),
        row_of(rows, rows[i].0) == i,
        as_map(rows).contains_key(rows[i].0),
        as_map(rows)[rows[i].0] == rows[i].1,
{
    let j = row_of(rows, rows[i].0);
    assert(rows[i].0 == rows[i].0);
    if i < j {
        lemma_precedes_asymmetric(rows[i].0, rows[j].0);
    } else if j < i {
        lemma_precedes_asymmetric(rows[j].0, rows[i].0);
    }
}

/// A new name put in its place keeps the order and adds one entry.
pub proof fn lemma_insert_row<V>(rows: Seq<(Seq<char>, V)>, at: int, name: Seq<char>, value: V)
    requires
        ascending(rows),
        0 <= at <= rows.len(),
        forall|i: int| 0 <= i < at ==> precedes((#[trigger] rows[i]).0, name),
        at < rows.len() ==> precedes(name, rows[at].0),
    ensures
        ascending(rows.insert(at, (name, value))),
        as_map(rows.insert(at, (name, value))) == as_map(rows).insert(name, value),
        !has_name(rows, name),
{
    let grown = rows.insert(at, (name, value));
    assert forall|i: int| at <= i < rows.len() implies precedes(name, (#[trigger] rows[i]).0) by {
        if at < i {
            lemma_precedes_transitive(name, rows[at].0, rows[i].0);
        }
    }
    assert forall|i: int, j: int| 0 <= i < j < grown.len() implies precedes(
        (#[trigger] grown[i]).0,
        (#[trigger] grown[j]).0,
    ) by {
        if j < at {
            assert(grown[i] == rows[i] && grown[j] == rows[j]);
        } else if j == at {
            assert(grown[i] == rows[i]);
        } else if i < at {
            assert(grown[i] == rows[i] && grown[j] == rows[j - 1]);
            if i < j - 1 {
            } else {
                lemma_precedes_transitive(rows[i].0, name, rows[j - 1].0);
            }
        } else if i == at {
            assert(grown[j] == rows[j - 1]);
        } else {
            assert(grown[i] == rows[i - 1] && grown[j] == rows[j - 1]);
        }
    }
    if has_name(rows, name) {
        let i = row_of(rows, name);
        if i < at {
            lemma_precedes_asymmetric(rows[i].0, name);
        } else {
            lemma_precedes_asymmetric(name, rows[i].0);
        }
    }
    assert forall|key: Seq<char>| has_name(grown, key) <==> (key == name || has_name(rows, key)) by {
        if has_name(grown, key) {
            let i = row_of(grown, key);
            if i < at {
                assert(rows[i].0 == key);
            } else if i > at {
                assert(rows[i - 1].0 == key);
            }
        }
        if key == name {
            assert(grown[at].0 == key);
        }
        if has_name(rows, key) {
            let i = row_of(rows, key);
            if i < at {
                assert(grown[i].0 == key);
            } else {
                assert(grown[i + 1].0 == key);
            }
        }
    }
    assert forall|key: Seq<char>| has_name(grown, key) implies #[trigger] as_map(grown)[key]
        == as_map(rows).insert(name, value)[key] by {
        if key == name {
            lemma_row_of(grown, at);
        } else {
            let i = row_of(rows, key);
            lemma_row_of(rows, i);
            if i < at {
                assert(grown[i] == rows[i]);
                lemma_row_of(grown, i);
            } else {
                assert(grown[i + 1] == rows[i]);
                lemma_row_of(grown, i + 1);
            }
        }
    }
    assert(as_map(grown) =~= as_map(rows).insert(name, value));
}

/// A new value for a row keeps the order and replaces one entry.
pub proof fn lemma_update_row<V>(rows: Seq<(Seq<char>, V)>, at: int, value: V)
    requires
        ascending(rows),
        0 <= at < rows.len(),
    ensures
        ascending(rows.update(at, (rows[at].0, value))),
        as_map(rows.update(at, (rows[at].0, value))) == as_map(rows).insert(rows[at].0, value),
        as_map(rows.update(at, (rows[at].0, value))).dom() == as_map(rows).dom(),
{
    let name = rows[at].0;
    let changed = rows.update(at, (name, value));
    assert forall|i: int, j: int| 0 <= i < j < changed.len() implies precedes(
        (#[trigger] changed[i]).0,
        (#[trigger] changed[j]).0,
    ) by {
        assert(changed[i].0 == rows[i].0 && changed[j].0 == rows[j].0);
    }
    assert forall|key: Seq<char>| has_name(changed, key) <==> has_name(rows, key) by {
        if has_name(changed, key) {
            let i = row_of(changed, key);
            assert(rows[i].0 == key);
        }
        if has_name(rows, key) {
            let i = row_of(rows, key);
            assert(changed[i].0 == key);
        }
    }
    lemma_row_of(rows, at);
    assert forall|key: Seq<char>| has_name(changed, key) implies #[trigger] as_map(changed)[key]
        == as_map(rows).insert(name, value)[key] by {
        let i = row_of(rows, key);
        lemma_row_of(rows, i);
        assert(changed[i].0 == key);
        lemma_row_of(changed, i);
    }
    assert(as_map(changed) =~= as_map(rows).insert(name, value));
    assert(as_map(changed).dom() =~= as_map(rows).dom());
}

/// Names mapped to values, held in ascending order of name.
#[derive(Debug)]
pub struct Table<V> {
    rows: Vec<(String, V)>,
}

impl<V> Table<V> {
    /// The rows as names and values, in the order in which they are held.
    pub closed spec fn listing(&self) -> Seq<(Seq<char>, V)> {
        self.rows@.map_values(|row: (String, V)| (row.0@, row.1))
    }

    /// The rows are in strictly ascending order of name, so no name
    /// stands twice.
    #[verifier::type_invariant]
    pub open spec fn wf(&self) -> bool {
        ascending(self.listing())
    }

    /// The table as a map from names to values.
    pub open spec fn view(&self) -> Map<Seq<char>, V> {
        as_map(self.listing())
    }

    /// A table without rows.
    pub fn new() -> (table: Self)
        ensures
            table.wf(),
            table.listing() == Seq::<(Seq<char>, V)>::empty(),
            table@ == Map::<Seq<char>, V>::empty(),
    {
        let table = Table { rows: Vec::new() };
        assert(table.listing() =~= Seq::<(Seq<char>, V)>::empty());
        assert(table@ =~= Map::<Seq<char>, V>::empty());
        table
    }

    /// The number of rows.
    pub fn len(&self) -> (n: usize)
        ensures
            n == self.listing().len(),
            n == self@.dom().len(),
    {
        proof {
            use_type_invariant(self);
            lemma_domain_size(self.listing());
        }
        self.rows.len()
    }

    /// A second table with the same rows.
    pub fn duplicate(&self) -> (copy: Self) where V: Copy
        ensures
            copy.wf(),
            copy.listing() == self.listing(),
            copy@ == self@,
    {
        proof {
            use_type_invariant(self);
        }
        let mut rows: Vec<(String, V)> = Vec::new();
        let mut i: usize = 0;
        while i < self.rows.len()
            invariant
                i <= self.rows.len(),
                rows@.len() == i,
                forall|k: int|
                    0 <= k < i ==> (#[trigger] rows@[k]).0@ == self.rows@[k].0@ && rows@[k].1
                        == self.rows@[k].1,
            decreases self.rows.len() - i,
        {
            rows.push((self.rows[i].0.clone(), self.rows[i].1));
            i += 1;
        }
        assert(rows@.map_values(|row: (String, V)| (row.0@, row.1)) =~= self.listing());
        Table { rows }
    }

    /// The name of row `i`.
    pub fn name_at(&self, i: usize) -> (name: &str)
        requires
            i < self.listing().len(),
        ensures
            name@ == self.listing()[i as int].0,
    {
        self.rows[i].0.as_str()
    }

    /// The value of row `i`.
    pub fn value_at(&self, i: usize) -> (value: &V)
        requires
            i < self.listing().len(),
        ensures
            *value == self.listing()[i as int].1,
    {
        &self.rows[i].1
    }

    /// Searches the rows for `name`: the place where it stands and `true`,
    /// or the place where it would have to go and `false`.
    fn locate(&self, name: &str) -> (r: (usize, bool))
        ensures
            r.0 <= self.listing().len(),
            forall|i: int| 0 <= i < r.0 ==> precedes((#[trigger] self.listing()[i]).0, name@),
            r.1 ==> r.0 < self.listing().len() && self.listing()[r.0 as int].0 == name@,
            !r.1 && r.0 < self.listing().len() ==> precedes(name@, self.listing()[r.0 as int].0),
    {
        proof {
            use_type_invariant(self);
        }
        let ghost rows = self.listing();
        let mut low: usize = 0;
        let mut high: usize = self.rows.len();
        while low < high
            invariant
                rows == self.listing(),
                ascending(rows),
                low <= high <= rows.len(),
                forall|i: int| 0 <= i < low ==> precedes((#[trigger] rows[i]).0, name@),
                high < rows.len() ==> precedes(name@, rows[high as int].0),
            decreases high - low,
        {
            let middle: usize = low + (high - low) / 2;
            match placement(self.rows[middle].0.as_str(), name) {
                Placement::Before => {
                    proof {
                        assert forall|i: int| 0 <= i < middle + 1 implies precedes(
                            (#[trigger] rows[i]).0,
                            name@,
                        ) by {
                            if i < middle {
                                lemma_precedes_transitive(rows[i].0, rows[middle as int].0, name@);
                            }
                        }
                    }
                    low = middle + 1;
                },
                Placement::Same => {
                    proof {
                        assert forall|i: int| 0 <= i < middle implies precedes(
                            (#[trigger] rows[i]).0,
                            name@,
                        ) by {
                            assert(precedes(rows[i].0, rows[middle as int].0));
                        }
                    }
                    return (middle, true);
                },
                Placement::After => {
                    high = middle;
                },
            }
        }
        (low, false)
    }

    /// Tells whether `name` has a row.
    pub fn contains(&self, name: &str) -> (known: bool)
        ensures
            known == self@.contains_key(name@),
    {
        self.get(name).is_some()
    }

    /// The value that stands under `name`.
    pub fn get(&self, name: &str) -> (found: Option<&V>)
        ensures
            match found {
                Some(value) => self@.contains_key(name@) && *value == self@[name@],
                None => !self@.contains_key(name@),
            },
    {
        proof {
            use_type_invariant(self);
        }
        let (at, known) = self.locate(name);
        if known {
            proof {
                lemma_row_of(self.listing(), at as int);
            }
            Some(&self.rows[at].1)
        } else {
            proof {
                lemma_insert_row(self.listing(), at as int, name@, arbitrary());
            }
            None
        }
    }

    /// Puts `value` under `name`, in place of what stood there if the name
    /// was known.
    pub fn insert(&mut self, name: String, value: V)
        ensures
            final(self).wf(),
            final(self)@ == old(self)@.insert(name@, value),
    {
        proof {
            use_type_invariant(&*self);
        }
        let ghost before = self.listing();
        let (at, known) = self.locate(name.as_str());
        if known {
            proof {
                lemma_update_row(before, at as int, value);
                assert(self.rows@.update(at as int, (name, value)).map_values(
                    |row: (String, V)| (row.0@, row.1),
                ) =~= before.update(at as int, (name@, value)));
            }
            let mut rows: Vec<(String, V)> = Vec::new();
            core::mem::swap(&mut self.rows, &mut rows);
            rows.set(at, (name, value));
            self.rows = rows;
        } else {
            proof {
                lemma_insert_row(before, at as int, name@, value);
                assert(self.rows@.insert(at as int, (name, value)).map_values(
                    |row: (String, V)| (row.0@, row.1),
                ) =~= before.insert(at as int, (name@, value)));
            }
            let mut rows: Vec<(String, V)> = Vec::new();
            core::mem::swap(&mut self.rows, &mut rows);
            rows.insert(at, (name, value));
            self.rows = rows;
        }
    }

    /// Puts `value` under `name` if the name is known, and says whether it
    /// was. An unknown name leaves the table as it is.
    pub fn replace(&mut self, name: &str, value: V) -> (known: bool)
        ensures
            final(self).wf(),
            known == old(self)@.contains_key(name@),
            known ==> final(self)@ == old(self)@.insert(name@, value),
            !known ==> final(self).listing() == old(self).listing(),
            final(self)@.dom() == old(self)@.dom(),
    {
        proof {
            use_type_invariant(&*self);
        }
        let ghost before = self.listing();
        let (at, known) = self.locate(name);
        if known {
            let key = self.rows[at].0.clone();
            proof {
                lemma_row_of(before, at as int);
                lemma_update_row(before, at as int, value);
                assert(self.rows@.update(at as int, (key, value)).map_values(
                    |row: (String, V)| (row.0@, row.1),
                ) =~= before.update(at as int, (name@, value)));
            }
            let mut rows: Vec<(String, V)> = Vec::new();
            core::mem::swap(&mut self.rows, &mut rows);
            rows.set(at, (key, value));
            self.rows = rows;
            true
        } else {
            proof {
                lemma_insert_row(before, at as int, name@, value);
            }
            false
        }
    }
}

/// Ascending rows make a finite map with one entry for each row.
pub proof fn lemma_domain_size<V>(rows: Seq<(Seq<char>, V)>)
    requires
        ascending(rows),
    ensures
        as_map(rows).dom().finite(),
        as_map(rows).dom().len() == rows.len(),
    decreases rows.len(),
{
    if rows.len() == 0 {
        assert(as_map(rows).dom() =~= Set::<Seq<char>>::empty());
    } else {
        lemma_drop_last_row(rows);
        lemma_domain_size(rows.drop_last());
        lemma_row_of(rows, rows.len() - 1);
        assert(as_map(rows).dom() =~= as_map(rows.drop_last()).dom().insert(rows.last().0));
    }
}

/// Ascending rows without their last row are ascending, and make the map
/// without the last name.
proof fn lemma_drop_last_row<V>(rows: Seq<(Seq<char>, V)>)
    requires
        ascending(rows),
        rows.len() > 0,
    ensures
        ascending(rows.drop_last()),
        as_map(rows.drop_last()) == as_map(rows).remove(rows.last().0),
        forall|i: int| 0 <= i < rows.len() - 1 ==> precedes((#[trigger] rows[i]).0, rows.last().0),
{
    let rest = rows.drop_last();
    let last = rows.last();
    assert forall|i: int, j: int| 0 <= i < j < rest.len() implies precedes(
        (#[trigger] rest[i]).0,
        (#[trigger] rest[j]).0,
    ) by {
        assert(rest[i] == rows[i] && rest[j] == rows[j]);
    }
    assert forall|i: int| 0 <= i < rest.len() implies precedes((#[trigger] rest[i]).0, last.0) by {
        assert(rest[i] == rows[i]);
    }
    lemma_insert_row(rest, rest.len() as int, last.0, last.1);
    assert(rest.insert(rest.len() as int, last) =~= rows);
    assert(as_map(rest) =~= as_map(rows).remove(last.0));
}

/// A map has one ascending listing only: ascending rows that make the same
/// map are the same rows.
pub proof fn lemma_listing_unique<V>(a: Seq<(Seq<char>, V)>, b: Seq<(Seq<char>, V)>)
    requires
        ascending(a),
        ascending(b),
        as_map(a) == as_map(b),
    ensures
        a == b,
    decreases a.len(),
{
    lemma_domain_size(a);
    lemma_domain_size(b);
    if a.len() > 0 {
        let i = a.len() - 1;
        lemma_row_of(a, i);
        lemma_row_of(b, i);
        let j = row_of(b, a[i].0);
        let k = row_of(a, b[i].0);
        lemma_row_of(b, j);
        lemma_row_of(a, k);
        if j < i {
            assert(precedes(b[j].0, b[i].0));
            if k < i {
                assert(precedes(a[k].0, a[i].0));
                lemma_precedes_asymmetric(b[j].0, b[i].0);
            }
        }
        assert(a[i].0 == b[i].0);
        lemma_drop_last_row(a);
        lemma_drop_last_row(b);
        lemma_listing_unique(a.drop_last(), b.drop_last());
        assert(a =~= a.drop_last().push(a[i]));
        assert(b =~= b.drop_last().push(b[i]));
    }
}

} // verus!
