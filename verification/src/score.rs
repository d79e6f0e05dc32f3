//! The score ledger: one persisted counter per run, the run named by its
//! record name. The ledger models what the record files on disk hold; the
//! caller loads it from the record directory and writes back what changes.

use vstd::prelude::*;
use crate::bytes::{bytes_eq, copy_bytes};
use crate::run_id::{RunStamp, parse_record_name, spec_parse_record_name, stamp_le,
    lemma_stamp_total, lemma_stamp_le_trans};

verus! {

/// One persisted counter: the record's file name and the number its text holds.
pub struct ScoreRecord {
    pub name: Vec<u8>,
    pub value: u32,
}

/// Every persisted counter, keyed by record name.
pub struct ScoreLedger {
    pub records: Vec<ScoreRecord>,
}

/// The value of the first entry named `name`, if any.
pub open spec fn lookup(es: Seq<(Seq<u8>, u32)>, name: Seq<u8>) -> Option<u32>
    decreases es.len(),
{
    if es.len() == 0 {
        None
    } else if es[0].0 == name {
        Some(es[0].1)
    } else {
        lookup(es.skip(1), name)
    }
}

/// The counter stored under `name`: a missing record counts as zero.
pub open spec fn count_of(es: Seq<(Seq<u8>, u32)>, name: Seq<u8>) -> u32 {
    match lookup(es, name) {
        None => 0,
        Some(v) => v,
    }
}

/// One increment of the counter named `name`: the entry grows by one, or a
/// fresh entry at one is appended when none exists; nothing else moves.
pub open spec fn bump(es: Seq<(Seq<u8>, u32)>, name: Seq<u8>) -> Seq<(Seq<u8>, u32)>
    decreases es.len(),
{
    if es.len() == 0 {
        seq![(name, 1u32)]
    } else if es[0].0 == name {
        seq![(es[0].0, (es[0].1 + 1) as u32)] + es.skip(1)
    } else {
        seq![es[0]] + bump(es.skip(1), name)
    }
}

/// `n` increments of the counter named `name`, one after the other.
pub open spec fn bump_n(es: Seq<(Seq<u8>, u32)>, name: Seq<u8>, n: nat) -> Seq<(Seq<u8>, u32)>
    decreases n,
{
    if n == 0 {
        es
    } else {
        bump(bump_n(es, name, (n - 1) as nat), name)
    }
}

/// An increment raises the counter it names by exactly one.
pub proof fn lemma_bump_count(es: Seq<(Seq<u8>, u32)>, name: Seq<u8>)
    requires
        count_of(es, name) < u32::MAX,
    ensures
        count_of(bump(es, name), name) == count_of(es, name) + 1,
    decreases es.len(),
{
    if es.len() == 0 {
        assert(lookup(bump(es, name), name) == Some(1u32));
    } else if es[0].0 == name {
        let b = bump(es, name);
        assert(b[0].0 == name);
        assert(lookup(b, name) == Some(b[0].1));
    } else {
        lemma_bump_count(es.skip(1), name);
        let b = bump(es, name);
        assert(b[0] == es[0]);
        assert(b.skip(1) =~= bump(es.skip(1), name));
    }
}

/// An increment touches no counter but the one it names.
pub proof fn lemma_bump_frames(es: Seq<(Seq<u8>, u32)>, name: Seq<u8>, other: Seq<u8>)
    requires
        other != name,
    ensures
        lookup(bump(es, name), other) == lookup(es, other),
    decreases es.len(),
{
    if es.len() == 0 {
        let b = bump(es, name);
        assert(b.skip(1) =~= Seq::<(Seq<u8>, u32)>::empty());
        assert(lookup(Seq::<(Seq<u8>, u32)>::empty(), other) is None);
        assert(lookup(b, other) is None);
    } else if es[0].0 == name {
        let b = bump(es, name);
        assert(b[0].0 == es[0].0);
        assert(b.skip(1) =~= es.skip(1));
    } else {
        lemma_bump_frames(es.skip(1), name, other);
        let b = bump(es, name);
        assert(b[0] == es[0]);
        assert(b.skip(1) =~= bump(es.skip(1), name));
    }
}

/// Law: starting from a ledger with no record for a run, `n` increments in a
/// row leave that run's counter at exactly `n`.
pub proof fn lemma_increment_n_from_fresh(es: Seq<(Seq<u8>, u32)>, name: Seq<u8>, n: nat)
    requires
        lookup(es, name) is None,
        n <= u32::MAX,
    ensures
        count_of(bump_n(es, name, n), name) == n,
    decreases n,
{
    if n > 0 {
        lemma_increment_n_from_fresh(es, name, (n - 1) as nat);
        lemma_bump_count(bump_n(es, name, (n - 1) as nat), name);
    }
}

/// When position `i` holds the first entry named `name`, the lookup returns
/// that entry's value.
proof fn lemma_lookup_found(es: Seq<(Seq<u8>, u32)>, name: Seq<u8>, i: int)
    requires
        0 <= i < es.len(),
        es[i].0 == name,
        forall|j: int| 0 <= j < i ==> es[j].0 != name,
    ensures
        lookup(es, name) == Some(es[i].1),
    decreases i,
{
    if i > 0 {
        assert forall|j: int| 0 <= j < i - 1 implies es.skip(1)[j].0 != name by {
            assert(es.skip(1)[j] == es[j + 1]);
        }
        lemma_lookup_found(es.skip(1), name, i - 1);
    }
}

/// Without an entry named `name` the lookup returns nothing.
proof fn lemma_lookup_missing(es: Seq<(Seq<u8>, u32)>, name: Seq<u8>)
    requires
        forall|j: int| 0 <= j < es.len() ==> es[j].0 != name,
    ensures
        lookup(es, name) is None,
    decreases es.len(),
{
    if es.len() > 0 {
        assert forall|j: int| 0 <= j < es.skip(1).len() implies es.skip(1)[j].0 != name by {
            assert(es.skip(1)[j] == es[j + 1]);
        }
        lemma_lookup_missing(es.skip(1), name);
    }
}

/// When position `i` holds the first entry named `name`, an increment is an
/// update of that position.
proof fn lemma_bump_found(es: Seq<(Seq<u8>, u32)>, name: Seq<u8>, i: int)
    requires
        0 <= i < es.len(),
        es[i].0 == name,
        forall|j: int| 0 <= j < i ==> es[j].0 != name,
    ensures
        bump(es, name) == es.update(i, (name, (es[i].1 + 1) as u32)),
    decreases i,
{
    if i == 0 {
        assert(bump(es, name) =~= es.update(0, (name, (es[0].1 + 1) as u32)));
    } else {
        assert forall|j: int| 0 <= j < i - 1 implies es.skip(1)[j].0 != name by {
            assert(es.skip(1)[j] == es[j + 1]);
        }
        lemma_bump_found(es.skip(1), name, i - 1);
        assert(seq![es[0]] + es.skip(1).update(i - 1, (name, (es[i].1 + 1) as u32)) =~= es.update(
            i,
            (name, (es[i].1 + 1) as u32),
        ));
    }
}

/// Without an entry named `name` an increment appends a fresh entry at one.
proof fn lemma_bump_missing(es: Seq<(Seq<u8>, u32)>, name: Seq<u8>)
    requires
        forall|j: int| 0 <= j < es.len() ==> es[j].0 != name,
    ensures
        bump(es, name) == es.push((name, 1u32)),
    decreases es.len(),
{
    if es.len() == 0 {
        assert(bump(es, name) =~= es.push((name, 1u32)));
    } else {
        assert forall|j: int| 0 <= j < es.skip(1).len() implies es.skip(1)[j].0 != name by {
            assert(es.skip(1)[j] == es[j + 1]);
        }
        lemma_bump_missing(es.skip(1), name);
        assert(seq![es[0]] + es.skip(1).push((name, 1u32)) =~= es.push((name, 1u32)));
    }
}

/// The entries that are not named `name`, in their original order.
pub open spec fn without_name(es: Seq<(Seq<u8>, u32)>, name: Seq<u8>) -> Seq<(Seq<u8>, u32)>
    decreases es.len(),
{
    if es.len() == 0 {
        Seq::empty()
    } else if es[0].0 == name {
        without_name(es.skip(1), name)
    } else {
        seq![es[0]] + without_name(es.skip(1), name)
    }
}

/// Appending one entry extends the removal's result by that entry exactly when
/// its name differs.
proof fn lemma_without_name_snoc(es: Seq<(Seq<u8>, u32)>, name: Seq<u8>, e: (Seq<u8>, u32))
    ensures
        without_name(es.push(e), name) == if e.0 == name {
            without_name(es, name)
        } else {
            without_name(es, name).push(e)
        },
    decreases es.len(),
{
    if es.len() == 0 {
        assert(es.push(e)[0] == e);
        assert(es.push(e).skip(1) =~= Seq::<(Seq<u8>, u32)>::empty());
        assert(without_name(Seq::<(Seq<u8>, u32)>::empty(), name) =~= Seq::<(Seq<u8>, u32)>::empty());
        if e.0 != name {
            assert(without_name(es.push(e), name) =~= without_name(es, name).push(e));
        }
    } else {
        assert(es.push(e)[0] == es[0]);
        assert(es.push(e).skip(1) =~= es.skip(1).push(e));
        lemma_without_name_snoc(es.skip(1), name, e);
        if es[0].0 != name && e.0 != name {
            assert(seq![es[0]] + without_name(es.skip(1), name).push(e) =~= (seq![es[0]]
                + without_name(es.skip(1), name)).push(e));
        }
    }
}

/// After the removal no entry of that name is found.
proof fn lemma_without_name_missing(es: Seq<(Seq<u8>, u32)>, name: Seq<u8>)
    ensures
        lookup(without_name(es, name), name) is None,
    decreases es.len(),
{
    if es.len() == 0 {
    } else if es[0].0 == name {
        lemma_without_name_missing(es.skip(1), name);
    } else {
        lemma_without_name_missing(es.skip(1), name);
        let w = without_name(es, name);
        assert(w[0] == es[0]);
        assert(w.skip(1) =~= without_name(es.skip(1), name));
    }
}

/// Whether the entry is a score record of a benchmark run: its name parses.
pub open spec fn is_run_record(e: (Seq<u8>, u32)) -> bool {
    spec_parse_record_name(e.0) is Some
}

/// The date string embedded in a run record's name.
pub open spec fn record_date(e: (Seq<u8>, u32)) -> Seq<u8> {
    spec_parse_record_name(e.0)->Some_0.0
}

/// The time string embedded in a run record's name.
pub open spec fn record_time(e: (Seq<u8>, u32)) -> Seq<u8> {
    spec_parse_record_name(e.0)->Some_0.1
}

/// Whether the entry, if it is a run record at all, starts no later than the
/// given date and time.
pub open spec fn no_later_than(e: (Seq<u8>, u32), date: Seq<u8>, time: Seq<u8>) -> bool {
    is_run_record(e) ==> stamp_le(record_date(e), record_time(e), date, time)
}

/// Whether position `i` holds a run record that no other entry postdates.
pub open spec fn is_latest_entry(es: Seq<(Seq<u8>, u32)>, i: int) -> bool {
    &&& 0 <= i < es.len()
    &&& is_run_record(es[i])
    &&& forall|j: int| 0 <= j < es.len() ==> no_later_than(es[j], record_date(es[i]), record_time(es[i]))
}

impl ScoreLedger {
    /// The ledger's entries: each record's name and counter, in order.
    pub open spec fn entries(&self) -> Seq<(Seq<u8>, u32)> {
        Seq::new(self.records@.len(), |i: int| (self.records@[i].name@, self.records@[i].value))
    }

    /// A ledger with no records.
    pub fn new() -> (led: ScoreLedger)
        ensures
            led.entries() == Seq::<(Seq<u8>, u32)>::empty(),
    {
        let led = ScoreLedger { records: Vec::new() };
        proof {
            assert(led.entries() =~= Seq::<(Seq<u8>, u32)>::empty());
        }
        led
    }

    /// Adds one already-persisted record, as found when loading the ledger.
    pub fn add_record(&mut self, name: Vec<u8>, value: u32)
        ensures
            final(self).entries() == old(self).entries().push((name@, value)),
    {
        let ghost before = self.entries();
        self.records.push(ScoreRecord { name, value });
        proof {
            assert(self.entries() =~= before.push(
                (self.records@[self.records@.len() - 1].name@,
                self.records@[self.records@.len() - 1].value),
            ));
        }
    }

    /// The position of the first record named `run_id`, if any.
    fn find_record(&self, run_id: &[u8]) -> (r: Option<usize>)
        ensures
            r matches Some(i) ==> i < self.entries().len() && self.entries()[i as int].0 == run_id@
                && forall|j: int| 0 <= j < i ==> self.entries()[j].0 != run_id@,
            r is None ==> forall|j: int| 0 <= j < self.entries().len()
                ==> self.entries()[j].0 != run_id@,
    {
        let n = self.records.len();
        let mut i: usize = 0;
        while i < n
            invariant
                i <= n,
                n == self.records@.len(),
                forall|j: int| 0 <= j < i ==> self.entries()[j].0 != run_id@,
            decreases n - i,
        {
            if bytes_eq(self.records[i].name.as_slice(), run_id) {
                return Some(i);
            }
            i = i + 1;
        }
        None
    }

    /// Raises the counter of the run named `run_id` by one, creating it at
    /// zero first when no record exists yet, and returns the new counter.
    pub fn increment(&mut self, run_id: &[u8]) -> (new_score: u32)
        requires
            count_of(old(self).entries(), run_id@) < u32::MAX,
        ensures
            final(self).entries() == bump(old(self).entries(), run_id@),
            new_score == count_of(old(self).entries(), run_id@) + 1,
            count_of(final(self).entries(), run_id@) == new_score,
    {
        let ghost before = self.entries();
        match self.find_record(run_id) {
            Some(i) => {
                proof {
                    lemma_lookup_found(before, run_id@, i as int);
                    lemma_bump_found(before, run_id@, i as int);
                    lemma_bump_count(before, run_id@);
                }
                let v = self.records[i].value;
                let rec = ScoreRecord { name: copy_bytes(run_id), value: v + 1 };
                self.records.set(i, rec);
                proof {
                    assert(self.entries() =~= before.update(
                        i as int,
                        (run_id@, (before[i as int].1 + 1) as u32),
                    ));
                }
                v + 1
            },
            None => {
                proof {
                    lemma_lookup_missing(before, run_id@);
                    lemma_bump_missing(before, run_id@);
                    lemma_bump_count(before, run_id@);
                }
                self.records.push(ScoreRecord { name: copy_bytes(run_id), value: 1 });
                proof {
                    assert(self.entries() =~= before.push((run_id@, 1u32)));
                }
                1
            },
        }
    }

    /// Forgets every record named `run_id`, so that a run reusing the name
    /// starts its counter at zero again.
    pub fn remove_record(&mut self, run_id: &[u8])
        ensures
            final(self).entries() == without_name(old(self).entries(), run_id@),
            lookup(final(self).entries(), run_id@) is None,
    {
        let ghost before = self.entries();
        let n = self.records.len();
        let mut out: Vec<ScoreRecord> = Vec::new();
        proof {
            assert(before.take(0) =~= Seq::<(Seq<u8>, u32)>::empty());
            assert(without_name(before.take(0), run_id@) =~= Seq::<(Seq<u8>, u32)>::empty());
        }
        let mut i: usize = 0;
        while i < n
            invariant
                i <= n,
                n == self.records@.len(),
                before == self.entries(),
                Seq::new(out@.len(), |k: int| (out@[k].name@, out@[k].value)) == without_name(
                    before.take(i as int),
                    run_id@,
                ),
            decreases n - i,
        {
            let ghost out_entries = Seq::new(out@.len(), |k: int| (out@[k].name@, out@[k].value));
            proof {
                assert(before.take(i + 1) =~= before.take(i as int).push(before[i as int]));
                lemma_without_name_snoc(before.take(i as int), run_id@, before[i as int]);
            }
            if !bytes_eq(self.records[i].name.as_slice(), run_id) {
                let rec = ScoreRecord {
                    name: copy_bytes(self.records[i].name.as_slice()),
                    value: self.records[i].value,
                };
                out.push(rec);
                proof {
                    assert(Seq::new(out@.len(), |k: int| (out@[k].name@, out@[k].value))
                        =~= out_entries.push(before[i as int]));
                }
            }
            i = i + 1;
        }
        proof {
            assert(before.take(n as int) =~= before);
        }
        self.records = out;
        proof {
            let after = self.entries();
            assert(after =~= without_name(before, run_id@));
            lemma_without_name_missing(before, run_id@);
        }
    }

    /// The highest counter any run ever reached: the maximum over all records,
    /// and zero when there are none.
    pub fn get_highest_score(&self) -> (high: u32)
        ensures
            forall|i: int| 0 <= i < self.entries().len() ==> self.entries()[i].1 <= high,
            self.entries().len() == 0 ==> high == 0,
            self.entries().len() > 0 ==> exists|i: int|
                0 <= i < self.entries().len() && self.entries()[i].1 == high,
    {
        let n = self.records.len();
        let mut high: u32 = 0;
        let mut i: usize = 0;
        while i < n
            invariant
                i <= n,
                n == self.records@.len(),
                forall|j: int| 0 <= j < i ==> self.entries()[j].1 <= high,
                i == 0 ==> high == 0,
                i > 0 ==> exists|j: int| 0 <= j < i && (#[trigger] self.entries()[j]).1 == high,
            decreases n - i,
        {
            let v = self.records[i].value;
            proof {
                assert(self.entries()[i as int].1 == v);
            }
            if v > high {
                high = v;
                proof {
                    assert(self.entries()[i as int].1 == high);
                }
            } else {
                proof {
                    if i == 0 {
                        assert(v <= high <= v);
                        assert(self.entries()[0].1 == high);
                    }
                }
            }
            i = i + 1;
        }
        high
    }

    /// The counter of the latest run: among the records whose names carry a
    /// timestamp, the one with the lexicographically greatest date — and, on
    /// equal dates, the greatest time — and zero when no record has one.
    pub fn get_latest_score(&self) -> (score: u32)
        ensures
            (forall|i: int| 0 <= i < self.entries().len() ==> !is_run_record(self.entries()[i]))
                ==> score == 0,
            (exists|i: int| 0 <= i < self.entries().len() && is_run_record(self.entries()[i]))
                ==> exists|i: int| is_latest_entry(self.entries(), i) && score == self.entries()[i].1,
    {
        let n = self.records.len();
        let mut best: Option<(RunStamp, u32)> = None;
        let mut i: usize = 0;
        while i < n
            invariant
                i <= n,
                n == self.records@.len(),
                best is None ==> forall|j: int| 0 <= j < i ==> !is_run_record(self.entries()[j]),
                best matches Some((st, v)) ==> {
                    &&& exists|j: int|
                        0 <= j < i && is_run_record(#[trigger] self.entries()[j])
                            && record_date(self.entries()[j]) == st.date@
                            && record_time(self.entries()[j]) == st.time@
                            && self.entries()[j].1 == v
                    &&& forall|j: int| 0 <= j < i ==> no_later_than(self.entries()[j], st.date@, st.time@)
                },
            decreases n - i,
        {
            let ghost e = self.entries()[i as int];
            let parsed = parse_record_name(self.records[i].name.as_slice());
            let v = self.records[i].value;
            proof {
                assert(e.0 == self.records@[i as int].name@);
                assert(e.1 == self.records@[i as int].value);
            }
            match parsed {
                Some(st) => {
                    proof {
                        assert(is_run_record(e));
                        assert(record_date(e) == st.date@);
                        assert(record_time(e) == st.time@);
                    }
                    let replace = match &best {
                        None => true,
                        Some((b, _)) => b.is_before(&st),
                    };
                    if replace {
                        proof {
                            if best is Some {
                                let b = best->Some_0.0;
                                assert forall|j: int| 0 <= j < i + 1 implies no_later_than(
                                    self.entries()[j],
                                    st.date@,
                                    st.time@,
                                ) by {
                                    if j < i && is_run_record(self.entries()[j]) {
                                        lemma_stamp_le_trans(
                                            record_date(self.entries()[j]),
                                            record_time(self.entries()[j]),
                                            b.date@,
                                            b.time@,
                                            st.date@,
                                            st.time@,
                                        );
                                    }
                                }
                            } else {
                                assert forall|j: int| 0 <= j < i + 1 implies no_later_than(
                                    self.entries()[j],
                                    st.date@,
                                    st.time@,
                                ) by {}
                            }
                            assert(self.entries()[i as int].1 == v);
                        }
                        best = Some((st, v));
                    } else {
                        proof {
                            let b = best->Some_0.0;
                            lemma_stamp_total(st.date@, st.time@, b.date@, b.time@);
                            assert(no_later_than(e, b.date@, b.time@));
                        }
                    }
                },
                None => {
                    proof {
                        assert(!is_run_record(e));
                    }
                },
            }
            i = i + 1;
        }
        match best {
            Some((st, v)) => {
                proof {
                    let j = choose|j: int|
                        0 <= j < n && is_run_record(#[trigger] self.entries()[j]) && record_date(
                            self.entries()[j],
                        ) == st.date@ && record_time(self.entries()[j]) == st.time@
                            && self.entries()[j].1 == v;
                    assert(is_latest_entry(self.entries(), j));
                }
                v
            },
            None => 0,
        }
    }
}

} // verus!
