//! The ledger of applied versions, kept in memory, and the rule that decides
//! which scripts of a layer are still outstanding against it.
use vstd::prelude::*;
use crate::record::{MigrationKind, MigrationRecord};

verus! {

/// Why the ledger stopped bringing a layer up to date.
#[derive(Debug, Clone, Copy, PartialEq, Eq, Structural)]
pub enum LedgerError {
    /// A version recorded as applied is absent from the layer being applied.
    VersionMissing(i64),
    /// The script of this version failed to execute.
    Execute(i64),
}

/// A ledger held in memory: the versions recorded as applied, in the order
/// they were recorded, and the versions whose scripts the database refuses.
pub struct MemoryLedger {
    pub applied: Vec<i64>,
    pub refused: Vec<i64>,
}

/// The versions of a layer's scripts, in order.
pub open spec fn versions(set: Seq<MigrationRecord>) -> Seq<i64> {
    set.map_values(|m: MigrationRecord| m.version)
}

/// Whether a forward pass executes this script.
pub open spec fn is_up(m: MigrationRecord) -> bool {
    m.kind != MigrationKind::ReversibleDown
}

/// The versions of `set` that a forward pass still has to execute against a
/// ledger holding `applied`: the forward scripts whose version is not
/// recorded, in the layer's order.
pub open spec fn pending(applied: Seq<i64>, set: Seq<MigrationRecord>) -> Seq<i64>
    decreases set.len(),
{
    if set.len() == 0 {
        Seq::empty()
    } else {
        let m = set.last();
        pending(applied, set.drop_last()) + if is_up(m) && !applied.contains(m.version) {
            seq![m.version]
        } else {
            Seq::empty()
        }
    }
}

/// The index of the first element of `s` whose membership in `t` is
/// `inside`, or `s.len()` when there is none.
pub open spec fn first_where(s: Seq<i64>, t: Seq<i64>, inside: bool) -> nat
    decreases s.len(),
{
    if s.len() == 0 {
        0
    } else if t.contains(s[0]) == inside {
        0
    } else {
        1 + first_where(s.drop_first(), t, inside)
    }
}

/// What bringing a layer up to date does to a ledger: the versions recorded
/// afterwards, and the error that stopped it, if any.  Without
/// `ignore_missing`, a recorded version absent from the layer stops the pass
/// before anything runs.  Otherwise the pending scripts run in order until
/// one is refused.
pub open spec fn outcome(applied: Seq<i64>, refused: Seq<i64>, set: Seq<MigrationRecord>, ignore_missing: bool)
    -> (Seq<i64>, Option<LedgerError>)
{
    let m = first_where(applied, versions(set), false);
    let p = pending(applied, set);
    let k = first_where(p, refused, true);
    if !ignore_missing && m < applied.len() {
        (applied, Some(LedgerError::VersionMissing(applied[m as int])))
    } else if k < p.len() {
        (applied + p.take(k as int), Some(LedgerError::Execute(p[k as int])))
    } else {
        (applied + p, None)
    }
}

/// Whether `v` occurs among the first `n` elements of `s`.
fn contains_within(s: &Vec<i64>, n: usize, v: i64) -> (r: bool)
    requires
        n <= s@.len(),
    ensures
        r == s@.take(n as int).contains(v),
{
    let mut i: usize = 0;
    while i < n
        invariant
            i <= n <= s@.len(),
            forall|j: int| 0 <= j < i ==> s@[j] != v,
        decreases n - i,
    {
        if s[i] == v {
            assert(s@.take(n as int)[i as int] == v);
            return true;
        }
        i = i + 1;
    }
    proof {
        assert forall|j: int| 0 <= j < n implies s@.take(n as int)[j] != v by {
            assert(s@.take(n as int)[j] == s@[j]);
        }
    }
    false
}

/// Whether some script of the layer has version `v`.
pub fn has_version(set: &Vec<MigrationRecord>, v: i64) -> (r: bool)
    ensures
        r == versions(set@).contains(v),
{
    let mut i: usize = 0;
    while i < set.len()
        invariant
            i <= set@.len(),
            forall|j: int| 0 <= j < i ==> set@[j].version != v,
        decreases set@.len() - i,
    {
        if set[i].version == v {
            assert(versions(set@)[i as int] == v);
            return true;
        }
        i = i + 1;
    }
    proof {
        assert forall|j: int| 0 <= j < versions(set@).len() implies versions(set@)[j] != v by {
            assert(versions(set@)[j] == set@[j].version);
        }
    }
    false
}

impl MemoryLedger {
    /// A ledger that records `applied` and whose database refuses the
    /// scripts of the versions in `refused`.
    pub fn new(applied: Vec<i64>, refused: Vec<i64>) -> (r: Self)
        ensures
            r.applied == applied,
            r.refused == refused,
    {
        MemoryLedger { applied, refused }
    }

    /// Brings the ledger up to date with one layer.  Without `ignore_missing`,
    /// a recorded version absent from the layer is an error and nothing runs.
    /// Then each forward script whose version was not recorded when the call
    /// began runs in the layer's order and is recorded, until one is refused.
    /// Returns how many scripts ran.
    pub fn apply_outstanding(&mut self, set: &Vec<MigrationRecord>, ignore_missing: bool) -> (r: Result<usize, LedgerError>)
        ensures
            final(self).refused == old(self).refused,
            final(self).applied@ == outcome(old(self).applied@, old(self).refused@, set@, ignore_missing).0,
            match r {
                Ok(n) => outcome(old(self).applied@, old(self).refused@, set@, ignore_missing).1 == None::<LedgerError>
                    && n == pending(old(self).applied@, set@).len(),
                Err(e) => outcome(old(self).applied@, old(self).refused@, set@, ignore_missing).1 == Some(e),
            },
    {
        let ghost before = self.applied@;
        let ghost refused = self.refused@;
        let ghost kept = self.refused;
        let ghost p = pending(before, set@);
        let recorded: usize = self.applied.len();
        if !ignore_missing {
            let mut i: usize = 0;
            while i < recorded
                invariant
                    i <= recorded == before.len(),
                    !ignore_missing,
                    self.applied@ == before,
                    before == old(self).applied@,
                    refused == old(self).refused@,
                    self.refused == kept,
                    forall|j: int| 0 <= j < i ==> versions(set@).contains(#[trigger] before[j]),
                decreases recorded - i,
            {
                let v = self.applied[i];
                if !has_version(set, v) {
                    proof {
                        assert(v == before[i as int]);
                        lemma_first_where_at(before, versions(set@), false, i as int);
                        assert(first_where(before, versions(set@), false) == i);
                        assert(outcome(before, refused, set@, ignore_missing).1 == Some(LedgerError::VersionMissing(v)));
                    }
                    return Err(LedgerError::VersionMissing(v));
                }
                i = i + 1;
            }
            proof { lemma_first_where_at(before, versions(set@), false, before.len() as int); }
        }
        proof { lemma_first_where(before, versions(set@), false); }
        let mut ran: usize = 0;
        let mut i: usize = 0;
        while i < set.len()
            invariant
                i <= set@.len(),
                recorded == before.len(),
                self.refused == kept,
                kept@ == refused,
                before == old(self).applied@,
                refused == old(self).refused@,
                kept == old(self).refused,
                p == pending(before, set@),
                ignore_missing || first_where(before, versions(set@), false) == before.len(),
                ran == pending(before, set@.take(i as int)).len(),
                self.applied@ == before + pending(before, set@.take(i as int)),
                forall|j: int| 0 <= j < ran ==> !refused.contains(#[trigger] pending(before, set@.take(i as int))[j]),
            decreases set@.len() - i,
        {
            proof {
                lemma_pending_step(before, set@, i as int);
                lemma_pending_prefix(before, set@, i as int + 1);
                lemma_pending_len(before, set@.take(i as int));
                assert(before =~= self.applied@.take(recorded as int));
            }
            let v = set[i].version;
            if set[i].kind.is_up() && !contains_within(&self.applied, recorded, v) {
                if contains_within(&self.refused, self.refused.len(), v) {
                    proof {
                        let q = pending(before, set@.take(i as int));
                        let q1 = pending(before, set@.take(i as int + 1));
                        assert(self.refused@.take(self.refused@.len() as int) =~= refused);
                        assert(q1 == q + seq![v]);
                        assert(q1.len() == ran + 1);
                        assert(p.take(q1.len() as int) == q1);
                        assert(p.take(q1.len() as int)[ran as int] == p[ran as int]);
                        assert(p[ran as int] == v);
                        lemma_pending_prefix(before, set@, i as int + 1);
                        assert forall|j: int| 0 <= j < ran implies !refused.contains(#[trigger] p[j]) by {
                            assert(p.take(q1.len() as int)[j] == p[j]);
                            assert(q1[j] == q[j]);
                        }
                        lemma_first_where_at(p, refused, true, ran as int);
                        assert(p.take(ran as int) =~= q);
                    }
                    return Err(LedgerError::Execute(v));
                }
                self.applied.push(v);
                ran = ran + 1;
            }
            proof {
                assert(self.refused@.take(self.refused@.len() as int) =~= refused);
                assert(self.applied@ =~= before + pending(before, set@.take(i as int + 1)));
            }
            i = i + 1;
        }
        proof {
            assert(set@.take(set@.len() as int) =~= set@);
            lemma_first_where_at(p, refused, true, p.len() as int);
        }
        Ok(ran)
    }
}

/// `first_where` finds the first element whose membership is `inside`.
pub proof fn lemma_first_where(s: Seq<i64>, t: Seq<i64>, inside: bool)
    ensures
        first_where(s, t, inside) <= s.len(),
        forall|j: int| 0 <= j < first_where(s, t, inside) ==> t.contains(#[trigger] s[j]) != inside,
        first_where(s, t, inside) < s.len() ==> t.contains(s[first_where(s, t, inside) as int]) == inside,
    decreases s.len(),
{
    if s.len() > 0 && t.contains(s[0]) != inside {
        lemma_first_where(s.drop_first(), t, inside);
        assert forall|j: int| 0 <= j < first_where(s, t, inside) implies t.contains(#[trigger] s[j]) != inside by {
            if j > 0 {
                assert(s[j] == s.drop_first()[j - 1]);
            }
        }
    }
}

/// `first_where` is the unique index with no match before it and a match at it.
pub proof fn lemma_first_where_at(s: Seq<i64>, t: Seq<i64>, inside: bool, i: int)
    requires
        0 <= i <= s.len(),
        forall|j: int| 0 <= j < i ==> t.contains(#[trigger] s[j]) != inside,
        i < s.len() ==> t.contains(s[i]) == inside,
    ensures
        first_where(s, t, inside) == i,
{
    lemma_first_where(s, t, inside);
}

/// A layer has no more pending versions than scripts.
pub proof fn lemma_pending_len(applied: Seq<i64>, set: Seq<MigrationRecord>)
    ensures
        pending(applied, set).len() <= set.len(),
    decreases set.len(),
{
    if set.len() > 0 {
        lemma_pending_len(applied, set.drop_last());
    }
}

/// Each pending version is the version of a forward script of the layer that
/// is not recorded in the ledger.
pub proof fn lemma_pending_from_set(applied: Seq<i64>, set: Seq<MigrationRecord>)
    ensures
        forall|k: int| #![trigger pending(applied, set)[k]] 0 <= k < pending(applied, set).len() ==> exists|j: int|
            0 <= j < set.len() && is_up(#[trigger] set[j]) && set[j].version == pending(applied, set)[k]
                && !applied.contains(set[j].version),
    decreases set.len(),
{
    if set.len() > 0 {
        let init = set.drop_last();
        lemma_pending_from_set(applied, init);
        assert forall|k: int| #![trigger pending(applied, set)[k]] 0 <= k < pending(applied, set).len() implies exists|j: int|
            0 <= j < set.len() && is_up(#[trigger] set[j]) && set[j].version == pending(applied, set)[k]
                && !applied.contains(set[j].version) by {
            if k < pending(applied, init).len() {
                let j = choose|j: int| 0 <= j < init.len() && is_up(#[trigger] init[j])
                    && init[j].version == pending(applied, init)[k] && !applied.contains(init[j].version);
                assert(set[j] == init[j]);
            } else {
                assert(set[set.len() - 1] == set.last());
            }
        }
    }
}

/// Every forward script of the layer is either recorded or pending.
pub proof fn lemma_up_recorded_or_pending(applied: Seq<i64>, set: Seq<MigrationRecord>)
    ensures
        forall|j: int| 0 <= j < set.len() && is_up(#[trigger] set[j]) ==>
            applied.contains(set[j].version) || pending(applied, set).contains(set[j].version),
    decreases set.len(),
{
    if set.len() > 0 {
        let init = set.drop_last();
        lemma_up_recorded_or_pending(applied, init);
        let p = pending(applied, set);
        assert forall|j: int| 0 <= j < set.len() && is_up(#[trigger] set[j]) implies
            applied.contains(set[j].version) || p.contains(set[j].version) by {
            if j < init.len() {
                assert(set[j] == init[j]);
                if pending(applied, init).contains(set[j].version) {
                    let k = choose|k: int| 0 <= k < pending(applied, init).len() && pending(applied, init)[k] == set[j].version;
                    assert(p[k] == set[j].version);
                }
            } else if !applied.contains(set[j].version) {
                assert(p[p.len() - 1] == set[j].version);
            }
        }
    }
}

/// Nothing is pending for a ledger that records every forward script.
pub proof fn lemma_nothing_pending(applied: Seq<i64>, set: Seq<MigrationRecord>)
    requires
        forall|j: int| 0 <= j < set.len() && is_up(#[trigger] set[j]) ==> applied.contains(set[j].version),
    ensures
        pending(applied, set).len() == 0,
    decreases set.len(),
{
    if set.len() > 0 {
        let init = set.drop_last();
        assert forall|j: int| 0 <= j < init.len() && is_up(#[trigger] init[j]) implies applied.contains(init[j].version) by {
            assert(set[j] == init[j]);
        }
        lemma_nothing_pending(applied, init);
        assert(set[set.len() - 1] == set.last());
    }
}

/// The pending versions of a prefix of the layer are a prefix of its pending versions.
pub proof fn lemma_pending_prefix(applied: Seq<i64>, set: Seq<MigrationRecord>, i: int)
    requires
        0 <= i <= set.len(),
    ensures
        pending(applied, set.take(i)).len() <= pending(applied, set).len(),
        pending(applied, set).take(pending(applied, set.take(i)).len() as int) == pending(applied, set.take(i)),
    decreases set.len(),
{
    if i == set.len() {
        assert(set.take(i) =~= set);
        assert(pending(applied, set).take(pending(applied, set).len() as int) =~= pending(applied, set));
    } else {
        let init = set.drop_last();
        assert(init.take(i) =~= set.take(i));
        lemma_pending_prefix(applied, init, i);
        let q = pending(applied, set.take(i));
        assert(pending(applied, set).take(q.len() as int) =~= pending(applied, init).take(q.len() as int));
    }
}

/// Extending a prefix of the layer by one script extends its pending versions
/// by that script's version exactly when it is pending.
pub proof fn lemma_pending_step(applied: Seq<i64>, set: Seq<MigrationRecord>, i: int)
    requires
        0 <= i < set.len(),
    ensures
        pending(applied, set.take(i + 1)) == pending(applied, set.take(i)) + if is_up(set[i])
            && !applied.contains(set[i].version) {
            seq![set[i].version]
        } else {
            Seq::<i64>::empty()
        },
{
    assert(set.take(i + 1).drop_last() =~= set.take(i));
    assert(set.take(i + 1).last() == set[i]);
}

/// Versions strictly increase along the layer.
pub open spec fn ascending(s: Seq<i64>) -> bool {
    forall|i: int, j: int| 0 <= i < j < s.len() ==> s[i] < s[j]
}

/// Bringing a layer up to date a second time, after a first time that
/// succeeded, executes nothing, records nothing and succeeds.
pub proof fn lemma_second_application_is_noop(
    applied: Seq<i64>,
    refused: Seq<i64>,
    set: Seq<MigrationRecord>,
    ignore_missing: bool,
)
    requires
        outcome(applied, refused, set, ignore_missing).1 == None::<LedgerError>,
    ensures
        pending(outcome(applied, refused, set, ignore_missing).0, set).len() == 0,
        outcome(outcome(applied, refused, set, ignore_missing).0, refused, set, ignore_missing) == (
        outcome(applied, refused, set, ignore_missing).0, None::<LedgerError>),
{
    let p = pending(applied, set);
    let after = applied + p;
    lemma_first_where(applied, versions(set), false);
    lemma_first_where(p, refused, true);
    assert(outcome(applied, refused, set, ignore_missing).0 == after);
    lemma_up_recorded_or_pending(applied, set);
    assert forall|j: int| 0 <= j < set.len() && is_up(#[trigger] set[j]) implies after.contains(set[j].version) by {
        if applied.contains(set[j].version) {
            let k = choose|k: int| 0 <= k < applied.len() && applied[k] == set[j].version;
            assert(after[k] == set[j].version);
        } else {
            let k = choose|k: int| 0 <= k < p.len() && p[k] == set[j].version;
            assert(after[applied.len() + k] == set[j].version);
        }
    }
    lemma_nothing_pending(after, set);
    assert(pending(after, set).take(0) =~= Seq::<i64>::empty());
    assert(after + pending(after, set) =~= after);
    lemma_first_where(pending(after, set), refused, true);
    if !ignore_missing {
        lemma_pending_from_set(applied, set);
        assert forall|j: int| 0 <= j < after.len() implies versions(set).contains(#[trigger] after[j]) by {
            if j >= applied.len() {
                let i = choose|i: int| 0 <= i < set.len() && is_up(#[trigger] set[i]) && set[i].version == p[j - applied.len()]
                    && !applied.contains(set[i].version);
                assert(versions(set)[i] == after[j]);
            } else {
                assert(after[j] == applied[j]);
            }
        }
        lemma_first_where_at(after, versions(set), false, after.len() as int);
    }
}

/// With `ignore_missing`, recorded versions absent from the layer never stop
/// it; without, any such version stops it before anything runs.
pub proof fn lemma_ignore_missing(applied: Seq<i64>, refused: Seq<i64>, set: Seq<MigrationRecord>, v: i64)
    ensures
        !(outcome(applied, refused, set, true).1 matches Some(LedgerError::VersionMissing(_))),
        applied.contains(v) && !versions(set).contains(v) ==> (
            outcome(applied, refused, set, false).1 matches Some(LedgerError::VersionMissing(w))
                && applied.contains(w) && !versions(set).contains(w)
            && outcome(applied, refused, set, false).0 == applied),
{
    lemma_first_where(applied, versions(set), false);
    if applied.contains(v) && !versions(set).contains(v) {
        let k = choose|k: int| 0 <= k < applied.len() && applied[k] == v;
        assert(first_where(applied, versions(set), false) <= k);
    }
}

/// In a layer whose versions ascend, the pending versions ascend too: scripts
/// run in increasing version order.
pub proof fn lemma_pending_ascending(applied: Seq<i64>, set: Seq<MigrationRecord>)
    requires
        ascending(versions(set)),
    ensures
        ascending(pending(applied, set)),
    decreases set.len(),
{
    if set.len() > 0 {
        let init = set.drop_last();
        assert forall|i: int, j: int| 0 <= i < j < versions(init).len() implies versions(init)[i] < versions(init)[j] by {
            assert(versions(init)[i] == versions(set)[i]);
            assert(versions(init)[j] == versions(set)[j]);
        }
        lemma_pending_ascending(applied, init);
        lemma_pending_from_set(applied, init);
        let q = pending(applied, init);
        let p = pending(applied, set);
        assert forall|i: int, j: int| 0 <= i < j < p.len() implies p[i] < p[j] by {
            if j >= q.len() {
                let a = choose|a: int| 0 <= a < init.len() && is_up(#[trigger] init[a]) && init[a].version == q[i]
                    && !applied.contains(init[a].version);
                assert(versions(set)[a] == init[a].version);
                assert(versions(set)[set.len() - 1] == set.last().version);
            } else {
                assert(p[i] == q[i]);
                assert(p[j] == q[j]);
            }
        }
    }
}

/// Bringing a layer whose versions ascend up to date records the scripts it
/// runs in increasing version order, after what the ledger already held.
pub proof fn lemma_runs_in_ascending_order(applied: Seq<i64>, refused: Seq<i64>, set: Seq<MigrationRecord>, ignore_missing: bool)
    requires
        ascending(versions(set)),
    ensures
        outcome(applied, refused, set, ignore_missing).0.take(applied.len() as int) == applied,
        ascending(outcome(applied, refused, set, ignore_missing).0.skip(applied.len() as int)),
{
    let p = pending(applied, set);
    let after = outcome(applied, refused, set, ignore_missing).0;
    lemma_pending_ascending(applied, set);
    lemma_first_where(p, refused, true);
    let k = first_where(p, refused, true) as int;
    let ran = if !ignore_missing && first_where(applied, versions(set), false) < applied.len() {
        Seq::<i64>::empty()
    } else if k < p.len() {
        p.take(k)
    } else {
        p
    };
    assert(after == applied + ran);
    assert(after.take(applied.len() as int) =~= applied);
    assert(after.skip(applied.len() as int) =~= ran);
    assert forall|i: int, j: int| 0 <= i < j < ran.len() implies ran[i] < ran[j] by {
        if k < p.len() && ran == p.take(k) {
            assert(ran[i] == p[i] && ran[j] == p[j]);
        }
    }
}

} // verus!
