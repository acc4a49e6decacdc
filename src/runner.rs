//! One apply pass over the layers, in application order.
use vstd::prelude::*;
use vstd::string::*;
use crate::record::MigrationRecord;
use crate::ledger::{
    is_up, lemma_first_where, lemma_nothing_pending, lemma_pending_from_set, lemma_up_recorded_or_pending,
    outcome, pending, LedgerError, MemoryLedger,
};
use crate::report::{missing_text, reports_execution, DbError, MigrationFailure};

verus! {

/// What the pass does with one layer.
#[derive(Debug, Clone, Copy, PartialEq, Eq, Structural)]
pub enum LayerAction {
    /// The directory does not exist: noted, and the pass goes on.
    SkipMissing,
    /// The only configured directory holds no script: noted with guidance on
    /// how to add scripts, and the pass goes on.
    SkipEmptySole,
    /// One of several directories holds no script: noted, and the pass goes on.
    SkipEmptyLayer,
    /// The scripts are handed to the ledger.  `ignore_missing` is set whenever
    /// extra directories are configured, that is whenever there is more than
    /// one layer.
    Apply { ignore_missing: bool },
}

/// What a directory was found to hold.
pub enum LayerContents {
    /// The directory does not exist.
    Absent,
    /// The directory could not be read as scripts; the text says why.
    Unreadable(String),
    /// The scripts, ordered by version.
    Scripts(Vec<MigrationRecord>),
}

/// One configured directory and what it holds.
pub struct Layer {
    pub path: String,
    pub contents: LayerContents,
}

/// What is done with a layer, from whether its directory exists, how many
/// scripts it holds and how many layers there are.
pub open spec fn decision(exists: bool, scripts: nat, layers: nat) -> LayerAction {
    if !exists {
        LayerAction::SkipMissing
    } else if scripts == 0 {
        if layers == 1 { LayerAction::SkipEmptySole } else { LayerAction::SkipEmptyLayer }
    } else {
        LayerAction::Apply { ignore_missing: layers > 1 }
    }
}

/// Decides what to do with a layer from whether its directory exists, how
/// many scripts it holds and how many layers are configured in all.
pub fn decide_layer(exists: bool, scripts: usize, layers: usize) -> (r: LayerAction)
    ensures
        r == decision(exists, scripts as nat, layers as nat),
{
    if !exists {
        LayerAction::SkipMissing
    } else if scripts == 0 {
        if layers == 1 { LayerAction::SkipEmptySole } else { LayerAction::SkipEmptyLayer }
    } else {
        LayerAction::Apply { ignore_missing: layers > 1 }
    }
}

/// What one layer does to the ledger, and whether it stops the pass: an
/// unreadable directory stops it with no ledger error, a ledger error stops
/// it with that error.
pub open spec fn layer_step(applied: Seq<i64>, refused: Seq<i64>, c: LayerContents, ignore_missing: bool)
    -> (Seq<i64>, Option<Option<LedgerError>>)
{
    match c {
        LayerContents::Absent => (applied, None),
        LayerContents::Unreadable(_) => (applied, Some(None)),
        LayerContents::Scripts(set) => if set@.len() == 0 {
            (applied, None)
        } else {
            let o = outcome(applied, refused, set@, ignore_missing);
            (o.0, match o.1 { None => None, Some(e) => Some(Some(e)) })
        },
    }
}

/// The ledger after the first `n` layers, and where the pass stopped, if it
/// did: the layer's index and its ledger error, if any.
pub open spec fn pass(applied: Seq<i64>, refused: Seq<i64>, layers: Seq<Layer>, n: nat, ignore_missing: bool)
    -> (Seq<i64>, Option<(int, Option<LedgerError>)>)
    decreases n,
{
    if n == 0 {
        (applied, None)
    } else {
        let prev = pass(applied, refused, layers, (n - 1) as nat, ignore_missing);
        if prev.1 is Some {
            prev
        } else {
            let s = layer_step(prev.0, refused, layers[n - 1].contents, ignore_missing);
            (s.0, match s.1 { None => None, Some(e) => Some(((n - 1) as int, e)) })
        }
    }
}

/// What is done with a layer that was found to hold `c`.
pub open spec fn action_of(c: LayerContents, layers: nat) -> LayerAction {
    match c {
        LayerContents::Scripts(set) => decision(true, set@.len(), layers),
        _ => decision(false, 0, layers),
    }
}

/// The message of a database that refused a script.
pub open spec fn refusal_text() -> Seq<char> {
    "the database refused the script"@
}

/// `f` is the failure of the pass at `layer`, stopped with `e`.
pub open spec fn stopped_with(f: MigrationFailure, layer: Layer, e: Option<LedgerError>, database: Seq<char>) -> bool {
    match e {
        None => f matches MigrationFailure::SourceLoad { dir, .. } && dir@ == layer.path@,
        Some(LedgerError::VersionMissing(v)) => f matches MigrationFailure::Ledger { dir, detail }
            && dir@ == layer.path@ && detail@ == missing_text(v),
        Some(LedgerError::Execute(v)) => layer.contents matches LayerContents::Scripts(set)
            && exists|message: String| #[trigger] message@ == refusal_text() && reports_execution(
            f, layer.path@, set@, v, database, DbError { message, position: None }),
    }
}

/// An absent directory and an existing but empty one leave the ledger as it
/// was and let the pass go on; only the note taken of them differs.
pub proof fn lemma_absent_like_empty(
    applied: Seq<i64>,
    refused: Seq<i64>,
    absent: LayerContents,
    empty: LayerContents,
    ignore_missing: bool,
    layers: nat,
)
    requires
        absent is Absent,
        empty matches LayerContents::Scripts(set) && set@.len() == 0,
    ensures
        layer_step(applied, refused, absent, ignore_missing) == (applied, None::<Option<LedgerError>>),
        layer_step(applied, refused, empty, ignore_missing) == layer_step(applied, refused, absent, ignore_missing),
        action_of(absent, layers) == LayerAction::SkipMissing,
        action_of(empty, layers) != LayerAction::SkipMissing,
        !(action_of(empty, layers) is Apply),
{
}

/// Every forward script of `c` is recorded in `applied`.
pub open spec fn records_layer(applied: Seq<i64>, c: LayerContents) -> bool {
    match c {
        LayerContents::Scripts(set) => forall|i: int| 0 <= i < set@.len() && is_up(#[trigger] set@[i])
            ==> applied.contains(set@[i].version),
        _ => true,
    }
}

/// A pass that went through its first `n` layers keeps what the ledger held,
/// records every forward script of those layers, and met no unreadable one.
proof fn lemma_pass_records(applied: Seq<i64>, refused: Seq<i64>, layers: Seq<Layer>, n: nat, ignore_missing: bool)
    requires
        n <= layers.len(),
        pass(applied, refused, layers, n, ignore_missing).1 is None,
    ensures
        ({
            let after = pass(applied, refused, layers, n, ignore_missing).0;
            &&& forall|v: i64| applied.contains(v) ==> after.contains(v)
            &&& forall|j: int| 0 <= j < n ==> records_layer(after, #[trigger] layers[j].contents)
                && !(layers[j].contents is Unreadable)
        }),
    decreases n,
{
    if n > 0 {
        let m = (n - 1) as nat;
        lemma_pass_records(applied, refused, layers, m, ignore_missing);
        let prev = pass(applied, refused, layers, m, ignore_missing).0;
        let after = pass(applied, refused, layers, n, ignore_missing).0;
        let c = layers[m as int].contents;
        if let LayerContents::Scripts(set) = c {
            if set@.len() > 0 {
                let p = pending(prev, set@);
                lemma_first_where(prev, crate::ledger::versions(set@), false);
                lemma_first_where(p, refused, true);
                assert(after == prev + p);
                lemma_up_recorded_or_pending(prev, set@);
                assert forall|v: i64| prev.contains(v) implies after.contains(v) by {
                    let k = choose|k: int| 0 <= k < prev.len() && prev[k] == v;
                    assert(after[k] == v);
                }
                assert forall|i: int| 0 <= i < set@.len() && is_up(#[trigger] set@[i]) implies after.contains(set@[i].version) by {
                    if !prev.contains(set@[i].version) {
                        let k = choose|k: int| 0 <= k < p.len() && p[k] == set@[i].version;
                        assert(after[prev.len() + k] == set@[i].version);
                    }
                }
            }
        }
        assert forall|j: int| 0 <= j < n implies records_layer(after, #[trigger] layers[j].contents)
            && !(layers[j].contents is Unreadable) by {
            if j < m {
                if let LayerContents::Scripts(set) = layers[j].contents {
                    assert forall|i: int| 0 <= i < set@.len() && is_up(#[trigger] set@[i]) implies after.contains(set@[i].version) by {
                        assert(prev.contains(set@[i].version));
                    }
                }
            }
        }
    }
}

/// With every forward script already recorded, a pass that ignores missing
/// versions changes nothing and succeeds.
proof fn lemma_pass_nothing_new(applied: Seq<i64>, refused: Seq<i64>, layers: Seq<Layer>, n: nat)
    requires
        n <= layers.len(),
        forall|j: int| 0 <= j < layers.len() ==> records_layer(applied, #[trigger] layers[j].contents)
            && !(layers[j].contents is Unreadable),
    ensures
        pass(applied, refused, layers, n, true) == (applied, None::<(int, Option<LedgerError>)>),
    decreases n,
{
    if n > 0 {
        let m = (n - 1) as nat;
        lemma_pass_nothing_new(applied, refused, layers, m);
        let c = layers[m as int].contents;
        assert(records_layer(applied, c) && !(c is Unreadable));
        if let LayerContents::Scripts(set) = c {
            if set@.len() > 0 {
                lemma_nothing_pending(applied, set@);
                lemma_first_where(pending(applied, set@), refused, true);
                assert(applied + pending(applied, set@) =~= applied);
            }
        }
    }
}

/// Running a pass a second time, after a first pass that succeeded, executes
/// nothing, records nothing and succeeds.
pub proof fn lemma_pass_twice_is_noop(applied: Seq<i64>, refused: Seq<i64>, layers: Seq<Layer>)
    requires
        pass(applied, refused, layers, layers.len(), layers.len() > 1).1 is None,
    ensures
        ({
            let after = pass(applied, refused, layers, layers.len(), layers.len() > 1).0;
            pass(after, refused, layers, layers.len(), layers.len() > 1) == (after, None::<(int, Option<LedgerError>)>)
        }),
{
    let after = pass(applied, refused, layers, layers.len(), layers.len() > 1).0;
    lemma_pass_records(applied, refused, layers, layers.len(), layers.len() > 1);
    if layers.len() > 1 {
        lemma_pass_nothing_new(after, refused, layers, layers.len());
    } else if layers.len() == 1 {
        let start = pass(applied, refused, layers, 0, false);
        assert(start == (applied, None::<(int, Option<LedgerError>)>));
        if let LayerContents::Scripts(set) = layers[0].contents {
            if set@.len() > 0 {
                crate::ledger::lemma_second_application_is_noop(applied, refused, set@, false);
            }
        }
        assert(pass(after, refused, layers, 0, false) == (after, None::<(int, Option<LedgerError>)>));
    }
}

/// Once stopped, a pass stays where it stopped.
proof fn lemma_pass_stays_stopped(applied: Seq<i64>, refused: Seq<i64>, layers: Seq<Layer>, n: nat, m: nat, ignore_missing: bool)
    requires
        n <= m,
        pass(applied, refused, layers, n, ignore_missing).1 is Some,
    ensures
        pass(applied, refused, layers, m, ignore_missing) == pass(applied, refused, layers, n, ignore_missing),
    decreases m,
{
    if n < m {
        lemma_pass_stays_stopped(applied, refused, layers, n, (m - 1) as nat, ignore_missing);
    }
}

/// A script the database refused is one of the layer's.
proof fn lemma_refused_in_set(applied: Seq<i64>, refused: Seq<i64>, set: Seq<MigrationRecord>, ignore_missing: bool, v: i64)
    requires
        outcome(applied, refused, set, ignore_missing).1 == Some(LedgerError::Execute(v)),
    ensures
        crate::ledger::versions(set).contains(v),
{
    let p = pending(applied, set);
    lemma_first_where(p, refused, true);
    lemma_first_where(applied, crate::ledger::versions(set), false);
    lemma_pending_from_set(applied, set);
    let k = crate::ledger::first_where(p, refused, true) as int;
    let j = choose|j: int| 0 <= j < set.len() && is_up(#[trigger] set[j]) && set[j].version == p[k]
        && !applied.contains(set[j].version);
    assert(crate::ledger::versions(set)[j] == v);
}

/// Runs one pass over `layers`, given in application order, against an
/// in-memory ledger.  Absent and empty directories are noted and passed
/// over; the first failure stops the pass.  On success, returns what was done
/// with each layer.
pub fn apply_layers(layers: &Vec<Layer>, ledger: &mut MemoryLedger, database: &str)
    -> (r: Result<Vec<LayerAction>, MigrationFailure>)
    ensures
        final(ledger).refused == old(ledger).refused,
        final(ledger).applied@ == pass(old(ledger).applied@, old(ledger).refused@, layers@, layers@.len(), layers@.len() > 1).0,
        match r {
            Ok(actions) => pass(old(ledger).applied@, old(ledger).refused@, layers@, layers@.len(), layers@.len() > 1).1 is None
                && actions@.len() == layers@.len()
                && forall|i: int| 0 <= i < layers@.len() ==> actions@[i] == action_of(#[trigger] layers@[i].contents, layers@.len()),
            Err(f) => pass(old(ledger).applied@, old(ledger).refused@, layers@, layers@.len(), layers@.len() > 1).1 matches Some((k, e))
                && 0 <= k < layers@.len() && stopped_with(f, layers@[k], e, database@),
        },
{
    let ghost a0 = ledger.applied@;
    let ghost r0 = ledger.refused@;
    let ghost kept = ledger.refused;
    let count: usize = layers.len();
    let ignore_missing = count > 1;
    let mut actions: Vec<LayerAction> = Vec::new();
    let mut i: usize = 0;
    while i < count
        invariant
            i <= count == layers@.len(),
            ignore_missing == (count > 1),
            a0 == old(ledger).applied@,
            r0 == old(ledger).refused@,
            kept == old(ledger).refused,
            ledger.refused == kept,
            kept@ == r0,
            ledger.applied@ == pass(a0, r0, layers@, i as nat, ignore_missing).0,
            pass(a0, r0, layers@, i as nat, ignore_missing).1 is None,
            actions@.len() == i,
            forall|j: int| 0 <= j < i ==> actions@[j] == action_of(#[trigger] layers@[j].contents, count as nat),
        decreases count - i,
    {
        let layer = &layers[i];
        proof {
            assert(pass(a0, r0, layers@, (i + 1) as nat, ignore_missing).1 == match layer_step(ledger.applied@, r0, layer.contents, ignore_missing).1 {
                None => None,
                Some(e) => Some((i as int, e)),
            });
        }
        match &layer.contents {
            LayerContents::Absent => {
                actions.push(decide_layer(false, 0, count));
            },
            LayerContents::Unreadable(cause) => {
                proof { lemma_pass_stays_stopped(a0, r0, layers@, (i + 1) as nat, count as nat, ignore_missing); }
                return Err(MigrationFailure::source_load(layer.path.as_str(), cause.as_str()));
            },
            LayerContents::Scripts(set) => {
                let action = decide_layer(true, set.len(), count);
                if set.len() > 0 {
                    let ghost before = ledger.applied@;
                    match ledger.apply_outstanding(set, ignore_missing) {
                        Ok(_) => {},
                        Err(LedgerError::VersionMissing(v)) => {
                            proof { lemma_pass_stays_stopped(a0, r0, layers@, (i + 1) as nat, count as nat, ignore_missing); }
                            return Err(MigrationFailure::missing(layer.path.as_str(), v));
                        },
                        Err(LedgerError::Execute(v)) => {
                            proof { lemma_refused_in_set(before, r0, set@, ignore_missing, v); }
                            proof {
                                reveal_strlit("the database refused the script");
                                lemma_pass_stays_stopped(a0, r0, layers@, (i + 1) as nat, count as nat, ignore_missing);
                            }
                            let message = String::from_str("the database refused the script");
                            let ghost said = message;
                            let f = MigrationFailure::execution(
                                layer.path.as_str(),
                                set,
                                v,
                                database,
                                DbError { message, position: None },
                            );
                            assert(said@ == refusal_text());
                            return Err(f);
                        },
                    }
                }
                actions.push(action);
            },
        }
        i = i + 1;
    }
    proof {
        assert(layers@.len() == count as nat);
    }
    Ok(actions)
}

} // verus!
