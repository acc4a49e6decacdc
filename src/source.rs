//! Scripts held in memory, put in the order a directory loader gives them.
use vstd::prelude::*;
use vstd::seq_lib::*;
use vstd::multiset::Multiset;
use crate::record::MigrationRecord;
use crate::ledger::{ascending, versions};

verus! {

broadcast use {
    vstd::multiset::group_multiset_axioms,
    to_multiset_build,
    to_multiset_insert,
    to_multiset_contains,
};

/// Two records of `s` share the version `v`.
pub open spec fn shared_version(s: Seq<MigrationRecord>, v: i64) -> bool {
    exists|i: int, j: int| 0 <= i < j < s.len() && (#[trigger] s[i]).version == v && (#[trigger] s[j]).version == v
}

/// Orders scripts discovered in any order by version, as a directory loader
/// does.  Two scripts with one version are refused: the shared version is
/// returned.
pub fn order_by_version(records: Vec<MigrationRecord>) -> (r: Result<Vec<MigrationRecord>, i64>)
    ensures
        match r {
            Ok(sorted) => ascending(versions(sorted@)) && sorted@.to_multiset() == records@.to_multiset(),
            Err(v) => exists|s: Seq<MigrationRecord>| s.to_multiset() == records@.to_multiset() && #[trigger] shared_version(s, v),
        },
{
    let ghost all = records@;
    let mut rest = records;
    let mut out: Vec<MigrationRecord> = Vec::new();
    proof {
        assert(out@.to_multiset() =~= Multiset::empty());
        assert(out@.to_multiset().add(rest@.to_multiset()) =~= all.to_multiset());
    }
    while rest.len() > 0
        invariant
            all == records@,
            ascending(versions(out@)),
            out@.to_multiset().add(rest@.to_multiset()) == all.to_multiset(),
        decreases rest@.len(),
    {
        let ghost before = rest@;
        let m = rest.pop().unwrap();
        proof {
            assert(before == rest@.push(m));
        }
        let mut j: usize = 0;
        while j < out.len() && out[j].version < m.version
            invariant
                j <= out@.len(),
                forall|k: int| 0 <= k < j ==> out@[k].version < m.version,
            decreases out@.len() - j,
        {
            j = j + 1;
        }
        if j < out.len() && out[j].version == m.version {
            let shared: i64 = m.version;
            proof {
                let s = out@.insert(j as int, m) + rest@;
                lemma_multiset_commutative(out@.insert(j as int, m), rest@);
                assert(s.to_multiset() =~= all.to_multiset());
                assert(s[j as int] == m);
                assert(s[j as int + 1] == out@[j as int]);
            }
            let r: Result<Vec<MigrationRecord>, i64> = Err(shared);
            assert(r matches Err(v) && v == shared);
            proof {
                let s = out@.insert(j as int, m) + rest@;
                assert(shared_version(s, shared));
                assert(s.to_multiset() == records@.to_multiset());
            }
            return r;
        }
        let ghost prev = out@;
        out.insert(j, m);
        proof {
            assert(out@ == prev.insert(j as int, m));
            assert(out@.to_multiset().add(rest@.to_multiset()) =~= all.to_multiset());
            assert forall|a: int, b: int| 0 <= a < b < versions(out@).len() implies versions(out@)[a] < versions(out@)[b] by {
                assert(versions(prev)[a] == prev[a].version);
                if a < j && b > j {
                    assert(versions(prev)[b - 1] == prev[b - 1].version);
                } else if a > j {
                    assert(versions(prev)[a - 1] == prev[a - 1].version);
                    assert(versions(prev)[b - 1] == prev[b - 1].version);
                } else if b < j {
                    assert(versions(prev)[b] == prev[b].version);
                } else if a == j && b > j {
                    assert(versions(prev)[b - 1] == prev[b - 1].version);
                    assert(versions(prev)[j as int] == prev[j as int].version);
                }
            }
        }
    }
    proof {
        assert(rest@.to_multiset() =~= Multiset::empty());
        assert(out@.to_multiset() =~= all.to_multiset());
    }
    Ok(out)
}

} // verus!
