//! The order in which the configured migration directories are examined.
use vstd::prelude::*;

verus! {

/// The extra layers, last declared first.
pub open spec fn reversed<T>(extras: Seq<T>) -> Seq<T> {
    Seq::new(extras.len(), |i: int| extras[extras.len() - 1 - i])
}

/// Application order: the extra layers from the last declared to the first,
/// then the base layer.  Override layers seed the ledger before the canonical
/// migrations run.
pub open spec fn application_order<T>(base: T, extras: Seq<T>) -> Seq<T> {
    reversed(extras) + seq![base]
}

/// Builds the application order from the base layer and the extra layers in
/// the order they were configured.  Nothing is deduplicated: a layer given
/// twice is examined twice.
pub fn application_order_of<T>(base: T, extras: Vec<T>) -> (r: Vec<T>)
    ensures
        r@ == application_order(base, extras@),
{
    let mut rest = extras;
    let mut order: Vec<T> = Vec::new();
    while rest.len() > 0
        invariant
            order@.len() + rest@.len() == extras@.len(),
            rest@ == extras@.take(rest@.len() as int),
            forall|i: int| 0 <= i < order@.len() ==> order@[i] == extras@[extras@.len() - 1 - i],
        decreases rest@.len(),
    {
        let layer = rest.pop().unwrap();
        order.push(layer);
        assert(rest@ =~= extras@.take(rest@.len() as int));
    }
    order.push(base);
    assert(order@ =~= application_order(base, extras@));
    order
}

} // verus!
