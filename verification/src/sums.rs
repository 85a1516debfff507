//! Sums over maps.
use vstd::prelude::*;

verus! {

/// The sum of the values of a map.
pub open spec fn total(m: Map<u64, nat>) -> nat
    decreases m.dom().len(),
{
    if m.dom().finite() && m.dom().len() > 0 {
        let k = m.dom().choose();
        m[k] + total(m.remove(k))
    } else {
        0
    }
}

/// A key adds its value to the sum.
pub proof fn total_without(m: Map<u64, nat>, k: u64)
    requires
        m.dom().finite(),
        m.dom().contains(k),
    ensures
        total(m) == m[k] + total(m.remove(k)),
    decreases m.dom().len(),
{
    let c = m.dom().choose();
    if c != k {
        total_without(m.remove(c), k);
        total_without(m.remove(k), c);
        assert(m.remove(c).remove(k) =~= m.remove(k).remove(c));
    }
}

/// Setting a value changes the sum by as much as the value changes.
pub proof fn total_with(m: Map<u64, nat>, k: u64, v: nat)
    requires
        m.dom().finite(),
    ensures
        total(m.insert(k, v)) + (if m.dom().contains(k) {
            m[k]
        } else {
            0
        }) == total(m) + v,
{
    total_without(m.insert(k, v), k);
    if m.dom().contains(k) {
        total_without(m, k);
        assert(m.insert(k, v).remove(k) =~= m.remove(k));
    } else {
        assert(m.insert(k, v).remove(k) =~= m);
    }
}

/// The sum of zeros is zero.
pub proof fn total_of_zeros(m: Map<u64, nat>)
    requires
        m.dom().finite(),
        forall|k: u64| #[trigger] m.dom().contains(k) ==> m[k] == 0,
    ensures
        total(m) == 0,
    decreases m.dom().len(),
{
    if m.dom().len() > 0 {
        let k = m.dom().choose();
        assert forall|j: u64| #[trigger] m.remove(k).dom().contains(j) implies m.remove(k)[j]
            == 0 by {
            assert(m.dom().contains(j));
        }
        total_of_zeros(m.remove(k));
    }
}

/// The sum of sums is the sum of the sums.
pub proof fn total_of_sums(a: Map<u64, nat>, b: Map<u64, nat>, c: Map<u64, nat>)
    requires
        c.dom().finite(),
        a.dom() == c.dom(),
        b.dom() == c.dom(),
        forall|k: u64| #[trigger] c.dom().contains(k) ==> a[k] + b[k] == c[k],
    ensures
        total(a) + total(b) == total(c),
    decreases c.dom().len(),
{
    if c.dom().len() > 0 {
        let k = c.dom().choose();
        total_without(a, k);
        total_without(b, k);
        assert(a.remove(k).dom() =~= c.remove(k).dom());
        assert(b.remove(k).dom() =~= c.remove(k).dom());
        assert forall|j: u64| #[trigger] c.remove(k).dom().contains(j) implies a.remove(k)[j]
            + b.remove(k)[j] == c.remove(k)[j] by {
            assert(c.dom().contains(j));
        }
        total_of_sums(a.remove(k), b.remove(k), c.remove(k));
    }
}

} // verus!
