//! Work sharing between workers: one shared cursor, advanced by a fixed
//! batch size at every claim, hands out consecutive positions of a list.

use vstd::prelude::*;

verus! {

/// Records claimed at once by a linker worker.
pub const LINK_BATCH: usize = 16;

/// The number of linker workers.
pub const LINK_WORKERS: usize = 16;

pub open spec fn min_nat(a: nat, b: nat) -> nat {
    if a <= b {
        a
    } else {
        b
    }
}

/// The positions `start .. end` of a list of `total` items that a claim
/// hands out when the cursor stood at `cursor`: `batch` of them from
/// `cursor` on, cut at the end of the list.
pub open spec fn claimed(cursor: nat, batch: nat, total: nat) -> (nat, nat) {
    (min_nat(cursor, total), min_nat(cursor + batch, total))
}

/// The positions handed out by a claim at `cursor` (see `claimed`); empty
/// once the cursor has passed the end of the list.
pub fn claim(cursor: usize, batch: usize, total: usize) -> (r: (usize, usize))
    ensures
        r.0 as nat == claimed(cursor as nat, batch as nat, total as nat).0,
        r.1 as nat == claimed(cursor as nat, batch as nat, total as nat).1,
{
    let start = if cursor <= total {
        cursor
    } else {
        total
    };
    let end = if total - start <= batch {
        total
    } else {
        start + batch
    };
    (start, end)
}

/// Exactly-once: when the cursor advances by `batch` at every claim from
/// zero, every position of the list falls in the claim made at cursor
/// `(i / batch) * batch` and in no other.
pub proof fn lemma_claims_partition(batch: nat, total: nat, i: nat, k: nat)
    requires
        batch > 0,
        i < total,
    ensures
        ({
            let c = claimed((i / batch) * batch, batch, total);
            c.0 <= i < c.1
        }),
        k != i / batch ==> !({
            let c = claimed(k * batch, batch, total);
            c.0 <= i < c.1
        }),
{
    let q = i / batch;
    vstd::arithmetic::div_mod::lemma_fundamental_div_mod(i as int, batch as int);
    vstd::arithmetic::div_mod::lemma_mod_bound(i as int, batch as int);
    assert(q * batch <= i < q * batch + batch);
    if k < q {
        assert(k * batch + batch <= q * batch) by (nonlinear_arith)
            requires
                k < q,
                batch > 0,
        ;
    } else if k > q {
        assert(k * batch >= q * batch + batch) by (nonlinear_arith)
            requires
                k > q,
                batch > 0,
        ;
    }
}

} // verus!
