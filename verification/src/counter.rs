//! Counters of 64 bits that wrap around.

use vstd::arithmetic::div_mod::{
    lemma_add_mod_noop, lemma_fundamental_div_mod_converse_mod, lemma_mod_bound, lemma_small_mod,
};
use vstd::prelude::*;

verus! {

/// A count as a 64-bit counter holds it.
pub open spec fn wrap(n: nat) -> u64 {
    (n % 0x1_0000_0000_0000_0000) as u64
}

/// A counter that wraps holds the wrapped sum after one more addend.
pub proof fn lemma_wrap_add(n: nat, m: nat)
    ensures
        wrap(n + m) == wrap(n).wrapping_add(wrap(m)),
        n <= u64::MAX ==> wrap(n) == n,
{
    let r: int = 0x1_0000_0000_0000_0000;
    let a: int = (n as int) % r;
    let b: int = (m as int) % r;
    lemma_mod_bound(n as int, r);
    lemma_mod_bound(m as int, r);
    lemma_add_mod_noop(n as int, m as int, r);
    if a + b < r {
        lemma_small_mod((a + b) as nat, r as nat);
    } else {
        lemma_fundamental_div_mod_converse_mod(a + b, r, 1, a + b - r);
    }
    if n <= u64::MAX {
        lemma_small_mod(n, r as nat);
    }
}

} // verus!
