//! The sequence that the circuits compute: two seeds, and from then on each
//! term the sum of the two before it.

use crate::field::{field_add, modulus, witness_sum};
use vstd::arithmetic::div_mod::{lemma_add_mod_noop, lemma_small_mod};
use vstd::prelude::*;

verus! {

/// Term `n` of the sequence over the integers, counted from 1: the seeds are
/// terms 1 and 2.
pub open spec fn term(a: nat, b: nat, n: nat) -> nat
    decreases n,
{
    if n <= 1 {
        a
    } else if n == 2 {
        b
    } else {
        term(a, b, (n - 2) as nat) + term(a, b, (n - 1) as nat)
    }
}

/// Term `n` of the sequence over witness values: unknown as soon as a seed
/// that it depends on is unknown, and added up in the field.
pub open spec fn witness_term(a: Option<nat>, b: Option<nat>, n: nat) -> Option<nat>
    decreases n,
{
    if n <= 1 {
        a
    } else if n == 2 {
        b
    } else {
        witness_sum(witness_term(a, b, (n - 2) as nat), witness_term(a, b, (n - 1) as nat))
    }
}

/// With known seeds below the field order, term `n` over witness values is
/// term `n` over the integers, reduced modulo the field order.
pub proof fn lemma_witness_term(a: nat, b: nat, n: nat)
    requires
        a < modulus(),
        b < modulus(),
    ensures
        witness_term(Some(a), Some(b), n) == Some(term(a, b, n) % modulus()),
    decreases n,
{
    if n <= 2 {
        lemma_small_mod(a, modulus());
        lemma_small_mod(b, modulus());
    } else {
        lemma_witness_term(a, b, (n - 2) as nat);
        lemma_witness_term(a, b, (n - 1) as nat);
        let x = term(a, b, (n - 2) as nat);
        let y = term(a, b, (n - 1) as nat);
        lemma_add_mod_noop(x as int, y as int, modulus() as int);
        assert(field_add(x % modulus(), y % modulus()) == (x + y) % modulus());
    }
}

/// Term `n` of the sequence in the field.
pub open spec fn known_term(a: nat, b: nat, n: int) -> nat {
    term(a, b, n as nat) % modulus()
}

/// Each term from the third on is the sum, in the field, of the two before
/// it.
pub proof fn lemma_known_term_step(a: nat, b: nat, n: int)
    requires
        a < modulus(),
        b < modulus(),
        n >= 3,
    ensures
        field_add(known_term(a, b, n - 2), known_term(a, b, n - 1)) == known_term(a, b, n),
        known_term(a, b, 1) == a,
        known_term(a, b, 2) == b,
        witness_term(Some(a), Some(b), n as nat) == Some(known_term(a, b, n)),
        witness_term(Some(a), Some(b), (n - 1) as nat) == Some(known_term(a, b, n - 1)),
        witness_term(Some(a), Some(b), (n - 2) as nat) == Some(known_term(a, b, n - 2)),
{
    lemma_witness_term(a, b, n as nat);
    lemma_witness_term(a, b, (n - 1) as nat);
    lemma_witness_term(a, b, (n - 2) as nat);
    lemma_witness_term(a, b, 1);
    lemma_witness_term(a, b, 2);
    assert(witness_term(Some(a), Some(b), 1) == Some(a));
    assert(witness_term(Some(a), Some(b), 2) == Some(b));
}

} // verus!
