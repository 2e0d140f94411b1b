//! What holds of every population.
use vstd::prelude::*;

use crate::population::backoff_millis;
use crate::population::staging_name;
use crate::population::POPULATION_DEADLOCK_BACKOFF_BASE_MILLIS;
use crate::text::decimal;
use crate::text::digit_char;

verus! {

proof fn lemma_decimal_digits(n: nat)
    ensures
        decimal(n).len() > 0,
        forall|i: int| 0 <= i < decimal(n).len() ==> (#[trigger] decimal(n)[i]) != '_',
    decreases n,
{
    if n >= 10 {
        lemma_decimal_digits(n / 10);
        let rest = decimal(n / 10);
        assert forall|i: int| 0 <= i < decimal(n).len() implies (#[trigger] decimal(n)[i])
            != '_' by {
            if i < rest.len() {
                assert(decimal(n)[i] == rest[i]);
            }
        }
    }
}

proof fn lemma_digit_injective(a: nat, b: nat)
    requires
        a < 10,
        b < 10,
        digit_char(a) == digit_char(b),
    ensures
        a == b,
{
}

proof fn lemma_decimal_injective(a: nat, b: nat)
    requires
        decimal(a) == decimal(b),
    ensures
        a == b,
    decreases a,
{
    lemma_decimal_digits(a / 10);
    lemma_decimal_digits(b / 10);
    if a < 10 && b < 10 {
        assert(decimal(a) == seq![digit_char(a)]);
        assert(decimal(b) == seq![digit_char(b)]);
        assert(seq![digit_char(a)][0] == digit_char(a));
        assert(seq![digit_char(b)][0] == digit_char(b));
        lemma_digit_injective(a, b);
    } else if a >= 10 && b >= 10 {
        assert(decimal(a).drop_last() =~= decimal(a / 10));
        assert(decimal(b).drop_last() =~= decimal(b / 10));
        assert(decimal(a).last() == digit_char(a % 10));
        assert(decimal(b).last() == digit_char(b % 10));
        lemma_decimal_injective(a / 10, b / 10);
        lemma_digit_injective(a % 10, b % 10);
    } else if a < 10 {
        assert(decimal(a).len() == 1);
        assert(decimal(b).len() > 1);
    } else {
        assert(decimal(b).len() == 1);
        assert(decimal(a).len() > 1);
    }
}

proof fn lemma_split(a: Seq<char>, x: Seq<char>, b: Seq<char>, y: Seq<char>)
    requires
        a + "_"@ + x == b + "_"@ + y,
        forall|i: int| 0 <= i < a.len() ==> (#[trigger] a[i]) != '_',
        forall|i: int| 0 <= i < b.len() ==> (#[trigger] b[i]) != '_',
    ensures
        a == b,
        x == y,
{
    reveal_strlit("_");
    let s = a + "_"@ + x;
    let t = b + "_"@ + y;
    assert(s[a.len() as int] == '_');
    assert(t[b.len() as int] == '_');
    if a.len() < b.len() {
        assert(t[a.len() as int] == b[a.len() as int]);
    } else if b.len() < a.len() {
        assert(s[b.len() as int] == a[b.len() as int]);
    }
    assert forall|i: int| 0 <= i < a.len() implies a[i] == b[i] by {
        assert(s[i] == a[i]);
        assert(t[i] == b[i]);
    }
    assert(a =~= b);
    assert(s.len() == a.len() + 1 + x.len());
    assert(t.len() == b.len() + 1 + y.len());
    assert forall|i: int| 0 <= i < x.len() implies x[i] == y[i] by {
        assert(s[a.len() + 1 + i] == x[i]);
        assert(t[b.len() + 1 + i] == y[i]);
    }
    assert(x =~= y);
}

/// No two populations share a staging table, and no two relations of one do:
/// the name tells the query, the generation and the relation apart.
pub proof fn staging_tables_are_not_shared(
    fingerprint: u64,
    generation: u64,
    oid: u32,
    other_fingerprint: u64,
    other_generation: u64,
    other_oid: u32,
)
    requires
        staging_name(fingerprint, generation, oid) == staging_name(
            other_fingerprint,
            other_generation,
            other_oid,
        ),
    ensures
        fingerprint == other_fingerprint,
        generation == other_generation,
        oid == other_oid,
{
    let (f, g, r) = (
        decimal(fingerprint as nat),
        decimal(generation as nat),
        decimal(oid as nat),
    );
    let (f2, g2, r2) = (
        decimal(other_fingerprint as nat),
        decimal(other_generation as nat),
        decimal(other_oid as nat),
    );
    lemma_decimal_digits(fingerprint as nat);
    lemma_decimal_digits(generation as nat);
    lemma_decimal_digits(other_fingerprint as nat);
    lemma_decimal_digits(other_generation as nat);
    let head = "stage_"@;
    let a = f + "_"@ + (g + "_"@ + r);
    let b = f2 + "_"@ + (g2 + "_"@ + r2);
    assert(head + a =~= staging_name(fingerprint, generation, oid));
    assert(head + b =~= staging_name(other_fingerprint, other_generation, other_oid));
    assert(a =~= (head + a).skip(head.len() as int));
    assert(b =~= (head + b).skip(head.len() as int));
    lemma_split(f, g + "_"@ + r, f2, g2 + "_"@ + r2);
    lemma_split(g, r, g2, r2);
    lemma_decimal_injective(fingerprint as nat, other_fingerprint as nat);
    lemma_decimal_injective(generation as nat, other_generation as nat);
    lemma_decimal_injective(oid as nat, other_oid as nat);
}

/// Retries wait longer and longer.
pub proof fn retries_back_off(attempt: nat)
    ensures
        backoff_millis(attempt) >= POPULATION_DEADLOCK_BACKOFF_BASE_MILLIS,
        backoff_millis(attempt + 1) == 2 * backoff_millis(attempt),
        backoff_millis(attempt + 1) > backoff_millis(attempt),
    decreases attempt,
{
    if attempt > 0 {
        retries_back_off((attempt - 1) as nat);
    }
}

} // verus!
