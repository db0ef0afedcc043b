//! Delta encoding: a sequence of latents is replaced by its differences, once
//! for each order, and got back by summing up as often.
//!
//! All arithmetic is that of the kind's width: it wraps around at the largest
//! latent of the kind, `max`.

use vstd::prelude::*;

verus! {

/// The highest order of delta encoding.
pub const MAX_DELTA_ENCODING_ORDER: usize = 7;

/// The sum of two latents, wrapping around after `max`.
pub open spec fn spec_add_mod(a: u64, b: u64, max: u64) -> u64 {
    if a + b > max {
        (a + b - max - 1) as u64
    } else {
        (a + b) as u64
    }
}

/// The difference of two latents, wrapping around below 0.
pub open spec fn spec_sub_mod(a: u64, b: u64, max: u64) -> u64 {
    if a >= b {
        (a - b) as u64
    } else {
        (a + max + 1 - b) as u64
    }
}

/// Whether no latent is above `max`.
pub open spec fn spec_fits(s: Seq<u64>, max: u64) -> bool {
    forall|i: int| 0 <= i < s.len() ==> #[trigger] s[i] <= max
}

/// The last of a sequence, or 0 for none.
pub open spec fn spec_last_or_zero(s: Seq<u64>) -> u64 {
    if s.len() == 0 {
        0
    } else {
        s.last()
    }
}

/// The differences of a sequence: each latent less the one before it, the
/// first less 0.
pub open spec fn spec_delta(s: Seq<u64>, max: u64) -> Seq<u64> {
    Seq::new(
        s.len(),
        |i: int|
            spec_sub_mod(
                s[i],
                if i == 0 {
                    0
                } else {
                    s[i - 1]
                },
                max,
            ),
    )
}

/// The running sums of a sequence: each latent plus the sum before it.
pub open spec fn spec_undelta(d: Seq<u64>, max: u64) -> Seq<u64>
    decreases d.len(),
{
    if d.len() == 0 {
        Seq::empty()
    } else {
        let front = spec_undelta(d.drop_last(), max);
        front.push(spec_add_mod(spec_last_or_zero(front), d.last(), max))
    }
}

/// The differences of the given order: of order 0 the sequence itself, of
/// each further order the differences of those before.
pub open spec fn spec_delta_n(s: Seq<u64>, order: nat, max: u64) -> Seq<u64>
    decreases order,
{
    if order == 0 {
        s
    } else {
        spec_delta(spec_delta_n(s, (order - 1) as nat, max), max)
    }
}

/// The running sums of the given order.
pub open spec fn spec_undelta_n(d: Seq<u64>, order: nat, max: u64) -> Seq<u64>
    decreases order,
{
    if order == 0 {
        d
    } else {
        spec_undelta(spec_undelta_n(d, (order - 1) as nat, max), max)
    }
}

/// What a decoder keeps between two latents: for each order up to the given
/// one, the last running sum of that order so far, or 0 before the first.
pub open spec fn spec_levels(d: Seq<u64>, order: nat, max: u64) -> Seq<u64> {
    Seq::new(order, |j: int| spec_last_or_zero(spec_undelta_n(d, (j + 1) as nat, max)))
}

pub proof fn lemma_undelta_len(d: Seq<u64>, max: u64)
    ensures
        spec_undelta(d, max).len() == d.len(),
        spec_fits(d, max) ==> spec_fits(spec_undelta(d, max), max),
    decreases d.len(),
{
    if d.len() > 0 {
        lemma_undelta_len(d.drop_last(), max);
        if spec_fits(d, max) {
            assert(spec_fits(d.drop_last(), max)) by {
                let front = d.drop_last();
                assert forall|i: int| 0 <= i < front.len() implies #[trigger] front[i] <= max by {
                    assert(d[i] <= max);
                }
            }
            assert(d[d.len() - 1] <= max);
        }
    }
}

pub proof fn lemma_undelta_n_len(d: Seq<u64>, order: nat, max: u64)
    ensures
        spec_undelta_n(d, order, max).len() == d.len(),
        spec_fits(d, max) ==> spec_fits(spec_undelta_n(d, order, max), max),
    decreases order,
{
    if order > 0 {
        lemma_undelta_n_len(d, (order - 1) as nat, max);
        lemma_undelta_len(spec_undelta_n(d, (order - 1) as nat, max), max);
    }
}

pub proof fn lemma_delta_n_len(s: Seq<u64>, order: nat, max: u64)
    ensures
        spec_delta_n(s, order, max).len() == s.len(),
        spec_fits(s, max) ==> spec_fits(spec_delta_n(s, order, max), max),
    decreases order,
{
    if order > 0 {
        lemma_delta_n_len(s, (order - 1) as nat, max);
        let inner = spec_delta_n(s, (order - 1) as nat, max);
        if spec_fits(s, max) {
            assert forall|i: int| 0 <= i < inner.len() implies #[trigger] spec_delta(inner, max)[i]
                <= max by {
                assert(inner[i] <= max);
                if i > 0 {
                    assert(inner[i - 1] <= max);
                }
            }
        }
    }
}

/// Summing up the differences of a sequence gives the sequence.
pub proof fn lemma_undelta_delta(s: Seq<u64>, max: u64)
    requires
        spec_fits(s, max),
    ensures
        spec_undelta(spec_delta(s, max), max) == s,
    decreases s.len(),
{
    let d = spec_delta(s, max);
    if s.len() > 0 {
        let front = s.drop_last();
        assert(spec_fits(front, max)) by {
            assert forall|i: int| 0 <= i < front.len() implies #[trigger] front[i] <= max by {
                assert(s[i] <= max);
            }
        }
        lemma_undelta_delta(front, max);
        assert(d.drop_last() =~= spec_delta(front, max));
        assert(s[s.len() - 1] <= max);
        if s.len() > 1 {
            assert(s[s.len() - 2] <= max);
        }
    }
    assert(spec_undelta(d, max) =~= s);
}

/// The differences of a further order are those of the differences.
pub proof fn lemma_delta_n_unfold(s: Seq<u64>, order: nat, max: u64)
    requires
        order > 0,
    ensures
        spec_delta_n(s, order, max) == spec_delta_n(spec_delta(s, max), (order - 1) as nat, max),
    decreases order,
{
    reveal_with_fuel(spec_delta_n, 2);
    if order > 1 {
        lemma_delta_n_unfold(s, (order - 1) as nat, max);
    }
}

/// Summing up the differences of any order as often gives the sequence.
pub proof fn lemma_undelta_delta_n(s: Seq<u64>, order: nat, max: u64)
    requires
        spec_fits(s, max),
    ensures
        spec_undelta_n(spec_delta_n(s, order, max), order, max) == s,
    decreases order,
{
    if order > 0 {
        let once = spec_delta(s, max);
        lemma_delta_n_len(s, 1, max);
        assert(spec_delta_n(s, 1, max) == once) by {
            reveal_with_fuel(spec_delta_n, 2);
        }
        lemma_delta_n_unfold(s, order, max);
        lemma_undelta_delta_n(once, (order - 1) as nat, max);
        lemma_undelta_delta(s, max);
    }
}

/// The running sums of all but the last latent are all but the last of the
/// running sums.
pub proof fn lemma_undelta_n_drop_last(d: Seq<u64>, order: nat, max: u64)
    requires
        d.len() > 0,
    ensures
        spec_undelta_n(d, order, max).len() == d.len(),
        spec_undelta_n(d, order, max).drop_last() == spec_undelta_n(d.drop_last(), order, max),
    decreases order,
{
    lemma_undelta_n_len(d, order, max);
    if order > 0 {
        let inner = spec_undelta_n(d, (order - 1) as nat, max);
        lemma_undelta_n_drop_last(d, (order - 1) as nat, max);
        lemma_undelta_n_len(d, (order - 1) as nat, max);
        assert(spec_undelta(inner, max).drop_last() =~= spec_undelta(inner.drop_last(), max));
    } else {
        assert(spec_undelta_n(d, order, max).drop_last() =~= spec_undelta_n(
            d.drop_last(),
            order,
            max,
        ));
    }
}

/// The running sums of the first latents are the first of the running sums.
pub proof fn lemma_undelta_n_take(d: Seq<u64>, order: nat, max: u64, i: int)
    requires
        0 <= i <= d.len(),
    ensures
        spec_undelta_n(d, order, max).len() == d.len(),
        spec_undelta_n(d, order, max).take(i) == spec_undelta_n(d.take(i), order, max),
    decreases d.len(),
{
    lemma_undelta_n_len(d, order, max);
    if i == d.len() {
        assert(d.take(i) =~= d);
        assert(spec_undelta_n(d, order, max).take(i) =~= spec_undelta_n(d, order, max));
    } else {
        lemma_undelta_n_drop_last(d, order, max);
        lemma_undelta_n_take(d.drop_last(), order, max, i);
        assert(d.drop_last().take(i) =~= d.take(i));
        let sums = spec_undelta_n(d, order, max);
        assert(sums.take(i) =~= sums.drop_last().take(i));
    }
}

/// The last running sum of an order is the one before it plus the last
/// running sum of the order below.
pub proof fn lemma_undelta_n_last(d: Seq<u64>, order: nat, max: u64)
    requires
        d.len() > 0,
        order > 0,
    ensures
        spec_undelta_n(d, order, max).len() == d.len(),
        spec_undelta_n(d, (order - 1) as nat, max).len() == d.len(),
        spec_undelta_n(d, order, max).last() == spec_add_mod(
            spec_last_or_zero(spec_undelta_n(d.drop_last(), order, max)),
            spec_undelta_n(d, (order - 1) as nat, max).last(),
            max,
        ),
{
    let inner = spec_undelta_n(d, (order - 1) as nat, max);
    lemma_undelta_n_len(d, order, max);
    lemma_undelta_n_len(d, (order - 1) as nat, max);
    lemma_undelta_n_drop_last(d, (order - 1) as nat, max);
}

/// The running sum of the order `j + 1` after one more latent `stored` has
/// come in, where `levels` holds the running sums of each order before it: the
/// sum of that order before, plus the new sum of the order below. Below the
/// first order stands the latent itself.
pub open spec fn spec_next_level(levels: Seq<u64>, j: int, stored: u64, max: u64) -> u64
    decreases j + 1,
{
    if j < 0 {
        stored
    } else {
        spec_add_mod(levels[j], spec_next_level(levels, j - 1, stored, max), max)
    }
}

/// What a decoder keeps after one more latent has come in: the running sums
/// of each order up to the given one.
pub open spec fn spec_next_levels(levels: Seq<u64>, order: nat, stored: u64, max: u64) -> Seq<
    u64,
> {
    Seq::new(order, |j: int| spec_next_level(levels, j, stored, max))
}

/// The running sum of an order after one more latent is the last running sum
/// of that order over the sequence with that latent at its end.
proof fn lemma_next_level(
    seen: Seq<u64>,
    stored: u64,
    order: nat,
    max: u64,
    levels: Seq<u64>,
    j: int,
)
    requires
        -1 <= j < order,
        levels.len() >= order,
        levels.take(order as int) == spec_levels(seen, order, max),
    ensures
        spec_next_level(levels, j, stored, max) == spec_undelta_n(
            seen.push(stored),
            (j + 1) as nat,
            max,
        ).last(),
    decreases j + 1,
{
    let all = seen.push(stored);
    assert(all.drop_last() =~= seen);
    if j >= 0 {
        lemma_next_level(seen, stored, order, max, levels, j - 1);
        lemma_undelta_n_last(all, (j + 1) as nat, max);
        assert(levels[j] == levels.take(order as int)[j]);
        assert(levels[j] == spec_last_or_zero(spec_undelta_n(seen, (j + 1) as nat, max)));
    }
}

/// What a decoder keeps, brought up to date with one more latent, is what
/// it keeps for the sequence with that latent at its end; and the running
/// sum of the highest order is the last of the running sums of the whole
/// sequence.
pub proof fn lemma_next_levels(seen: Seq<u64>, stored: u64, order: nat, max: u64, levels: Seq<u64>)
    requires
        levels.len() >= order,
        levels.take(order as int) == spec_levels(seen, order, max),
    ensures
        spec_next_levels(levels, order, stored, max) == spec_levels(
            seen.push(stored),
            order,
            max,
        ),
        spec_next_level(levels, order - 1, stored, max) == spec_undelta_n(
            seen.push(stored),
            order,
            max,
        ).last(),
{
    let all = seen.push(stored);
    assert forall|j: int| 0 <= j < order implies spec_next_levels(levels, order, stored, max)[j]
        == spec_levels(all, order, max)[j] by {
        lemma_next_level(seen, stored, order, max, levels, j);
        lemma_undelta_n_len(all, (j + 1) as nat, max);
    }
    assert(spec_next_levels(levels, order, stored, max) =~= spec_levels(all, order, max));
    lemma_next_level(seen, stored, order, max, levels, order - 1);
}

/// Before the first latent, a decoder keeps 0 for each order.
pub proof fn lemma_levels_of_none(order: nat, max: u64, levels: Seq<u64>)
    requires
        levels.len() >= order,
        forall|j: int| 0 <= j < order ==> levels[j] == 0,
    ensures
        levels.take(order as int) == spec_levels(Seq::<u64>::empty(), order, max),
{
    assert forall|j: int| 0 <= j < order implies levels.take(order as int)[j] == spec_levels(
        Seq::<u64>::empty(),
        order,
        max,
    )[j] by {
        lemma_undelta_n_len(Seq::<u64>::empty(), (j + 1) as nat, max);
    }
    assert(levels.take(order as int) =~= spec_levels(Seq::<u64>::empty(), order, max));
}

/// What a decoder keeps are latents of the kind.
pub proof fn lemma_levels_fit(seen: Seq<u64>, order: nat, max: u64)
    requires
        spec_fits(seen, max),
    ensures
        spec_fits(spec_levels(seen, order, max), max),
{
    assert forall|j: int| 0 <= j < order implies #[trigger] spec_levels(seen, order, max)[j]
        <= max by {
        let sums = spec_undelta_n(seen, (j + 1) as nat, max);
        lemma_undelta_n_len(seen, (j + 1) as nat, max);
        if sums.len() > 0 {
            assert(sums[sums.len() - 1] <= max);
        }
    }
}

/// The sum of two latents of a kind, wrapping around after `max`.
pub fn add_mod(a: u64, b: u64, max: u64) -> (r: u64)
    requires
        a <= max,
        b <= max,
    ensures
        r == spec_add_mod(a, b, max),
        r <= max,
{
    let sum: u128 = a as u128 + b as u128;
    if sum > max as u128 {
        (sum - max as u128 - 1) as u64
    } else {
        sum as u64
    }
}

/// The difference of two latents of a kind, wrapping around below 0.
pub fn sub_mod(a: u64, b: u64, max: u64) -> (r: u64)
    requires
        a <= max,
        b <= max,
    ensures
        r == spec_sub_mod(a, b, max),
        r <= max,
{
    if a >= b {
        a - b
    } else {
        (a as u128 + max as u128 + 1 - b as u128) as u64
    }
}

/// Takes in the next latent of a chunk as it is stored: brings the running
/// sums of each order up to date and gives the one of the highest order,
/// which is the latent that was encoded.
pub fn undelta_next(levels: &mut [u64; 7], order: usize, stored: u64, max: u64) -> (r: u64)
    requires
        order <= MAX_DELTA_ENCODING_ORDER,
        stored <= max,
        spec_fits(old(levels)@.take(order as int), max),
    ensures
        r == spec_next_level(old(levels)@, order - 1, stored, max),
        r <= max,
        final(levels)@.take(order as int) == spec_next_levels(
            old(levels)@,
            order as nat,
            stored,
            max,
        ),
{
    let mut carry = stored;
    let mut j: usize = 0;
    while j < order
        invariant
            j <= order <= MAX_DELTA_ENCODING_ORDER,
            carry <= max,
            carry == spec_next_level(old(levels)@, j - 1, stored, max),
            levels@.take(j as int) == spec_next_levels(old(levels)@, j as nat, stored, max),
            forall|i: int| j <= i < 7 ==> levels@[i] == old(levels)@[i],
            spec_fits(old(levels)@.take(order as int), max),
        decreases order - j,
    {
        assert(old(levels)@.take(order as int)[j as int] <= max);
        let ghost before = levels@;
        carry = add_mod(levels[j], carry, max);
        levels[j] = carry;
        proof {
            let wanted = spec_next_levels(old(levels)@, (j + 1) as nat, stored, max);
            let got = levels@.take(j + 1);
            assert forall|i: int| 0 <= i < j + 1 implies #[trigger] got[i] == wanted[i] by {
                if i < j {
                    assert(levels@[i] == before[i]);
                    assert(before.take(j as int)[i] == before[i]);
                }
            }
            assert(got =~= wanted);
        }
        j += 1;
    }
    carry
}

/// Replaces latents by their differences of the given order.
pub fn delta_encode(latents: &mut Vec<u64>, order: usize, max: u64)
    requires
        spec_fits(old(latents)@, max),
    ensures
        final(latents)@ == spec_delta_n(old(latents)@, order as nat, max),
        spec_fits(final(latents)@, max),
{
    let mut pass: usize = 0;
    while pass < order
        invariant
            pass <= order,
            latents@ == spec_delta_n(old(latents)@, pass as nat, max),
            spec_fits(latents@, max),
        decreases order - pass,
    {
        let ghost before = latents@;
        let mut i: usize = latents.len();
        while i > 1
            invariant
                i <= latents@.len(),
                latents@.len() == before.len(),
                spec_fits(before, max),
                forall|j: int| 0 <= j < i ==> latents@[j] == before[j],
                forall|j: int|
                    i <= j < latents@.len() ==> latents@[j] == spec_delta(before, max)[j],
            decreases i,
        {
            i -= 1;
            assert(before[i as int] <= max);
            assert(before[i - 1] <= max);
            let difference = sub_mod(latents[i], latents[i - 1], max);
            latents.set(i, difference);
        }
        proof {
            if before.len() > 0 {
                assert(before[0] <= max);
            }
            assert(latents@ =~= spec_delta(before, max));
            lemma_delta_n_len(old(latents)@, (pass + 1) as nat, max);
        }
        pass += 1;
    }
}

} // verus!
