use vstd::prelude::*;

verus! {

/// Is `value` a power of two? Zero is not.
pub open spec fn is_power_of_two(value: usize) -> bool {
    value != 0 && value & ((value - 1) as usize) == 0
}

/// The least multiple of `alignment_in_bytes` that is not below `value`.
pub open spec fn rounded_up_to_alignment(value: int, alignment_in_bytes: int) -> int
    recommends
        alignment_in_bytes > 0,
{
    ((value + (alignment_in_bytes - 1)) / alignment_in_bytes) * alignment_in_bytes
}

/// `rounded_up_to_alignment` yields the least multiple of the alignment that is not below the value.
pub proof fn lemma_rounded_up_to_alignment(value: int, alignment_in_bytes: int)
    requires
        value >= 0,
        alignment_in_bytes > 0,
    ensures
        rounded_up_to_alignment(value, alignment_in_bytes) % alignment_in_bytes == 0,
        value <= rounded_up_to_alignment(value, alignment_in_bytes) < value + alignment_in_bytes,
        value % alignment_in_bytes == 0 ==> rounded_up_to_alignment(value, alignment_in_bytes) == value,
        forall|multiple: int|
            multiple % alignment_in_bytes == 0 && value <= multiple ==> rounded_up_to_alignment(
                value,
                alignment_in_bytes,
            ) <= #[trigger] (multiple + 0),
{
    let a = alignment_in_bytes;
    let q = (value + (a - 1)) / a;
    vstd::arithmetic::div_mod::lemma_fundamental_div_mod(value + (a - 1), a);
    vstd::arithmetic::div_mod::lemma_mod_multiples_basic(q, a);
    vstd::arithmetic::mul::lemma_mul_is_commutative(q, a);
    assert(0 <= (value + (a - 1)) % a < a) by {
        vstd::arithmetic::div_mod::lemma_mod_pos_bound(value + (a - 1), a);
    }
    if value % a == 0 {
        vstd::arithmetic::div_mod::lemma_fundamental_div_mod(value, a);
        let k = value / a;
        assert(value == a * k);
        assert((a * k + (a - 1)) / a == k) by {
            vstd::arithmetic::div_mod::lemma_fundamental_div_mod_converse(a * k + (a - 1), a, k, a - 1);
        }
    }
    assert forall|multiple: int| multiple % a == 0 && value <= multiple implies q * a <= #[trigger] (multiple
        + 0) by {
        vstd::arithmetic::div_mod::lemma_fundamental_div_mod(multiple, a);
        let m = multiple / a;
        assert(multiple == a * m);
        if q > m {
            assert(a * q >= a * (m + 1)) by (nonlinear_arith)
                requires
                    q >= m + 1,
                    a > 0,
            ;
            assert(a * (m + 1) == a * m + a) by (nonlinear_arith);
            assert(false);
        }
        assert(q * a <= m * a) by (nonlinear_arith)
            requires
                q <= m,
                a > 0,
        ;
        assert(m * a == a * m) by (nonlinear_arith);
    }
}

/// Rounding up commutes with adding a multiple of the alignment.
pub proof fn lemma_rounded_up_to_alignment_from_aligned(aligned: int, value: int, alignment_in_bytes: int)
    requires
        alignment_in_bytes > 0,
        aligned % alignment_in_bytes == 0,
    ensures
        rounded_up_to_alignment(aligned + value, alignment_in_bytes) == aligned + rounded_up_to_alignment(
            value,
            alignment_in_bytes,
        ),
{
    let a = alignment_in_bytes;
    let k = aligned / a;
    vstd::arithmetic::div_mod::lemma_fundamental_div_mod(aligned, a);
    assert(aligned == a * k);
    vstd::arithmetic::div_mod::lemma_hoist_over_denominator(value + (a - 1), k, a as nat);
    assert(k * a == a * k) by (nonlinear_arith);
    let q = (value + (a - 1)) / a;
    assert((q + k) * a == q * a + a * k) by (nonlinear_arith);
}

/// Aligns addresses and sizes.
pub trait Alignment: Sized {
    /// The number that `self` stands for.
    spec fn magnitude(self) -> int;

    /// Rounds up to `alignment_in_bytes`, which must be a power of two (and so can not be zero).
    /// A value that is already aligned is returned as it is.
    fn round_up_to_alignment(self, alignment_in_bytes: usize) -> (rounded: Self)
        requires
            is_power_of_two(alignment_in_bytes),
            rounded_up_to_alignment(self.magnitude(), alignment_in_bytes as int) <= usize::MAX,
        ensures
            rounded.magnitude() == rounded_up_to_alignment(self.magnitude(), alignment_in_bytes as int),
            rounded.magnitude() % (alignment_in_bytes as int) == 0,
            self.magnitude() <= rounded.magnitude() < self.magnitude() + alignment_in_bytes,
    ;
}

impl Alignment for usize {
    open spec fn magnitude(self) -> int {
        self as int
    }

    fn round_up_to_alignment(self, alignment_in_bytes: usize) -> (rounded: usize) {
        proof {
            lemma_rounded_up_to_alignment(self as int, alignment_in_bytes as int);
        }
        let quotient: usize = self / alignment_in_bytes;
        let remainder: usize = self % alignment_in_bytes;
        proof {
            let a = alignment_in_bytes as int;
            vstd::arithmetic::div_mod::lemma_fundamental_div_mod(self as int, a);
            assert(self as int == a * (quotient as int) + remainder as int);
            if remainder == 0 {
                assert(a * (quotient as int) == (quotient as int) * a) by (nonlinear_arith);
            } else {
                assert((self as int + (a - 1)) / a == quotient as int + 1) by {
                    assert(self as int + (a - 1) == a * (quotient as int + 1) + (remainder as int - 1))
                        by (nonlinear_arith)
                        requires
                            self as int == a * (quotient as int) + remainder as int,
                    ;
                    vstd::arithmetic::div_mod::lemma_fundamental_div_mod_converse(
                        self as int + (a - 1),
                        a,
                        quotient as int + 1,
                        remainder as int - 1,
                    );
                }
            }
        }
        if remainder == 0 {
            quotient * alignment_in_bytes
        } else {
            (quotient + 1) * alignment_in_bytes
        }
    }
}

/// Rounds `value` up to `alignment_in_bytes`, which must be a power of two.
/// Returns `None` where the rounded value is more than a `usize` holds.
pub fn checked_round_up_to_alignment(value: usize, alignment_in_bytes: usize) -> (rounded: Option<usize>)
    requires
        is_power_of_two(alignment_in_bytes),
    ensures
        rounded is Some <==> rounded_up_to_alignment(value as int, alignment_in_bytes as int) <= usize::MAX,
        rounded is Some ==> rounded->Some_0 == rounded_up_to_alignment(value as int, alignment_in_bytes as int),
{
    proof {
        lemma_rounded_up_to_alignment(value as int, alignment_in_bytes as int);
    }
    let remainder: usize = value % alignment_in_bytes;
    if remainder == 0 {
        Some(value)
    } else {
        let to_add: usize = alignment_in_bytes - remainder;
        proof {
            let a = alignment_in_bytes as int;
            let q = value as int / a;
            vstd::arithmetic::div_mod::lemma_fundamental_div_mod(value as int, a);
            assert(value as int + (a - 1) == a * (q + 1) + (remainder as int - 1)) by (nonlinear_arith)
                requires
                    value as int == a * q + remainder as int,
            ;
            vstd::arithmetic::div_mod::lemma_fundamental_div_mod_converse(
                value as int + (a - 1),
                a,
                q + 1,
                remainder as int - 1,
            );
            assert((q + 1) * a == a * q + a) by (nonlinear_arith);
        }
        value.checked_add(to_add)
    }
}

} // verus!
