//! Sizes and alignments of values in memory.

use vstd::prelude::*;

verus! {

/// The least multiple of `align` that is not below `x`.
pub open spec fn round_up(x: int, align: int) -> int {
    ((x + align - 1) / align) * align
}

/// Whether a number is a power of two.
pub open spec fn power_of_two(n: int) -> bool {
    vstd::arithmetic::power2::is_pow2(n)
}

/// What [`round_up`] returns is a multiple, and the least one.
pub proof fn round_up_is_least(x: int, align: int)
    requires
        align > 0,
    ensures
        x <= round_up(x, align) < x + align,
        round_up(x, align) % align == 0,
        forall|y: int| x <= y && #[trigger] (y % align) == 0 ==> round_up(x, align) <= y,
{
    let n = x + align - 1;
    vstd::arithmetic::div_mod::lemma_fundamental_div_mod(n, align);
    assert(round_up(x, align) == n - n % align) by (nonlinear_arith)
        requires
            n == align * (n / align) + n % align,
            round_up(x, align) == (n / align) * align,
    ;
    vstd::arithmetic::div_mod::lemma_mod_bound(n, align);
    vstd::arithmetic::div_mod::lemma_mod_multiples_basic(n / align, align);
    assert forall|y: int| x <= y && #[trigger] (y % align) == 0 implies round_up(x, align) <= y by {
        vstd::arithmetic::div_mod::lemma_fundamental_div_mod(y, align);
        let r = round_up(x, align);
        if y < r {
            assert(false) by (nonlinear_arith)
                requires
                    y == align * (y / align),
                    r == (n / align) * align,
                    y < r,
                    x <= y,
                    r < x + align,
                    align > 0,
            ;
        }
    }
}

/// A multiple that is close enough is the one that [`round_up`] returns.
pub proof fn round_up_unique(x: int, align: int, y: int)
    requires
        align > 0,
        y % align == 0,
        x <= y < x + align,
    ensures
        y == round_up(x, align),
{
    round_up_is_least(x, align);
    let r = round_up(x, align);
    vstd::arithmetic::div_mod::lemma_fundamental_div_mod(y, align);
    vstd::arithmetic::div_mod::lemma_fundamental_div_mod(r, align);
    assert(y == r) by (nonlinear_arith)
        requires
            y == align * (y / align),
            r == align * (r / align),
            r <= y,
            y < r + align,
            align > 0,
    ;
}

/// Rounding up commutes with moving by a multiple.
pub proof fn round_up_shift(x: int, align: int, k: int)
    requires
        align > 0,
        k % align == 0,
    ensures
        round_up(x + k, align) == round_up(x, align) + k,
{
    round_up_is_least(x, align);
    sum_of_multiples(round_up(x, align), k, align);
    round_up_unique(x + k, align, round_up(x, align) + k);
}

/// The sum and the difference of two multiples are multiples.
pub proof fn sum_of_multiples(x: int, y: int, align: int)
    requires
        align > 0,
        x % align == 0,
        y % align == 0,
    ensures
        (x + y) % align == 0,
        (x - y) % align == 0,
{
    vstd::arithmetic::div_mod::lemma_add_mod_noop(x, y, align);
    vstd::arithmetic::div_mod::lemma_sub_mod_noop(x, y, align);
    vstd::arithmetic::div_mod::lemma_small_mod(0, align as nat);
}

/// A power of two is a multiple of every smaller one.
pub proof fn powers_of_two_divide(a: int, b: int)
    requires
        power_of_two(a),
        power_of_two(b),
        a <= b,
    ensures
        a > 0,
        b % a == 0,
    decreases a,
{
    reveal(vstd::arithmetic::power2::is_pow2);
    if a > 1 {
        powers_of_two_divide(a / 2, b / 2);
        let half = a / 2;
        let k = (b / 2) / half;
        vstd::arithmetic::div_mod::lemma_fundamental_div_mod(b / 2, half);
        assert(b == k * a) by (nonlinear_arith)
            requires
                b == 2 * (b / 2),
                a == 2 * half,
                b / 2 == half * k,
        ;
        vstd::arithmetic::div_mod::lemma_mod_multiples_basic(k, a);
    }
}

/// A multiple of a multiple is a multiple.
pub proof fn multiple_of_multiple(x: int, b: int, a: int)
    requires
        a > 0,
        b > 0,
        x % b == 0,
        b % a == 0,
    ensures
        x % a == 0,
{
    vstd::arithmetic::div_mod::lemma_fundamental_div_mod(x, b);
    vstd::arithmetic::div_mod::lemma_fundamental_div_mod(b, a);
    let k = x / b;
    let l = b / a;
    assert(x == (k * l) * a) by (nonlinear_arith)
        requires
            x == b * k,
            b == a * l,
    ;
    vstd::arithmetic::div_mod::lemma_mod_multiples_basic(k * l, a);
}

/// A multiple of a power of two is a multiple of every smaller one.
pub proof fn multiple_of_larger_power(x: int, b: int, a: int)
    requires
        power_of_two(a),
        power_of_two(b),
        a <= b,
        x % b == 0,
    ensures
        x % a == 0,
{
    powers_of_two_divide(a, b);
    multiple_of_multiple(x, b, a);
}

/// Eight and sixteen are powers of two, and every larger power is a multiple.
pub proof fn small_powers_of_two()
    ensures
        power_of_two(8),
        power_of_two(16),
{
    reveal(vstd::arithmetic::power2::is_pow2);
    assert(power_of_two(1));
    assert(power_of_two(2));
    assert(power_of_two(4));
}

/// Returns the least multiple of `align` that is not below `x`.
pub fn round_up_to(x: usize, align: usize) -> (rounded: usize)
    requires
        align > 0,
        round_up(x as int, align as int) <= usize::MAX,
    ensures
        rounded == round_up(x as int, align as int),
{
    let rest: usize = x % align;
    proof {
        round_up_is_least(x as int, align as int);
        vstd::arithmetic::div_mod::lemma_fundamental_div_mod(x as int, align as int);
        if rest == 0 {
            round_up_unique(x as int, align as int, x as int);
        } else {
            let y = x + (align - rest);
            assert(y == (x as int / align as int + 1) * align) by (nonlinear_arith)
                requires
                    x == align * (x as int / align as int) + rest,
                    y == x + (align - rest),
            ;
            vstd::arithmetic::div_mod::lemma_mod_multiples_basic(
                x as int / align as int + 1,
                align as int,
            );
            round_up_unique(x as int, align as int, y);
        }
    }
    if rest == 0 {
        x
    } else {
        x + (align - rest)
    }
}

/// Returns whether a number is a power of two.
pub fn is_power_of_two(n: usize) -> (yes: bool)
    ensures
        yes == power_of_two(n as int),
{
    if n == 0 {
        proof {
            reveal(vstd::arithmetic::power2::is_pow2);
        }
        return false;
    }
    let mut m: usize = n;
    while m % 2 == 0
        invariant
            m > 0,
            power_of_two(m as int) == power_of_two(n as int),
        decreases m,
    {
        proof {
            reveal(vstd::arithmetic::power2::is_pow2);
        }
        m = m / 2;
    }
    proof {
        reveal(vstd::arithmetic::power2::is_pow2);
    }
    m == 1
}

/// The size and alignment of a value.
#[derive(Clone, Copy, Debug, PartialEq, Eq, Structural)]
pub struct Layout {
    /// The size in bytes.
    pub size: usize,
    /// The alignment in bytes.
    pub align: usize,
}

impl Layout {
    /// Whether the alignment is a power of two and the size, rounded up to it, can be
    /// allocated.
    pub open spec fn wf(self) -> bool {
        &&& power_of_two(self.align as int)
        &&& self.align > 0
        &&& round_up(self.size as int, self.align as int) <= isize::MAX
    }

    /// Creates a layout, unless the alignment is not a power of two or the size is too
    /// large.
    pub fn from_size_align(size: usize, align: usize) -> (layout: Option<Layout>)
        ensures
            (Layout { size, align }).wf() ==> layout == Some(Layout { size, align }),
            !(Layout { size, align }).wf() ==> layout is None,
    {
        if !is_power_of_two(align) {
            return None;
        }
        proof {
            reveal(vstd::arithmetic::power2::is_pow2);
            round_up_is_least(size as int, align as int);
        }
        let limit: usize = isize::MAX as usize;
        if size > limit {
            return None;
        }
        let rest: usize = size % align;
        if rest != 0 {
            proof {
                vstd::arithmetic::div_mod::lemma_fundamental_div_mod(size as int, align as int);
                let y = size + (align - rest);
                assert(y == (size as int / align as int + 1) * align) by (nonlinear_arith)
                    requires
                        size == align * (size as int / align as int) + rest,
                        y == size + (align - rest),
                ;
                vstd::arithmetic::div_mod::lemma_mod_multiples_basic(
                    size as int / align as int + 1,
                    align as int,
                );
                round_up_unique(size as int, align as int, y);
            }
            if align - rest > limit - size {
                return None;
            }
        } else {
            proof {
                round_up_unique(size as int, align as int, size as int);
            }
        }
        Some(Layout { size, align })
    }

    /// Returns this layout with the size rounded up to the alignment.
    pub fn pad_to_align(self) -> (layout: Layout)
        requires
            self.wf(),
        ensures
            layout.size == round_up(self.size as int, self.align as int),
            layout.align == self.align,
            layout.wf(),
    {
        let size: usize = round_up_to(self.size, self.align);
        proof {
            round_up_is_least(self.size as int, self.align as int);
            round_up_unique(size as int, self.align as int, size as int);
        }
        Layout { size, align: self.align }
    }
}

/// A layout is valid exactly if its alignment is a power of two, and its size can be padded to the
/// alignment without being larger than memory can be.
pub proof fn valid_layout_can_be_padded(layout: Layout)
    ensures
        layout.wf() <==> {
            &&& exists|n: nat| #[trigger] vstd::arithmetic::power::pow(2, n) == layout.align
            &&& exists|padded: int|
                layout.size <= padded <= isize::MAX && #[trigger] (padded % layout.align as int)
                    == 0
        },
{
    let align = layout.align as int;
    vstd::arithmetic::power2::is_pow2_equiv(align);
    if exists|n: nat| #[trigger] vstd::arithmetic::power::pow(2, n) == align {
        let n = choose|n: nat| #[trigger] vstd::arithmetic::power::pow(2, n) == align;
        vstd::arithmetic::power::lemma_pow_positive(2, n);
        let padded = round_up(layout.size as int, align);
        round_up_is_least(layout.size as int, align);
        assert(padded % align == 0);
    }
}

} // verus!
