//! Two's complement `i32` arithmetic as the engine's release build performs
//! it: results are reduced into the `i32` range modulo 2^32.
use vstd::prelude::*;
use vstd::arithmetic::div_mod::*;

verus! {

/// The `i32` that is congruent to `x` modulo 2^32.
pub open spec fn wrap_i32(x: int) -> int {
    (x + 0x8000_0000) % 0x1_0000_0000 - 0x8000_0000
}

/// Wrapping leaves a value that already fits unchanged.
pub proof fn lemma_wrap_identity(x: int)
    requires
        i32::MIN <= x <= i32::MAX,
    ensures
        wrap_i32(x) == x,
{
    lemma_small_mod((x + 0x8000_0000) as nat, 0x1_0000_0000);
}

/// Wrapping the left operand of a sum first changes nothing.
pub proof fn lemma_wrap_add_left(a: int, b: int)
    ensures
        wrap_i32(wrap_i32(a) + b) == wrap_i32(a + b),
{
    let m: int = 0x1_0000_0000;
    let h: int = 0x8000_0000;
    assert(wrap_i32(a) + b + h == (a + h) % m + b);
    lemma_add_mod_noop_right(b, a + h, m);
    assert(((a + h) % m + b) % m == (b + (a + h)) % m);
}

/// Wrapping the right operand of a sum first changes nothing.
pub proof fn lemma_wrap_add_right(a: int, b: int)
    ensures
        wrap_i32(a + wrap_i32(b)) == wrap_i32(a + b),
{
    lemma_wrap_add_left(b, a);
    assert(wrap_i32(b) + a == a + wrap_i32(b));
}

/// `i32::wrapping_add`.
pub fn add_wrapping(a: i32, b: i32) -> (r: i32)
    ensures
        r == wrap_i32(a + b),
{
    let r = a.wrapping_add(b);
    proof {
        let m: int = 0x1_0000_0000;
        let h: int = 0x8000_0000;
        let s: int = a + b + h;
        if a + b > i32::MAX {
            assert(0 <= s - m < m);
            lemma_small_mod((s - m) as nat, m as nat);
            lemma_mod_add_multiples_vanish(s - m, m);
        } else if a + b < i32::MIN {
            assert(0 <= s + m < m);
            lemma_small_mod((s + m) as nat, m as nat);
            lemma_mod_sub_multiples_vanish(s + m, m);
        } else {
            lemma_wrap_identity(a + b);
        }
    }
    r
}

/// `i32::wrapping_sub`.
pub fn sub_wrapping(a: i32, b: i32) -> (r: i32)
    ensures
        r == wrap_i32(a - b),
{
    let r = a.wrapping_sub(b);
    proof {
        let m: int = 0x1_0000_0000;
        let h: int = 0x8000_0000;
        let s: int = a - b + h;
        if a - b > i32::MAX {
            assert(0 <= s - m < m);
            lemma_small_mod((s - m) as nat, m as nat);
            lemma_mod_add_multiples_vanish(s - m, m);
        } else if a - b < i32::MIN {
            assert(0 <= s + m < m);
            lemma_small_mod((s + m) as nat, m as nat);
            lemma_mod_sub_multiples_vanish(s + m, m);
        } else {
            lemma_wrap_identity(a - b);
        }
    }
    r
}

/// `i32::wrapping_neg`, written as a wrapping subtraction from zero.
pub fn neg_wrapping(a: i32) -> (r: i32)
    ensures
        r == wrap_i32(-a),
        a != i32::MIN ==> r == -a,
{
    let r = sub_wrapping(0, a);
    proof {
        if a != i32::MIN {
            lemma_wrap_identity(-a);
        }
    }
    r
}

/// `i32::wrapping_mul`.
pub fn mul_wrapping(a: i32, b: i32) -> (r: i32)
    ensures
        r == wrap_i32(a * b),
{
    let r = a.wrapping_mul(b);
    proof {
        let m: int = 0x1_0000_0000;
        let h: int = 0x8000_0000;
        let z: int = a * b;
        lemma_mod_bound(z, m);
        lemma_add_mod_noop_right(h, z, m);
        assert((z + h) % m == (h + z % m) % m);
        if z % m < h {
            lemma_small_mod((h + z % m) as nat, m as nat);
        } else {
            assert(0 <= h + z % m - m < m);
            lemma_small_mod((h + z % m - m) as nat, m as nat);
            lemma_mod_add_multiples_vanish(h + z % m - m, m);
        }
    }
    r
}

} // verus!
