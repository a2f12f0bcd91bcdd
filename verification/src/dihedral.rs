//! The dihedral group D16 and the Verhoeff permutation σ over its 32
//! elements, which together carry the friend code's check symbol.
use vstd::prelude::*;

verus! {

/// Multiplication in D16. An element is `s * 16 + k`: reflection flag `s`,
/// rotation `k`.
pub open spec fn dmul(a: u32, b: u32) -> u32 {
    let sa = a / 16;
    let ka = a % 16;
    let sb = b / 16;
    let kb = b % 16;
    let s = (sa + sb) % 2;
    let k = if sa == 0 { (ka + kb) % 16 } else { (ka + 16 - kb) % 16 };
    (s * 16 + k) as u32
}

/// Inverse in D16: rotations invert the angle, reflections are involutions.
pub open spec fn dinv(a: u32) -> u32 {
    if a < 16 { ((16 - a) % 16) as u32 } else { a }
}

/// The group laws of D16 on its 32 elements.
pub proof fn lemma_group_laws()
    ensures
        forall|a: u32| a < 32 ==> #[trigger] dmul(0, a) == a && dmul(a, 0) == a,
        forall|a: u32| a < 32 ==> dmul(a, #[trigger] dinv(a)) == 0 && dmul(dinv(a), a) == 0,
        forall|a: u32| a < 32 ==> #[trigger] dinv(a) < 32,
        forall|a: u32, b: u32| a < 32 && b < 32 ==> #[trigger] dmul(a, b) < 32,
        forall|a: u32, b: u32, c: u32|
            a < 32 && b < 32 && c < 32 ==> #[trigger] dmul(dmul(a, b), c) == dmul(a, dmul(b, c)),
{
    assert(forall|a: u32| a < 32 ==> dmul(0, a) == a && dmul(a, 0) == a) by (bit_vector);
    assert(forall|a: u32| a < 32 ==> dmul(a, dinv(a)) == 0 && dmul(dinv(a), a) == 0) by (bit_vector);
    assert(forall|a: u32| a < 32 ==> dinv(a) < 32) by (bit_vector);
    assert(forall|a: u32, b: u32| a < 32 && b < 32 ==> dmul(a, b) < 32) by (bit_vector);
    assert(forall|a: u32, b: u32, c: u32|
        a < 32 && b < 32 && c < 32 ==> dmul(dmul(a, b), c) == dmul(a, dmul(b, c))) by (bit_vector);
}


/// The Verhoeff permutation σ over the 32 group elements: a derangement
/// chosen so that the check it drives is totally anti-symmetric.
pub open spec fn sigma(x: u32) -> u32 {
    if x == 0 { 1 } else
    if x == 1 { 0 } else
    if x == 2 { 4 } else
    if x == 3 { 6 } else
    if x == 4 { 2 } else
    if x == 5 { 9 } else
    if x == 6 { 3 } else
    if x == 7 { 12 } else
    if x == 8 { 14 } else
    if x == 9 { 5 } else
    if x == 10 { 16 } else
    if x == 11 { 18 } else
    if x == 12 { 7 } else
    if x == 13 { 17 } else
    if x == 14 { 8 } else
    if x == 15 { 20 } else
    if x == 16 { 10 } else
    if x == 17 { 11 } else
    if x == 18 { 13 } else
    if x == 19 { 15 } else
    if x == 20 { 21 } else
    if x == 21 { 19 } else
    if x == 22 { 23 } else
    if x == 23 { 24 } else
    if x == 24 { 27 } else
    if x == 25 { 28 } else
    if x == 26 { 22 } else
    if x == 27 { 31 } else
    if x == 28 { 26 } else
    if x == 29 { 30 } else
    if x == 30 { 25 } else { 29 }
}

/// σ is a permutation of the 32 elements with no fixed point, and the
/// check is totally anti-symmetric: `x·σ(y) != y·σ(x)` whenever `x != y`.
pub proof fn lemma_sigma_laws()
    ensures
        forall|x: u32| x < 32 ==> #[trigger] sigma(x) < 32 && sigma(x) != x,
        forall|x: u32, y: u32| x < 32 && y < 32 && #[trigger] sigma(x) == #[trigger] sigma(y) ==> x == y,
        forall|x: u32, y: u32|
            x < 32 && y < 32 && x != y ==> #[trigger] dmul(x, sigma(y)) != #[trigger] dmul(y, sigma(x)),
{
    assert(forall|x: u32| x < 32 ==> sigma(x) < 32 && sigma(x) != x) by (bit_vector);
    assert(forall|x: u32, y: u32| x < 32 && y < 32 && sigma(x) == sigma(y) ==> x == y) by (bit_vector);
    assert(forall|x: u32, y: u32|
        x < 32 && y < 32 && x != y ==> dmul(x, sigma(y)) != dmul(y, sigma(x))) by (bit_vector);
}


/// The table σ is read from at run time.
pub const SIGMA: [u8; 32] = [1, 0, 4, 6, 2, 9, 3, 12, 14, 5, 16, 18, 7, 17, 8, 20, 10, 11, 13, 15, 21, 19, 23, 24, 27, 28, 22, 31, 26, 30, 25, 29];

/// D16 multiplication on two group elements.
pub fn dihedral_mul(a: u32, b: u32) -> (r: u32)
    requires
        a < 32,
        b < 32,
    ensures
        r == dmul(a, b),
        r < 32,
{
    proof {
        lemma_group_laws();
    }
    let (sa, ka) = (a / 16, a % 16);
    let (sb, kb) = (b / 16, b % 16);
    let s = (sa + sb) % 2;
    let k = if sa == 0 {
        (ka + kb) % 16
    } else {
        (ka + 16 - kb) % 16
    };
    s * 16 + k
}

/// The inverse of a group element.
pub fn dihedral_inv(a: u32) -> (r: u32)
    requires
        a < 32,
    ensures
        r == dinv(a),
        r < 32,
{
    if a < 16 {
        (16 - a) % 16
    } else {
        a
    }
}

/// σ, looked up in [`SIGMA`].
pub fn sigma_of(x: u32) -> (r: u32)
    requires
        x < 32,
    ensures
        r == sigma(x),
        r < 32,
{
    proof {
        lemma_sigma_laws();
    }
    let table = SIGMA;
    table[x as usize] as u32
}


/// D16 is closed under multiplication and has `0` as its identity.
pub proof fn lemma_mul_facts(a: u32, b: u32)
    requires
        a < 32,
        b < 32,
    ensures
        dmul(a, b) < 32,
        dmul(0, a) == a,
        dmul(a, 0) == a,
{
    lemma_group_laws();
}

/// Multiplication in D16 is associative.
pub proof fn lemma_assoc(a: u32, b: u32, c: u32)
    requires
        a < 32,
        b < 32,
        c < 32,
    ensures
        dmul(dmul(a, b), c) == dmul(a, dmul(b, c)),
{
    lemma_group_laws();
}

/// σ applied `i` times.
pub open spec fn sigma_pow_spec(i: nat, x: u32) -> u32
    decreases i,
{
    if i == 0 {
        x
    } else {
        sigma(sigma_pow_spec((i - 1) as nat, x))
    }
}

/// σ applied `i` times to `x` (the per-position permutation power σⁱ).
pub fn sigma_pow(i: usize, x: u32) -> (r: u32)
    requires
        x < 32,
    ensures
        r == sigma_pow_spec(i as nat, x),
        r < 32,
{
    let mut y = x;
    let mut k: usize = 0;
    while k < i
        invariant
            k <= i,
            y == sigma_pow_spec(k as nat, x),
            y < 32,
        decreases i - k,
    {
        y = sigma_of(y);
        k = k + 1;
    }
    y
}

/// σⁱ stays in the group and is injective.
pub proof fn lemma_sigma_pow(i: nat, x: u32, y: u32)
    requires
        x < 32,
        y < 32,
    ensures
        sigma_pow_spec(i, x) < 32,
        sigma_pow_spec(i, x) == sigma_pow_spec(i, y) ==> x == y,
        sigma_pow_spec(i + 1, x) == sigma(sigma_pow_spec(i, x)),
    decreases i,
{
    lemma_sigma_laws();
    if i > 0 {
        lemma_sigma_pow((i - 1) as nat, x, y);
    }
}

/// The product `σ^lo(t[lo]) · … · σ^(hi-1)(t[hi-1])`, folded from the left.
pub open spec fn vrange(t: Seq<u32>, lo: int, hi: int) -> u32
    decreases hi - lo,
{
    if hi <= lo {
        0
    } else {
        dmul(vrange(t, lo, hi - 1), sigma_pow_spec((hi - 1) as nat, t[hi - 1]))
    }
}

/// All the elements of a symbol sequence are group elements.
pub open spec fn all_elements(t: Seq<u32>) -> bool {
    forall|i: int| 0 <= i < t.len() ==> #[trigger] t[i] < 32
}

/// A product of group elements is a group element.
pub proof fn lemma_vrange_bound(t: Seq<u32>, lo: int, hi: int)
    requires
        all_elements(t),
        0 <= lo,
        hi <= t.len(),
    ensures
        vrange(t, lo, hi) < 32,
    decreases hi - lo,
{
    lemma_group_laws();
    if hi > lo {
        lemma_vrange_bound(t, lo, hi - 1);
        lemma_sigma_pow((hi - 1) as nat, t[hi - 1], t[hi - 1]);
    }
}

/// A product splits at any point between its ends.
pub proof fn lemma_vrange_split(t: Seq<u32>, lo: int, mid: int, hi: int)
    requires
        all_elements(t),
        0 <= lo <= mid <= hi <= t.len(),
    ensures
        vrange(t, lo, hi) == dmul(vrange(t, lo, mid), vrange(t, mid, hi)),
    decreases hi - mid,
{
    lemma_group_laws();
    lemma_vrange_bound(t, lo, mid);
    if hi == mid {
    } else {
        lemma_vrange_split(t, lo, mid, hi - 1);
        lemma_vrange_bound(t, mid, hi - 1);
        lemma_vrange_bound(t, lo, hi - 1);
        lemma_sigma_pow((hi - 1) as nat, t[hi - 1], t[hi - 1]);
    }
}

/// A product only looks at the symbols in its range.
pub proof fn lemma_vrange_local(t: Seq<u32>, u: Seq<u32>, lo: int, hi: int)
    requires
        0 <= lo,
        hi <= t.len(),
        hi <= u.len(),
        forall|i: int| lo <= i < hi ==> t[i] == u[i],
    ensures
        vrange(t, lo, hi) == vrange(u, lo, hi),
    decreases hi - lo,
{
    if hi > lo {
        lemma_vrange_local(t, u, lo, hi - 1);
    }
}

/// Left and right cancellation in D16.
pub proof fn lemma_cancel(a: u32, b: u32, c: u32)
    requires
        a < 32,
        b < 32,
        c < 32,
    ensures
        dmul(a, b) == dmul(a, c) ==> b == c,
        dmul(b, a) == dmul(c, a) ==> b == c,
{
    assert(forall|a: u32, b: u32, c: u32|
        a < 32 && b < 32 && c < 32 && dmul(a, b) == dmul(a, c) ==> b == c) by (bit_vector);
    assert(forall|a: u32, b: u32, c: u32|
        a < 32 && b < 32 && c < 32 && dmul(b, a) == dmul(c, a) ==> b == c) by (bit_vector);
}


/// Changing one symbol of a sequence changes its product.
pub proof fn lemma_single_change(t: Seq<u32>, u: Seq<u32>, j: int)
    requires
        all_elements(t),
        all_elements(u),
        t.len() == u.len(),
        0 <= j < t.len(),
        t[j] != u[j],
        forall|i: int| 0 <= i < t.len() && i != j ==> t[i] == u[i],
    ensures
        vrange(t, 0, t.len() as int) != vrange(u, 0, u.len() as int),
{
    let n = t.len() as int;
    lemma_vrange_split(t, 0, j, n);
    lemma_vrange_split(u, 0, j, n);
    lemma_vrange_split(t, j, j + 1, n);
    lemma_vrange_split(u, j, j + 1, n);
    lemma_vrange_local(t, u, 0, j);
    lemma_vrange_local(t, u, j + 1, n);
    lemma_vrange_bound(t, 0, j);
    lemma_vrange_bound(t, j, n);
    lemma_vrange_bound(u, j, n);
    lemma_vrange_bound(t, j + 1, n);
    lemma_sigma_pow(j as nat, t[j], u[j]);
    lemma_sigma_pow(j as nat, u[j], t[j]);
    let a = vrange(t, 0, j);
    let b = vrange(t, j + 1, n);
    let f = sigma_pow_spec(j as nat, t[j]);
    let g = sigma_pow_spec(j as nat, u[j]);
    assert(vrange(t, j, j + 1) == dmul(vrange(t, j, j), f));
    assert(vrange(u, j, j + 1) == dmul(vrange(u, j, j), g));
    lemma_mul_facts(f, b);
    lemma_mul_facts(g, b);
    if vrange(t, 0, n) == vrange(u, 0, n) {
        lemma_cancel(a, vrange(t, j, n), vrange(u, j, n));
        lemma_cancel(b, f, g);
    }
}

/// Swapping two adjacent, distinct symbols of a sequence changes its
/// product. This is where the anti-symmetry of σ is spent.
pub proof fn lemma_adjacent_swap(t: Seq<u32>, u: Seq<u32>, j: int)
    requires
        all_elements(t),
        all_elements(u),
        t.len() == u.len(),
        0 <= j,
        j + 1 < t.len(),
        t[j] != t[j + 1],
        u[j] == t[j + 1],
        u[j + 1] == t[j],
        forall|i: int| 0 <= i < t.len() && i != j && i != j + 1 ==> t[i] == u[i],
    ensures
        vrange(t, 0, t.len() as int) != vrange(u, 0, u.len() as int),
{
    let n = t.len() as int;
    lemma_vrange_split(t, 0, j, n);
    lemma_vrange_split(u, 0, j, n);
    lemma_vrange_split(t, j, j + 2, n);
    lemma_vrange_split(u, j, j + 2, n);
    lemma_vrange_local(t, u, 0, j);
    lemma_vrange_local(t, u, j + 2, n);
    lemma_vrange_bound(t, 0, j);
    lemma_vrange_bound(t, j, n);
    lemma_vrange_bound(u, j, n);
    lemma_vrange_bound(t, j + 2, n);
    lemma_vrange_bound(t, j, j + 2);
    lemma_vrange_bound(u, j, j + 2);
    lemma_sigma_pow(j as nat, t[j], t[j + 1]);
    lemma_sigma_pow(j as nat, t[j + 1], t[j]);
    let x = sigma_pow_spec(j as nat, t[j]);
    let y = sigma_pow_spec(j as nat, t[j + 1]);
    assert(vrange(t, j, j + 1) == dmul(vrange(t, j, j), x));
    assert(vrange(u, j, j + 1) == dmul(vrange(u, j, j), y));
    lemma_mul_facts(x, y);
    lemma_mul_facts(y, x);
    assert(vrange(t, j, j + 2) == dmul(x, sigma(y)));
    assert(vrange(u, j, j + 2) == dmul(y, sigma(x)));
    lemma_antisymmetric(x, y);
    let a = vrange(t, 0, j);
    let b = vrange(t, j + 2, n);
    if vrange(t, 0, n) == vrange(u, 0, n) {
        lemma_cancel(a, vrange(t, j, n), vrange(u, j, n));
        lemma_cancel(b, vrange(t, j, j + 2), vrange(u, j, j + 2));
    }
}

/// The anti-symmetry of σ at one pair.
pub proof fn lemma_antisymmetric(x: u32, y: u32)
    requires
        x < 32,
        y < 32,
        x != y,
    ensures
        dmul(x, sigma(y)) != dmul(y, sigma(x)),
        sigma(x) < 32,
        sigma(y) < 32,
{
    lemma_sigma_laws();
}

} // verus!
