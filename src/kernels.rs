use vstd::prelude::*;

use crate::buffer::{DeviceBuffer, DeviceError};

verus! {

pub open spec fn in_i64(v: int) -> bool {
    i64::MIN <= v <= i64::MAX
}

/// The index that step `t` of a strided walk from `o` with stride `s` reads.
pub open spec fn at(o: nat, s: nat, t: nat) -> nat {
    o + s * t
}

/// `sum_{t < n} x[xo + xs * t] * y[yo + ys * t]`.
pub open spec fn sdot(
    x: Seq<i64>,
    xo: nat,
    xs: nat,
    y: Seq<i64>,
    yo: nat,
    ys: nat,
    n: nat,
) -> int
    decreases n,
{
    if n == 0 {
        0
    } else {
        sdot(x, xo, xs, y, yo, ys, (n - 1) as nat) + x[at(xo, xs, (n - 1) as nat) as int] * y[at(yo, ys, (n - 1) as nat) as int]
    }
}

/// Term `t` of `sdot` and the partial sum that ends with it both fit an `i64`.
pub open spec fn step_fits(
    x: Seq<i64>,
    xo: nat,
    xs: nat,
    y: Seq<i64>,
    yo: nat,
    ys: nat,
    t: nat,
) -> bool {
    &&& in_i64(x[at(xo, xs, t) as int] * y[at(yo, ys, t) as int])
    &&& in_i64(sdot(x, xo, xs, y, yo, ys, t + 1))
}

/// Summing `sdot` term by term in `i64` never leaves its range.
pub open spec fn dot_fits(
    x: Seq<i64>,
    xo: nat,
    xs: nat,
    y: Seq<i64>,
    yo: nat,
    ys: nat,
    n: nat,
) -> bool {
    forall|t: nat| t < n ==> #[trigger] step_fits(x, xo, xs, y, yo, ys, t)
}

/// Every index that a strided dot product of length `n` reads lies below `len`.
pub open spec fn strided_in_bounds(o: nat, s: nat, n: nat, len: nat) -> bool {
    forall|t: nat| t < n ==> #[trigger] at(o, s, t) < len
}

/// The strided dot product of two buffers, or `None` where an `i64` cannot hold a step of it.
pub fn dot_strided(
    x: &DeviceBuffer<i64>,
    xo: usize,
    xs: usize,
    y: &DeviceBuffer<i64>,
    yo: usize,
    ys: usize,
    n: usize,
) -> (r: Option<i64>)
    requires
        strided_in_bounds(xo as nat, xs as nat, n as nat, x@.len()),
        strided_in_bounds(yo as nat, ys as nat, n as nat, y@.len()),
    ensures
        r is Some <==> dot_fits(x@, xo as nat, xs as nat, y@, yo as nat, ys as nat, n as nat),
        r matches Some(v) ==> v == sdot(x@, xo as nat, xs as nat, y@, yo as nat, ys as nat, n as nat),
{
    let x_len = x.size();
    let y_len = y.size();
    let mut acc: i64 = 0;
    let mut t: usize = 0;
    while t < n
        invariant
            t <= n,
            x_len == x@.len(),
            y_len == y@.len(),
            strided_in_bounds(xo as nat, xs as nat, n as nat, x@.len()),
            strided_in_bounds(yo as nat, ys as nat, n as nat, y@.len()),
            acc == sdot(x@, xo as nat, xs as nat, y@, yo as nat, ys as nat, t as nat),
            forall|u: nat| u < t ==> #[trigger] step_fits(x@, xo as nat, xs as nat, y@, yo as nat, ys as nat, u),
        decreases n - t,
    {
        assert(at(xo as nat, xs as nat, t as nat) < x@.len());
        assert(at(yo as nat, ys as nat, t as nat) < y@.len());
        assert(xs * t <= x_len);
        assert(ys * t <= y_len);
        let xi = xo + xs * t;
        let yi = yo + ys * t;
        let p = x.get(xi).checked_mul(y.get(yi));
        match p {
            None => {
                assert(!step_fits(x@, xo as nat, xs as nat, y@, yo as nat, ys as nat, t as nat));
                return None;
            },
            Some(p) => {
                match acc.checked_add(p) {
                    None => {
                        assert(!step_fits(x@, xo as nat, xs as nat, y@, yo as nat, ys as nat, t as nat));
                        return None;
                    },
                    Some(s) => {
                        assert(step_fits(x@, xo as nat, xs as nat, y@, yo as nat, ys as nat, t as nat));
                        acc = s;
                    },
                }
            },
        }
        t = t + 1;
    }
    Some(acc)
}

} // verus!

verus! {

/// Entry `(i, j)` of `A^T * B`, where `A` and `B` are `a` and `b` read as column-major
/// matrices of `m` rows.
pub open spec fn cell(a: Seq<i64>, b: Seq<i64>, m: nat, i: nat, j: nat) -> int {
    sdot(a, i * m, 1, b, j * m, 1, m)
}

pub open spec fn cell_fits(a: Seq<i64>, b: Seq<i64>, m: nat, i: nat, j: nat) -> bool {
    dot_fits(a, i * m, 1, b, j * m, 1, m)
}

/// `cell_fits` at flat column-major position `q` of a `k` by `k` matrix.
pub open spec fn flat_cell_fits(a: Seq<i64>, b: Seq<i64>, m: nat, k: nat, q: int) -> bool {
    cell_fits(a, b, m, (q % k as int) as nat, (q / k as int) as nat)
}

/// Every entry of the `k` by `k` product `A^T * B` can be summed in `i64`.
pub open spec fn product_fits(a: Seq<i64>, b: Seq<i64>, m: nat, k: nat) -> bool {
    forall|i: nat, j: nat| i < k && j < k ==> #[trigger] cell_fits(a, b, m, i, j)
}

/// `v` is `A^T * B` stored column-major: entry `p` is row `p % k`, column `p / k`.
pub open spec fn is_product(v: Seq<i64>, a: Seq<i64>, b: Seq<i64>, m: nat, k: nat) -> bool {
    &&& v.len() == k * k
    &&& forall|p: int| 0 <= p < k * k ==> v[p] == cell(a, b, m, (p % k as int) as nat, (p / k as int) as nat)
}

pub proof fn lemma_block_index(i: nat, t: nat, m: nat, k: nat)
    requires
        i < k,
        t < m,
    ensures
        i * m + t < k * m,
        t + m * i < m * k,
        k * m == m * k,
{
    vstd::arithmetic::mul::lemma_mul_is_commutative(k as int, m as int);
    assert(i * m + t < k * m) by (nonlinear_arith)
        requires
            i < k,
            t < m,
    ;
    assert(t + m * i < m * k) by (nonlinear_arith)
        requires
            i < k,
            t < m,
    ;
}

pub proof fn lemma_flat_index(p: int, k: int)
    requires
        0 <= k,
        0 <= p < k * k,
    ensures
        0 <= p % k < k,
        0 <= p / k < k,
{
    if k == 0 {
        assert(k * k == 0);
    }
    vstd::arithmetic::div_mod::lemma_mod_pos_bound(p, k);
    vstd::arithmetic::div_mod::lemma_multiply_divide_lt(p, k, k);
    assert(0 <= p / k) by (nonlinear_arith)
        requires
            0 <= p,
            0 < k,
    ;
}

/// The matrix `A^T * B` with `A`, `B` the first `m * k` elements of `a`, `b` read as
/// `m`-row blocks, or `None` where an entry cannot be summed in `i64`.
pub fn product_values(m: usize, k: usize, a: &DeviceBuffer<i64>, b: &DeviceBuffer<i64>) -> (r:
    Option<Vec<i64>>)
    requires
        m > 0,
        m * k <= usize::MAX,
        m * k <= a@.len(),
        m * k <= b@.len(),
        k * k <= usize::MAX,
    ensures
        r is Some <==> product_fits(a@, b@, m as nat, k as nat),
        r matches Some(v) ==> is_product(v@, a@, b@, m as nat, k as nat),
{
    let n = k * k;
    let mut v: Vec<i64> = Vec::new();
    let mut p: usize = 0;
    while p < n
        invariant
            n == k * k,
            p <= n,
            m > 0,
            m * k <= usize::MAX,
            m * k <= a@.len(),
            m * k <= b@.len(),
            v@.len() == p,
            forall|q: int| 0 <= q < p ==> v@[q] == cell(a@, b@, m as nat, (q % k as int) as nat, (q / k as int) as nat),
            forall|q: int| 0 <= q < p ==> #[trigger] flat_cell_fits(a@, b@, m as nat, k as nat, q),
        decreases n - p,
    {
        proof {
            lemma_flat_index(p as int, k as int);
        }
        let i = p % k;
        let j = p / k;
        proof {
            assert forall|t: nat| t < m implies #[trigger] at((i * m) as nat, 1, t) < a@.len() by {
                lemma_block_index(i as nat, t, m as nat, k as nat);
            }
            assert forall|t: nat| t < m implies #[trigger] at((j * m) as nat, 1, t) < b@.len() by {
                lemma_block_index(j as nat, t, m as nat, k as nat);
            }
            lemma_block_index(i as nat, 0, m as nat, k as nat);
            lemma_block_index(j as nat, 0, m as nat, k as nat);
        }
        match dot_strided(a, i * m, 1, b, j * m, 1, m) {
            None => {
                assert(!cell_fits(a@, b@, m as nat, i as nat, j as nat));
                assert(!flat_cell_fits(a@, b@, m as nat, k as nat, p as int));
                return None;
            },
            Some(s) => {
                v.push(s);
                assert(flat_cell_fits(a@, b@, m as nat, k as nat, p as int));
            },
        }
        p = p + 1;
    }
    proof {
        assert forall|i: nat, j: nat| i < k && j < k implies #[trigger] cell_fits(a@, b@, m as nat, i, j) by {
            let q = (j * k + i) as int;
            assert(q < k * k) by (nonlinear_arith)
                requires
                    i < k,
                    j < k,
                    q == j * k + i,
            ;
            vstd::arithmetic::div_mod::lemma_fundamental_div_mod_converse(q, k as int, j as int, i as int);
            assert(flat_cell_fits(a@, b@, m as nat, k as nat, q));
        }
    }
    Some(v)
}

} // verus!

verus! {

/// Where the upstream gradient is read for flat position `p` of an input gradient.
/// For the first input, `p` is row `p % m` of block `i = p / m`, and the walk goes along
/// row `i` of the upstream gradient; for the second input it goes down column `p / m`.
pub open spec fn grad_offset(m: nat, k: nat, p: nat, second: bool) -> nat {
    if second {
        (p / m) * k
    } else {
        p / m
    }
}

pub open spec fn grad_stride(k: nat, second: bool) -> nat {
    if second {
        1
    } else {
        k
    }
}

/// Entry `p` of the gradient that flows to one input of the product through the
/// upstream gradient `g`, where `x` is the other input.
pub open spec fn grad_entry(x: Seq<i64>, g: Seq<i64>, m: nat, k: nat, p: nat, second: bool) -> int {
    sdot(x, p % m, m, g, grad_offset(m, k, p, second), grad_stride(k, second), k)
}

pub open spec fn grad_entry_fits(x: Seq<i64>, g: Seq<i64>, m: nat, k: nat, p: nat, second: bool) -> bool {
    dot_fits(x, p % m, m, g, grad_offset(m, k, p, second), grad_stride(k, second), k)
}

pub open spec fn grad_fits(x: Seq<i64>, g: Seq<i64>, m: nat, k: nat, second: bool) -> bool {
    forall|p: nat| p < m * k ==> #[trigger] grad_entry_fits(x, g, m, k, p, second)
}

pub open spec fn is_grad(v: Seq<i64>, x: Seq<i64>, g: Seq<i64>, m: nat, k: nat, second: bool) -> bool {
    &&& v.len() == m * k
    &&& forall|p: int| 0 <= p < m * k ==> v[p] == grad_entry(x, g, m, k, p as nat, second)
}

/// The gradient of one input of `A^T * B` given the upstream gradient `g` and the other
/// input `x`, or `None` where an entry cannot be summed in `i64`.
pub fn grad_values(m: usize, k: usize, x: &DeviceBuffer<i64>, g: &DeviceBuffer<i64>, second: bool) -> (r:
    Option<Vec<i64>>)
    requires
        m > 0,
        m * k <= usize::MAX,
        k * k <= usize::MAX,
        m * k <= x@.len(),
        k * k <= g@.len(),
    ensures
        r is Some <==> grad_fits(x@, g@, m as nat, k as nat, second),
        r matches Some(v) ==> is_grad(v@, x@, g@, m as nat, k as nat, second),
{
    let n = m * k;
    let mut v: Vec<i64> = Vec::new();
    let mut p: usize = 0;
    while p < n
        invariant
            n == m * k,
            p <= n,
            m > 0,
            m * k <= usize::MAX,
            k * k <= usize::MAX,
            m * k <= x@.len(),
            k * k <= g@.len(),
            v@.len() == p,
            forall|q: int| 0 <= q < p ==> v@[q] == grad_entry(x@, g@, m as nat, k as nat, q as nat, second),
            forall|q: nat| q < p ==> #[trigger] grad_entry_fits(x@, g@, m as nat, k as nat, q, second),
        decreases n - p,
    {
        let r = p % m;
        let i = p / m;
        proof {
            vstd::arithmetic::div_mod::lemma_mod_pos_bound(p as int, m as int);
            vstd::arithmetic::div_mod::lemma_multiply_divide_lt(p as int, m as int, k as int);
            assert forall|t: nat| t < k implies #[trigger] at(r as nat, m as nat, t) < x@.len() by {
                lemma_block_index(t, r as nat, m as nat, k as nat);
            }
            if second {
                assert forall|t: nat| t < k implies #[trigger] at((i * k) as nat, 1, t) < g@.len() by {
                    lemma_block_index(i as nat, t, k as nat, k as nat);
                }
                lemma_block_index(i as nat, 0, k as nat, k as nat);
            } else {
                assert forall|t: nat| t < k implies #[trigger] at(i as nat, k as nat, t) < g@.len() by {
                    lemma_block_index(t, i as nat, k as nat, k as nat);
                }
            }
        }
        let off = if second { i * k } else { i };
        let stride = if second { 1 } else { k };
        match dot_strided(x, r, m, g, off, stride, k) {
            None => {
                assert(!grad_entry_fits(x@, g@, m as nat, k as nat, p as nat, second));
                return None;
            },
            Some(s) => {
                v.push(s);
                assert(grad_entry_fits(x@, g@, m as nat, k as nat, p as nat, second));
            },
        }
        p = p + 1;
    }
    Some(v)
}

} // verus!

verus! {

/// Adding `b` into `a` elementwise over the first `n` elements stays within `i64`.
pub open spec fn sum_fits(a: Seq<i64>, b: Seq<i64>, n: nat) -> bool {
    forall|p: int| 0 <= p < n ==> #[trigger] in_i64(a[p] + b[p])
}

/// `a` with `b` added into its first `n` elements.
pub open spec fn added(a: Seq<i64>, b: Seq<i64>, n: nat) -> Seq<i64> {
    Seq::new(n, |p: int| (a[p] + b[p]) as i64) + a.subrange(n as int, a.len() as int)
}

/// The contents of `a` with the first `size` elements of `b` added in, or `None` where
/// a sum does not fit.
pub fn add_values(size: usize, a: &DeviceBuffer<i64>, b: &Vec<i64>) -> (r: Option<Vec<i64>>)
    requires
        size <= a@.len(),
        size <= b@.len(),
    ensures
        r is Some <==> sum_fits(a@, b@, size as nat),
        r matches Some(v) ==> v@ == added(a@, b@, size as nat),
{
    let len = a.size();
    let mut sums: Vec<i64> = Vec::new();
    let mut p: usize = 0;
    while p < len
        invariant
            p <= len,
            len == a@.len(),
            size <= a@.len(),
            size <= b@.len(),
            sums@.len() == p,
            forall|q: int| 0 <= q < p && q < size ==> #[trigger] in_i64(a@[q] + b@[q]),
            forall|q: int| 0 <= q < p && q < size ==> sums@[q] == a@[q] + b@[q],
            forall|q: int| size <= q < p ==> sums@[q] == a@[q],
        decreases len - p,
    {
        if p < size {
            match a.get(p).checked_add(b[p]) {
                None => {
                    assert(!in_i64(a@[p as int] + b@[p as int]));
                    return None;
                },
                Some(s) => {
                    sums.push(s);
                },
            }
        } else {
            sums.push(a.get(p));
        }
        p = p + 1;
    }
    assert(sums@ =~= added(a@, b@, size as nat));
    Some(sums)
}

/// Adds the first `size` elements of `src` into `dst`. Nothing is written unless every
/// sum fits.
pub fn accumulate(size: usize, dst: &mut DeviceBuffer<i64>, src: &Vec<i64>) -> (r: Result<(), DeviceError>)
    ensures
        size > old(dst)@.len() || size > src@.len() <==> r == Err::<(), DeviceError>(
            DeviceError::ExpectedIllegalAddressAccess,
        ),
        size <= old(dst)@.len() && size <= src@.len() ==> (r == Err::<(), DeviceError>(
            DeviceError::Overflow,
        ) <==> !sum_fits(old(dst)@, src@, size as nat)),
        r is Err ==> final(dst)@ == old(dst)@,
        r is Ok ==> final(dst)@ == added(old(dst)@, src@, size as nat),
{
    if size > dst.size() || size > src.len() {
        return Err(DeviceError::ExpectedIllegalAddressAccess);
    }
    match add_values(size, dst, src) {
        None => Err(DeviceError::Overflow),
        Some(v) => {
            *dst = DeviceBuffer::from_vec(v);
            Ok(())
        },
    }
}

/// `x` clamped from below by `lo`, then from above by `hi`.
pub open spec fn clamp(x: i64, lo: i64, hi: i64) -> i64 {
    let y = if x < lo { lo } else { x };
    if y > hi { hi } else { y }
}

/// With `lo <= hi`, a clamped value lies in `[lo, hi]`, and clamping it again changes nothing:
/// a second `clip` with the same bounds leaves the parameters as they are.
pub proof fn lemma_clamp_idempotent(x: i64, lo: i64, hi: i64)
    requires
        lo <= hi,
    ensures
        lo <= clamp(x, lo, hi) <= hi,
        clamp(clamp(x, lo, hi), lo, hi) == clamp(x, lo, hi),
{
}

/// Clamps each of the first `size` parameters into `[min, max]`.
pub fn clip(size: usize, params: &mut DeviceBuffer<i64>, min: i64, max: i64) -> (r: Result<(), DeviceError>)
    ensures
        size > old(params)@.len() <==> r == Err::<(), DeviceError>(
            DeviceError::ExpectedIllegalAddressAccess,
        ),
        size <= old(params)@.len() <==> r is Ok,
        r is Err ==> final(params)@ == old(params)@,
        r is Ok ==> final(params)@ == Seq::new(size as nat, |p: int| clamp(old(params)@[p], min, max))
            + old(params)@.subrange(size as int, old(params)@.len() as int),
{
    if size > params.size() {
        return Err(DeviceError::ExpectedIllegalAddressAccess);
    }
    let mut p: usize = 0;
    while p < size
        invariant
            p <= size <= params@.len(),
            params@.len() == old(params)@.len(),
            forall|q: int| 0 <= q < p ==> params@[q] == clamp(old(params)@[q], min, max),
            forall|q: int| p <= q < params@.len() ==> params@[q] == old(params)@[q],
        decreases size - p,
    {
        let x = params.get(p);
        let y = if x < min { min } else { x };
        let z = if y > max { max } else { y };
        params.set(p, z);
        p = p + 1;
    }
    assert(params@ =~= Seq::new(size as nat, |q: int| clamp(old(params)@[q], min, max))
        + old(params)@.subrange(size as int, old(params)@.len() as int));
    Ok(())
}

} // verus!

verus! {

proof fn lemma_sdot_zero_value(x: Seq<i64>, xo: nat, xs: nat, y: Seq<i64>, yo: nat, ys: nat, n: nat)
    requires
        strided_in_bounds(yo, ys, n, y.len()),
        forall|j: int| 0 <= j < y.len() ==> y[j] == 0,
    ensures
        sdot(x, xo, xs, y, yo, ys, n) == 0,
    decreases n,
{
    if n > 0 {
        lemma_sdot_zero_value(x, xo, xs, y, yo, ys, (n - 1) as nat);
        assert(at(yo, ys, (n - 1) as nat) < y.len());
    }
}

/// A strided dot product against zeros is zero, and every step of it fits.
pub proof fn lemma_sdot_zero(x: Seq<i64>, xo: nat, xs: nat, y: Seq<i64>, yo: nat, ys: nat, n: nat)
    requires
        strided_in_bounds(yo, ys, n, y.len()),
        forall|j: int| 0 <= j < y.len() ==> y[j] == 0,
    ensures
        sdot(x, xo, xs, y, yo, ys, n) == 0,
        dot_fits(x, xo, xs, y, yo, ys, n),
{
    lemma_sdot_zero_value(x, xo, xs, y, yo, ys, n);
    assert forall|t: nat| t < n implies #[trigger] step_fits(x, xo, xs, y, yo, ys, t) by {
        assert(at(yo, ys, t) < y.len());
        lemma_sdot_zero_value(x, xo, xs, y, yo, ys, t + 1);
    }
}

/// Against a zero upstream gradient, every entry of an input's gradient is zero and fits.
pub proof fn lemma_grad_zero(x: Seq<i64>, g: Seq<i64>, m: nat, k: nat, second: bool)
    requires
        m > 0,
        k * k <= g.len(),
        forall|j: int| 0 <= j < g.len() ==> g[j] == 0,
    ensures
        grad_fits(x, g, m, k, second),
        forall|p: nat| p < m * k ==> #[trigger] grad_entry(x, g, m, k, p, second) == 0,
{
    assert forall|p: nat| p < m * k implies #[trigger] grad_entry_fits(x, g, m, k, p, second)
        && grad_entry(x, g, m, k, p, second) == 0 by {
        let i = p / m;
        vstd::arithmetic::div_mod::lemma_multiply_divide_lt(p as int, m as int, k as int);
        if second {
            assert forall|t: nat| t < k implies #[trigger] at(i * k, 1, t) < g.len() by {
                lemma_block_index(i, t, k, k);
            }
        } else {
            assert forall|t: nat| t < k implies #[trigger] at(i, k, t) < g.len() by {
                lemma_block_index(t, i, k, k);
            }
        }
        lemma_sdot_zero(x, p % m, m, g, grad_offset(m, k, p, second), grad_stride(k, second), k);
    }
    assert forall|p: nat| p < m * k implies #[trigger] grad_entry(x, g, m, k, p, second) == 0 by {
        assert(grad_entry_fits(x, g, m, k, p, second));
    }
}

} // verus!
