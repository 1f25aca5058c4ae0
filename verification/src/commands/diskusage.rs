//! Disk-usage support: human-readable sizes.
use vstd::prelude::*;
use crate::text::{decimal, digit_char, push_decimal, char_from_digit, string_of, push_str};
use crate::paths::{std_file_name, file_name};

verus! {

/// `1024^k`.
pub open spec fn pow1024(k: nat) -> nat
    decreases k,
{
    if k == 0 {
        1
    } else {
        1024 * pow1024((k - 1) as nat)
    }
}

/// `2^s`.
pub open spec fn pow2n(s: nat) -> nat
    decreases s,
{
    if s == 0 {
        1
    } else {
        2 * pow2n((s - 1) as nat)
    }
}

/// `x / d` rounded to the nearest integer, ties to the even one.
pub open spec fn round_half_even_div(x: nat, d: nat) -> nat {
    let q = x / d;
    let r = x % d;
    if 2 * r > d || (2 * r == d && q % 2 == 1) {
        q + 1
    } else {
        q
    }
}

/// The number of halvings that bring `n` below `2^53`: the spacing of
/// the double-precision numbers around `n` is `2^f64_shift(n)`.
pub open spec fn f64_shift(n: nat) -> nat
    decreases n,
{
    if n < 0x20_0000_0000_0000 {
        0
    } else {
        1 + f64_shift(n / 2)
    }
}

/// The value of `n as f64` for an unsigned integer `n`: the nearest double,
/// ties to the one with an even significand.
pub open spec fn int_as_f64(n: nat) -> nat {
    let m = pow2n(f64_shift(n));
    round_half_even_div(n, m) * m
}

/// Unit step reached by repeatedly dividing `f` by 1024 while it is at least 1024,
/// starting from unit `k` and stopping at unit 4 (TB).
pub open spec fn unit_index_from(f: nat, k: nat) -> nat
    decreases 4 - k,
{
    if k >= 4 {
        k
    } else if f >= pow1024(k + 1) {
        unit_index_from(f, k + 1)
    } else {
        k
    }
}

/// The unit names B, KB, MB, GB, TB.
pub open spec fn unit_name(k: nat) -> Seq<char> {
    if k == 0 {
        seq!['B']
    } else if k == 1 {
        seq!['K', 'B']
    } else if k == 2 {
        seq!['M', 'B']
    } else if k == 3 {
        seq!['G', 'B']
    } else {
        seq!['T', 'B']
    }
}

/// The text of a size: plain bytes under 1 KB, otherwise the size in the largest
/// unit (up to TB) that keeps it at least 1, with one decimal, rounded to nearest
/// with ties to even as the double-precision value of `bytes` gives it.
pub open spec fn format_size_spec(bytes: nat) -> Seq<char> {
    let f = int_as_f64(bytes);
    let k = unit_index_from(f, 0);
    if k == 0 {
        decimal(bytes) + seq![' '] + unit_name(0)
    } else {
        let t = round_half_even_div(f * 10, pow1024(k));
        decimal(t / 10) + seq!['.', digit_char(t % 10), ' '] + unit_name(k)
    }
}

proof fn lemma_pow2n_mono(a: nat, b: nat)
    requires
        a <= b,
    ensures
        1 <= pow2n(a) <= pow2n(b),
    decreases b,
{
    if b > a {
        lemma_pow2n_mono(a, (b - 1) as nat);
    } else {
        lemma_pow2n_pos(a);
    }
}

proof fn lemma_pow2n_pos(a: nat)
    ensures
        1 <= pow2n(a),
    decreases a,
{
    if a > 0 {
        lemma_pow2n_pos((a - 1) as nat);
    }
}

/// Where `n` lies for its shift: below `2^53 * 2^s`, and at least
/// `2^53 * 2^(s - 1)` when `s > 0`.
proof fn lemma_shift_bounds(n: nat)
    ensures
        n < 0x20_0000_0000_0000 * pow2n(f64_shift(n)),
        f64_shift(n) > 0 ==> n >= 0x20_0000_0000_0000 * pow2n((f64_shift(n) - 1) as nat),
    decreases n,
{
    if n >= 0x20_0000_0000_0000 {
        let h = n / 2;
        lemma_shift_bounds(h);
        let sh = f64_shift(h);
        let ph = pow2n(sh);
        assert(f64_shift(n) == 1 + sh);
        assert(pow2n(f64_shift(n)) == 2 * ph);
        assert(n < 0x20_0000_0000_0000 * (2 * ph)) by (nonlinear_arith)
            requires
                h == n / 2,
                h < 0x20_0000_0000_0000 * ph,
        ;
        if sh > 0 {
            assert(ph == 2 * pow2n((sh - 1) as nat));
            assert(n >= 0x20_0000_0000_0000 * ph) by (nonlinear_arith)
                requires
                    h == n / 2,
                    h >= 0x20_0000_0000_0000 * pow2n((sh - 1) as nat),
                    ph == 2 * pow2n((sh - 1) as nat),
            ;
        } else {
            assert(ph == 1);
        }
    }
}

proof fn lemma_shift_mono(a: nat, b: nat)
    requires
        a <= b,
    ensures
        f64_shift(a) <= f64_shift(b),
    decreases b,
{
    if a >= 0x20_0000_0000_0000 {
        lemma_shift_mono(a / 2, b / 2);
    }
}

/// Rounding a quotient lands on the quotient or one above it.
proof fn lemma_round_bounds(x: nat, d: nat)
    requires
        d > 0,
    ensures
        x / d <= round_half_even_div(x, d) <= x / d + 1,
{
}

/// Rounding a quotient keeps the order of the dividends.
proof fn lemma_round_mono(x1: nat, x2: nat, d: nat)
    requires
        d > 0,
        x1 <= x2,
    ensures
        round_half_even_div(x1, d) <= round_half_even_div(x2, d),
{
    vstd::arithmetic::div_mod::lemma_div_is_ordered(x1 as int, x2 as int, d as int);
    vstd::arithmetic::div_mod::lemma_fundamental_div_mod(x1 as int, d as int);
    vstd::arithmetic::div_mod::lemma_fundamental_div_mod(x2 as int, d as int);
    let q1 = x1 / d;
    let q2 = x2 / d;
    if q1 == q2 {
        assert(d * q1 == d * q2);
        assert(x1 % d <= x2 % d);
    }
}

/// The double-precision value of an integer grows with it.
proof fn lemma_f64_mono(a: nat, b: nat)
    requires
        a <= b,
    ensures
        int_as_f64(a) <= int_as_f64(b),
{
    let sa = f64_shift(a);
    let sb = f64_shift(b);
    let ma = pow2n(sa);
    let mb = pow2n(sb);
    lemma_shift_mono(a, b);
    lemma_pow2n_mono(0, sa);
    lemma_pow2n_mono(0, sb);
    if sa == sb {
        lemma_round_mono(a, b, ma);
        let qa = round_half_even_div(a, ma);
        let qb = round_half_even_div(b, ma);
        assert(qa * ma <= qb * ma) by (nonlinear_arith)
            requires
                qa <= qb,
        ;
    } else {
        lemma_shift_bounds(a);
        lemma_shift_bounds(b);
        lemma_round_bounds(a, ma);
        lemma_round_bounds(b, mb);
        let qa = round_half_even_div(a, ma);
        let qb = round_half_even_div(b, mb);
        let big: nat = 0x20_0000_0000_0000;
        // a's value is at most 2^53 * ma
        assert(a / ma < big) by {
            assert(ma * big == big * ma) by (nonlinear_arith);
            vstd::arithmetic::div_mod::lemma_multiply_divide_lt(a as int, ma as int, big as int);
        }
        assert(qa * ma <= big * ma) by (nonlinear_arith)
            requires
                qa <= big,
        ;
        // b's value is at least 2^53 * 2^(sb - 1) >= 2^53 * ma
        let pb = pow2n((sb - 1) as nat);
        lemma_pow2n_mono(sa, (sb - 1) as nat);
        assert(mb == 2 * pb);
        assert(b >= big * pb);
        assert(b / mb >= big / 2) by {
            assert(big * pb == mb * (big / 2)) by (nonlinear_arith)
                requires
                    mb == 2 * pb,
                    big == 0x20_0000_0000_0000,
            ;
            vstd::arithmetic::div_mod::lemma_div_is_ordered((mb * (big / 2)) as int, b as int, mb as int);
            vstd::arithmetic::div_mod::lemma_div_multiples_vanish((big / 2) as int, mb as int);
        }
        assert(qb * mb >= big * ma) by (nonlinear_arith)
            requires
                qb >= big / 2,
                mb == 2 * pb,
                pb >= ma,
                big == 0x20_0000_0000_0000,
        ;
    }
}

proof fn lemma_unit_mono(f1: nat, f2: nat, k: nat)
    requires
        f1 <= f2,
    ensures
        unit_index_from(f1, k) <= unit_index_from(f2, k),
        k <= unit_index_from(f1, k),
    decreases 4 - k,
{
    if k < 4 {
        lemma_unit_mono(f1, f2, k + 1);
    }
}

/// The unit a size is shown in: 0 for B up to 4 for TB.
pub open spec fn size_unit(bytes: nat) -> nat {
    unit_index_from(int_as_f64(bytes), 0)
}

/// The number a size is shown with, in tenths of its unit.
pub open spec fn size_tenths(bytes: nat) -> nat {
    let k = size_unit(bytes);
    if k == 0 {
        bytes * 10
    } else {
        round_half_even_div(int_as_f64(bytes) * 10, pow1024(k))
    }
}

/// A larger size is never shown smaller: its unit is at least as large, and in
/// the same unit its number is at least as large. The text shows the unit's
/// name and that number.
pub proof fn format_size_monotonic(a: nat, b: nat)
    requires
        a <= b,
    ensures
        size_unit(a) <= size_unit(b),
        size_unit(a) == size_unit(b) ==> size_tenths(a) <= size_tenths(b),
        size_unit(a) == 0 ==> format_size_spec(a) == decimal(a) + seq![' '] + unit_name(0),
        size_unit(a) > 0 ==> format_size_spec(a) == decimal(size_tenths(a) / 10)
            + seq!['.', digit_char(size_tenths(a) % 10), ' '] + unit_name(size_unit(a)),
{
    lemma_f64_mono(a, b);
    let fa = int_as_f64(a);
    let fb = int_as_f64(b);
    lemma_unit_mono(fa, fb, 0);
    let k = size_unit(a);
    if k == size_unit(b) && k > 0 {
        lemma_pow2n_mono(0, 0);
        assert(pow1024(k) > 0) by {
            lemma_pow1024_pos(k);
        }
        lemma_round_mono(fa * 10, fb * 10, pow1024(k));
    } else if k == size_unit(b) {
        assert(a * 10 <= b * 10);
    }
}

proof fn lemma_pow1024_pos(k: nat)
    ensures
        pow1024(k) > 0,
    decreases k,
{
    if k > 0 {
        lemma_pow1024_pos((k - 1) as nat);
    }
}

/// `round_half_even_div(x, d)` for machine integers.
pub fn div_round_half_even(x: u128, d: u128) -> (q: u128)
    requires
        d > 0,
    ensures
        q == round_half_even_div(x as nat, d as nat),
{
    let q = x / d;
    let r = x % d;
    proof {
        vstd::arithmetic::div_mod::lemma_fundamental_div_mod(x as int, d as int);
        assert(r < d);
        assert(q <= x) by {
            vstd::arithmetic::div_mod::lemma_div_is_ordered_by_denominator(x as int, 1, d as int);
        }
    }
    if (r > d - r) || (r == d - r && q % 2 == 1) {
        assert(q < u128::MAX) by {
            if x == 0 { } else {
                vstd::arithmetic::div_mod::lemma_div_decreases(x as int, d as int);
            }
        }
        q + 1
    } else {
        q
    }
}

/// `n as f64`, as an exact integer.
pub fn u64_as_f64_value(n: u64) -> (f: u128)
    ensures
        f == int_as_f64(n as nat),
        f <= 2 * (n as nat),
{
    let mut t: u128 = n as u128;
    let mut m: u128 = 1;
    let ghost mut s: nat = 0;
    while t >= 0x20_0000_0000_0000
        invariant
            f64_shift(n as nat) == s + f64_shift(t as nat),
            m == pow2n(s),
            m >= 1,
            m * t <= n,
            n >= 1 ==> t >= 1,
        decreases t,
    {
        let ghost t0 = t;
        let ghost m0 = m;
        assert(f64_shift(t as nat) == 1 + f64_shift((t / 2) as nat));
        t = t / 2;
        assert(m0 * 2 * t <= m0 * t0) by (nonlinear_arith)
            requires
                t == t0 / 2,
                m0 >= 1,
        ;
        assert(m0 * 2 <= n) by (nonlinear_arith)
            requires
                m0 * t0 <= n,
                t0 >= 2,
                m0 >= 1,
        ;
        m = m * 2;
        proof {
            s = s + 1;
            assert(pow2n(s) == 2 * pow2n((s - 1) as nat));
        }
    }
    assert(f64_shift(t as nat) == 0);
    assert(n == 0 ==> m == 1) by {
        if n == 0 && m != 1 {
            assert(m * t <= 0);
        }
    }
    assert(m <= n || n == 0) by (nonlinear_arith)
        requires
            m * t <= n,
            m >= 1,
            n >= 1 ==> t >= 1,
            n == 0 ==> m == 1,
    ;
    let q = div_round_half_even(n as u128, m);
    proof {
        vstd::arithmetic::div_mod::lemma_fundamental_div_mod(n as int, m as int);
        assert(q <= (n as u128) / m + 1);
        assert(((n as u128) / m) * m <= n) by (nonlinear_arith)
            requires
                n == m * ((n as u128) / m) + (n as u128) % m,
                (n as u128) % m >= 0,
        ;
        assert(q * m <= ((n as u128) / m) * m + m) by (nonlinear_arith)
            requires
                q <= (n as u128) / m + 1,
                m >= 1,
        ;
    }
    q * m
}

/// The characters of the unit name `k`.
fn push_unit(out: &mut Vec<char>, k: usize)
    requires
        k <= 4,
    ensures
        final(out)@ == old(out)@ + unit_name(k as nat),
{
    if k == 0 {
        out.push('B');
        assert(old(out)@.push('B') =~= old(out)@ + unit_name(0));
    } else {
        let c = if k == 1 {
            'K'
        } else if k == 2 {
            'M'
        } else if k == 3 {
            'G'
        } else {
            'T'
        };
        out.push(c);
        out.push('B');
        assert(final(out)@ =~= old(out)@ + unit_name(k as nat));
    }
}

/// Formats a size in bytes for people: "0 B", "1.0 KB", "1.0 MB", ... up to TB.
pub fn format_size(bytes: u64) -> (s: String)
    ensures
        s@ == format_size_spec(bytes as nat),
{
    let f = u64_as_f64_value(bytes);
    let mut unit_idx: usize = 0;
    let mut p: u128 = 1;
    proof {
        reveal_with_fuel(pow1024, 5);
    }
    assert(pow1024(4) == 0x100_0000_0000);
    while unit_idx < 4 && f >= p * 1024
        invariant
            unit_idx <= 4,
            p == pow1024(unit_idx as nat),
            pow1024(0) == 1,
            pow1024(1) == 1024,
            pow1024(2) == 1024 * 1024,
            pow1024(3) == 1024 * 1024 * 1024,
            pow1024(4) == 1024 * 1024 * 1024 * 1024,
            unit_index_from(f as nat, 0) == unit_index_from(f as nat, unit_idx as nat),
        decreases 4 - unit_idx,
    {
        p = p * 1024;
        unit_idx = unit_idx + 1;
    }
    let mut out: Vec<char> = Vec::new();
    if unit_idx == 0 {
        push_decimal(&mut out, bytes as u128);
        out.push(' ');
        push_unit(&mut out, 0);
        assert(out@ =~= format_size_spec(bytes as nat));
    } else {
        let t = div_round_half_even(f * 10, p);
        push_decimal(&mut out, t / 10);
        out.push('.');
        let d = char_from_digit((t % 10) as u32);
        out.push(d);
        out.push(' ');
        push_unit(&mut out, unit_idx);
        assert(out@ =~= format_size_spec(bytes as nat));
    }
    string_of(out.as_slice())
}

/// A node of the directory tree that the disk-usage view draws.
pub struct DirNode {
    pub name: String,
    pub path: String,
    pub size: u64,
    pub is_dir: bool,
    pub children: Option<Vec<DirNode>>,
}

/// The most children a node shows; the rest are gathered into one.
pub const MAX_CHILDREN: usize = 200;

/// Whether entry `i` comes before entry `j` when listing by size, largest
/// first, entries of equal size in their original order.
pub open spec fn listed_before(sizes: Seq<u64>, i: int, j: int) -> bool {
    sizes[i] > sizes[j] || (sizes[i] == sizes[j] && i < j)
}

/// `ord` lists the indices `lo..hi` of `sizes`, each once, largest size first
/// and equal sizes in their original order (a stable sort by size, descending).
pub open spec fn listing_order(sizes: Seq<u64>, ord: Seq<int>, lo: int, hi: int) -> bool {
    &&& ord.len() == hi - lo
    &&& forall|k: int| 0 <= k < ord.len() ==> lo <= #[trigger] ord[k] < hi
    &&& forall|a: int, b: int| 0 <= a < b < ord.len() ==> listed_before(sizes, #[trigger] ord[a], #[trigger] ord[b])
}

/// The indices as integers.
pub open spec fn ints(v: Seq<usize>) -> Seq<int> {
    v.map_values(|x: usize| x as int)
}

/// Merges two listings of neighbouring index ranges into one.
fn merge_listings(sizes: &Vec<u64>, left: Vec<usize>, right: Vec<usize>, lo: usize, mid: usize, hi: usize) -> (r: Vec<usize>)
    requires
        lo <= mid <= hi <= sizes.len(),
        listing_order(sizes@, ints(left@), lo as int, mid as int),
        listing_order(sizes@, ints(right@), mid as int, hi as int),
    ensures
        listing_order(sizes@, ints(r@), lo as int, hi as int),
{
    let mut r: Vec<usize> = Vec::new();
    let mut i: usize = 0;
    let mut j: usize = 0;
    while i < left.len() || j < right.len()
        invariant
            lo <= mid <= hi <= sizes.len(),
            listing_order(sizes@, ints(left@), lo as int, mid as int),
            listing_order(sizes@, ints(right@), mid as int, hi as int),
            i <= left.len(),
            j <= right.len(),
            r.len() == i + j,
            forall|k: int| 0 <= k < r.len() ==> lo <= #[trigger] r@[k] < hi,
            forall|a: int, b: int| 0 <= a < b < r.len() ==> listed_before(sizes@, #[trigger] r@[a] as int, #[trigger] r@[b] as int),
            r.len() > 0 && i < left.len() ==> listed_before(sizes@, r@[r.len() - 1] as int, left@[i as int] as int),
            r.len() > 0 && j < right.len() ==> listed_before(sizes@, r@[r.len() - 1] as int, right@[j as int] as int),
        decreases left.len() + right.len() - i - j,
    {
        assert(forall|k: int| 0 <= k < left.len() ==> lo <= #[trigger] ints(left@)[k] < mid);
        assert(forall|k: int| 0 <= k < right.len() ==> mid <= #[trigger] ints(right@)[k] < hi);
        let take_left = if i < left.len() && j < right.len() {
            let a = left[i];
            let b = right[j];
            assert(ints(left@)[i as int] == a);
            assert(ints(right@)[j as int] == b);
            sizes[a] >= sizes[b]
        } else {
            i < left.len()
        };
        let ghost old_r = r@;
        if take_left {
            let x = left[i];
            assert(ints(left@)[i as int] == x);
            proof {
                if i + 1 < left.len() {
                    assert(listed_before(sizes@, ints(left@)[i as int], ints(left@)[i + 1]));
                }
                if j < right.len() {
                    assert(ints(right@)[j as int] == right@[j as int]);
                }
            }
            r.push(x);
            i = i + 1;
        } else {
            let x = right[j];
            assert(ints(right@)[j as int] == x);
            proof {
                if j + 1 < right.len() {
                    assert(listed_before(sizes@, ints(right@)[j as int], ints(right@)[j + 1]));
                }
                if i < left.len() {
                    assert(ints(left@)[i as int] == left@[i as int]);
                }
            }
            r.push(x);
            j = j + 1;
        }
        proof {
            assert forall|a: int, b: int| 0 <= a < b < r.len() implies listed_before(sizes@, #[trigger] r@[a] as int, #[trigger] r@[b] as int) by {
                if b == r.len() - 1 && a < b {
                    if a < r.len() - 2 {
                        assert(listed_before(sizes@, old_r[a] as int, old_r[old_r.len() - 1] as int));
                    }
                }
            }
        }
    }
    assert(ints(r@).len() == hi - lo);
    r
}

/// The listing of the indices `lo..hi` of `sizes`.
fn listing_range(sizes: &Vec<u64>, lo: usize, hi: usize) -> (r: Vec<usize>)
    requires
        lo <= hi <= sizes.len(),
    ensures
        listing_order(sizes@, ints(r@), lo as int, hi as int),
    decreases hi - lo,
{
    if hi - lo <= 1 {
        let mut r: Vec<usize> = Vec::new();
        if hi > lo {
            r.push(lo);
        }
        return r;
    }
    let mid = lo + (hi - lo) / 2;
    let left = listing_range(sizes, lo, mid);
    let right = listing_range(sizes, mid, hi);
    merge_listings(sizes, left, right, lo, mid, hi)
}

/// The order in which entries of the given sizes are listed: a stable sort
/// by size, largest first.
pub fn listing(sizes: &Vec<u64>) -> (r: Vec<usize>)
    ensures
        listing_order(sizes@, ints(r@), 0, sizes.len() as int),
{
    listing_range(sizes, 0, sizes.len())
}

/// The total of the sizes at the given indices.
pub open spec fn sum_at(sizes: Seq<u64>, idx: Seq<int>) -> nat
    decreases idx.len(),
{
    if idx.len() == 0 {
        0
    } else {
        sum_at(sizes, idx.drop_last()) + sizes[idx.last()] as nat
    }
}

/// The total of all sizes.
pub open spec fn sum_all(sizes: Seq<u64>) -> nat
    decreases sizes.len(),
{
    if sizes.len() == 0 {
        0
    } else {
        sum_all(sizes.drop_last()) + sizes.last() as nat
    }
}

/// An entry of a directory: its name, its path, its size and whether it is a directory.
pub open spec fn entry_sizes(entries: Seq<(String, String, u64, bool)>) -> Seq<u64> {
    entries.map_values(|e: (String, String, u64, bool)| e.2)
}

/// The name of the node that gathers `n` entries beyond the shown ones.
pub open spec fn others_name(n: nat) -> Seq<char> {
    "其他 ("@ + decimal(n) + " 项)"@
}

/// The node shown for an entry.
pub open spec fn shows_entry(node: DirNode, e: (String, String, u64, bool)) -> bool {
    &&& node.name@ == e.0@
    &&& node.path@ == e.1@
    &&& node.size == e.2
    &&& node.is_dir == e.3
    &&& if e.3 {
        node.children matches Some(c) && c@.len() == 0
    } else {
        node.children is None
    }
}

/// Taking one index out of a list lowers the sum by its size.
proof fn lemma_sum_remove(sizes: Seq<u64>, idx: Seq<int>, p: int)
    requires
        0 <= p < idx.len(),
    ensures
        sum_at(sizes, idx) == sum_at(sizes, idx.remove(p)) + sizes[idx[p]] as nat,
    decreases idx.len(),
{
    if p == idx.len() - 1 {
        assert(idx.remove(p) =~= idx.drop_last());
    } else {
        lemma_sum_remove(sizes, idx.drop_last(), p);
        assert(idx.remove(p).drop_last() =~= idx.drop_last().remove(p));
        assert(idx.remove(p).last() == idx.last());
    }
}

/// Summing at indices below `n` looks only at the first `n` sizes.
proof fn lemma_sum_prefix(sizes: Seq<u64>, idx: Seq<int>, n: int)
    requires
        0 <= n <= sizes.len(),
        forall|k: int| 0 <= k < idx.len() ==> 0 <= #[trigger] idx[k] < n,
    ensures
        sum_at(sizes, idx) == sum_at(sizes.take(n), idx),
    decreases idx.len(),
{
    if idx.len() > 0 {
        lemma_sum_prefix(sizes, idx.drop_last(), n);
    }
}

/// The sizes at distinct indices add up to at most the total.
proof fn lemma_sum_bound(sizes: Seq<u64>, idx: Seq<int>)
    requires
        forall|a: int, b: int| 0 <= a < b < idx.len() ==> #[trigger] idx[a] != #[trigger] idx[b],
        forall|k: int| 0 <= k < idx.len() ==> 0 <= #[trigger] idx[k] < sizes.len(),
    ensures
        sum_at(sizes, idx) <= sum_all(sizes),
    decreases sizes.len(),
{
    if sizes.len() == 0 {
        if idx.len() > 0 {
            assert(0 <= idx[0] < sizes.len());
            assert(false);
        }
        assert(sum_at(sizes, idx) == 0);
    } else {
        let n = sizes.len() - 1;
        assert(sizes.take(n) =~= sizes.drop_last());
        if exists|p: int| 0 <= p < idx.len() && idx[p] == n {
            let p = choose|p: int| 0 <= p < idx.len() && idx[p] == n;
            let rest = idx.remove(p);
            lemma_sum_remove(sizes, idx, p);
            assert forall|k: int| 0 <= k < rest.len() implies 0 <= #[trigger] rest[k] < n by {
                if k < p {
                    assert(rest[k] == idx[k]);
                } else {
                    assert(rest[k] == idx[k + 1]);
                }
            }
            assert forall|a: int, b: int| 0 <= a < b < rest.len() implies #[trigger] rest[a] != #[trigger] rest[b] by {
                let a1 = if a < p { a } else { a + 1 };
                let b1 = if b < p { b } else { b + 1 };
                assert(rest[a] == idx[a1]);
                assert(rest[b] == idx[b1]);
            }
            lemma_sum_prefix(sizes, rest, n);
            lemma_sum_bound(sizes.drop_last(), rest);
        } else {
            assert forall|k: int| 0 <= k < idx.len() implies 0 <= #[trigger] idx[k] < n by {
                assert(idx[k] != n);
            }
            lemma_sum_prefix(sizes, idx, n);
            lemma_sum_bound(sizes.drop_last(), idx);
        }
    }
}

/// The sizes at the indices of a listing of all entries add up to the total.
proof fn lemma_sum_listing(sizes: Seq<u64>, idx: Seq<int>)
    requires
        idx.len() == sizes.len(),
        forall|a: int, b: int| 0 <= a < b < idx.len() ==> #[trigger] idx[a] != #[trigger] idx[b],
        forall|k: int| 0 <= k < idx.len() ==> 0 <= #[trigger] idx[k] < sizes.len(),
    ensures
        sum_at(sizes, idx) == sum_all(sizes),
    decreases sizes.len(),
{
    if sizes.len() > 0 {
        let n = sizes.len() - 1;
        if !(exists|p: int| 0 <= p < idx.len() && idx[p] == n) {
            // Then `idx` holds `n + 1` distinct indices below `n`.
            assert(idx.no_duplicates());
            idx.unique_seq_to_set();
            vstd::set_lib::lemma_int_range(0, n);
            assert forall|x: int| idx.to_set().contains(x) implies vstd::set_lib::set_int_range(0, n).contains(x) by {
                let k = choose|k: int| 0 <= k < idx.len() && idx[k] == x;
                assert(idx[k] != n);
            }
            vstd::set_lib::lemma_len_subset(idx.to_set(), vstd::set_lib::set_int_range(0, n));
            assert(false);
        }
        let p = choose|p: int| 0 <= p < idx.len() && idx[p] == n;
        let rest = idx.remove(p);
        lemma_sum_remove(sizes, idx, p);
        assert forall|k: int| 0 <= k < rest.len() implies 0 <= #[trigger] rest[k] < n by {
            let k1 = if k < p { k } else { k + 1 };
            assert(rest[k] == idx[k1]);
            assert(idx[k1] != idx[p]);
        }
        assert forall|a: int, b: int| 0 <= a < b < rest.len() implies #[trigger] rest[a] != #[trigger] rest[b] by {
            let a1 = if a < p { a } else { a + 1 };
            let b1 = if b < p { b } else { b + 1 };
            assert(rest[a] == idx[a1]);
            assert(rest[b] == idx[b1]);
        }
        assert(sizes.take(n) =~= sizes.drop_last());
        lemma_sum_prefix(sizes, rest, n);
        lemma_sum_listing(sizes.drop_last(), rest);
    }
}

/// The total size of some nodes.
pub open spec fn node_total(nodes: Seq<DirNode>) -> nat
    decreases nodes.len(),
{
    if nodes.len() == 0 {
        0
    } else {
        node_total(nodes.drop_last()) + nodes.last().size as nat
    }
}

/// The children of a directory node from its entries: the entries listed
/// largest first, the first `MAX_CHILDREN` shown as nodes of their own, and
/// the rest gathered into one node named by how many it holds.
#[verifier::spinoff_prover]
#[verifier::rlimit(30)]
pub fn build_children(entries: Vec<(String, String, u64, bool)>) -> (r: Vec<DirNode>)
    requires
        sum_all(entry_sizes(entries@)) <= u64::MAX,
        entries.len() <= MAX_CHILDREN + u32::MAX,
    ensures
        lists_children(entries@, r@),
{
    let mut sizes: Vec<u64> = Vec::new();
    let mut i: usize = 0;
    while i < entries.len()
        invariant
            i <= entries.len(),
            sizes@ =~= entry_sizes(entries@).take(i as int),
        decreases entries.len() - i,
    {
        sizes.push(entries[i].2);
        i = i + 1;
    }
    assert(sizes@ =~= entry_sizes(entries@));
    let ord = listing(&sizes);
    let ghost o = ints(ord@);
    let mut children: Vec<DirNode> = Vec::new();
    let mut others_size: u64 = 0;
    let mut others_count: u32 = 0;
    let mut k: usize = 0;
    while k < ord.len()
        invariant
            k <= ord.len(),
            o == ints(ord@),
            sizes@ == entry_sizes(entries@),
            sum_all(sizes@) <= u64::MAX,
            ord.len() == entries.len(),
            entries.len() <= MAX_CHILDREN + u32::MAX,
            listing_order(sizes@, o, 0, entries@.len() as int),
            children.len() == if k < MAX_CHILDREN { k } else { MAX_CHILDREN },
            forall|t: int| 0 <= t < children.len() ==> shows_entry(#[trigger] children@[t], entries@[o[t]]),
            k <= MAX_CHILDREN ==> others_count == 0 && others_size == 0,
            k > MAX_CHILDREN ==> others_count == k - MAX_CHILDREN && others_size == sum_at(sizes@, o.subrange(MAX_CHILDREN as int, k as int)),
            node_total(children@) + others_size == sum_at(sizes@, o.take(k as int)),
        decreases ord.len() - k,
    {
        let e = ord[k];
        assert(o[k as int] == e);
        assert(0 <= e < entries.len());
        assert(o.take(k + 1).drop_last() =~= o.take(k as int));
        assert(o.take(k + 1).last() == o[k as int]);
        assert(sizes@[e as int] == entries@[e as int].2);
        let ghost before = children@;
        if k < MAX_CHILDREN {
            let name = entries[e].0.clone();
            let path = entries[e].1.clone();
            let size = entries[e].2;
            let is_dir = entries[e].3;
            let node = DirNode {
                name,
                path,
                size,
                is_dir,
                children: if is_dir {
                    Some(Vec::new())
                } else {
                    None
                },
            };
            children.push(node);
            assert(children@.drop_last() =~= before);
        } else {
            let ghost tail = o.subrange(MAX_CHILDREN as int, k + 1);
            proof {
                assert(tail.drop_last() =~= o.subrange(MAX_CHILDREN as int, k as int));
                assert forall|a: int, b: int| 0 <= a < b < tail.len() implies #[trigger] tail[a] != #[trigger] tail[b] by {
                    assert(listed_before(sizes@, o[a + MAX_CHILDREN], o[b + MAX_CHILDREN]));
                }
                assert forall|t: int| 0 <= t < tail.len() implies 0 <= #[trigger] tail[t] < sizes@.len() by {
                    assert(tail[t] == o[t + MAX_CHILDREN]);
                }
                lemma_sum_bound(sizes@, tail);
                if k == MAX_CHILDREN {
                    assert(tail.drop_last() =~= Seq::<int>::empty());
                }
            }
            others_size = others_size + entries[e].2;
            others_count = others_count + 1;
        }
        k = k + 1;
    }
    if others_count > 0 {
        let mut m: Vec<char> = Vec::new();
        push_str(&mut m, "其他 (");
        push_decimal(&mut m, others_count as u128);
        push_str(&mut m, " 项)");
        let ghost before = children@;
        children.push(DirNode {
            name: string_of(m.as_slice()),
            path: String::new(),
            size: others_size,
            is_dir: false,
            children: None,
        });
        assert(children@.drop_last() =~= before);
        assert(o.subrange(MAX_CHILDREN as int, ord.len() as int) =~= o.skip(MAX_CHILDREN as int));
    }
    proof {
        assert(o.take(ord.len() as int) =~= o);
        assert forall|a: int, b: int| 0 <= a < b < o.len() implies #[trigger] o[a] != #[trigger] o[b] by {
            assert(listed_before(sizes@, o[a], o[b]));
        }
        lemma_sum_listing(sizes@, o);
    }
    children
}

/// `r` is what `build_children` makes of `entries`: the entries listed
/// largest first, the first `MAX_CHILDREN` as nodes of their own, the rest
/// gathered into one node; their sizes add up to those of the entries.
pub open spec fn lists_children(entries: Seq<(String, String, u64, bool)>, r: Seq<DirNode>) -> bool {
    &&& exists|ord: Seq<int>|
        {
            &&& listing_order(entry_sizes(entries), ord, 0, entries.len() as int)
            &&& r.len() == if entries.len() > MAX_CHILDREN {
                MAX_CHILDREN + 1
            } else {
                entries.len() as int
            }
            &&& forall|k: int| 0 <= k < r.len() && k < MAX_CHILDREN ==> shows_entry(#[trigger] r[k], entries[ord[k]])
            &&& entries.len() > MAX_CHILDREN ==> {
                let o = r[MAX_CHILDREN as int];
                &&& o.name@ == others_name((entries.len() - MAX_CHILDREN) as nat)
                &&& o.path@ == Seq::<char>::empty()
                &&& o.size == sum_at(entry_sizes(entries), ord.skip(MAX_CHILDREN as int))
                &&& !o.is_dir
                &&& o.children is None
            }
        }
    &&& node_total(r) == sum_all(entry_sizes(entries))
}

/// The node of a scanned directory: its name and path, the total size of its
/// entries, and the entries as its children.
pub fn scanned_root(name: &str, path: &str, entries: Vec<(String, String, u64, bool)>) -> (r: DirNode)
    requires
        sum_all(entry_sizes(entries@)) <= u64::MAX,
        entries.len() <= MAX_CHILDREN + u32::MAX,
    ensures
        r.name@ == name@,
        r.path@ == path@,
        r.size == sum_all(entry_sizes(entries@)),
        r.is_dir,
        r.children matches Some(c) && lists_children(entries@, c@),
{
    let ghost ev = entries@;
    let children = build_children(entries);
    let mut total: u64 = 0;
    let mut i: usize = 0;
    while i < children.len()
        invariant
            i <= children.len(),
            total == node_total(children@.take(i as int)),
            node_total(children@) == sum_all(entry_sizes(ev)),
            sum_all(entry_sizes(ev)) <= u64::MAX,
        decreases children.len() - i,
    {
        proof {
            assert(children@.take(i + 1).drop_last() =~= children@.take(i as int));
            lemma_node_total_prefix(children@, i + 1);
        }
        total = total + children[i].size;
        i = i + 1;
    }
    assert(children@.take(children.len() as int) =~= children@);
    DirNode { name: String::from_str(name), path: String::from_str(path), size: total, is_dir: true, children: Some(children) }
}

proof fn lemma_node_total_prefix(nodes: Seq<DirNode>, k: int)
    requires
        0 <= k <= nodes.len(),
    ensures
        node_total(nodes.take(k)) <= node_total(nodes),
    decreases nodes.len() - k,
{
    if k < nodes.len() {
        lemma_node_total_prefix(nodes, k + 1);
        assert(nodes.take(k + 1).drop_last() =~= nodes.take(k));
    } else {
        assert(nodes.take(k) =~= nodes);
    }
}

/// How many files pass between two progress reports of a scan.
pub const PROGRESS_EVERY: u64 = 500;

/// The running count of a directory scan: the bytes and files of the
/// top-level entries done so far, and of the subdirectory being walked.
pub struct ScanTally {
    pub total_size: u64,
    pub file_count: u64,
    pub sub_size: u64,
    pub sub_files: u64,
}

impl ScanTally {
    /// Nothing counted yet.
    pub fn new() -> (t: ScanTally)
        ensures
            t == (ScanTally { total_size: 0, file_count: 0, sub_size: 0, sub_files: 0 }),
    {
        ScanTally { total_size: 0, file_count: 0, sub_size: 0, sub_files: 0 }
    }

    /// Counts a file of `size` bytes inside the subdirectory being walked.
    /// Every `PROGRESS_EVERY` such files it gives the files and bytes to
    /// report: those of the subdirectory so far plus those of the entries done.
    pub fn sub_file(&mut self, size: u64) -> (r: Option<(u64, u64)>)
        requires
            old(self).sub_size + size + old(self).total_size <= u64::MAX,
            old(self).sub_files + 1 + old(self).file_count <= u64::MAX,
        ensures
            *final(self) == (ScanTally {
                sub_size: (old(self).sub_size + size) as u64,
                sub_files: (old(self).sub_files + 1) as u64,
                ..*old(self)
            }),
            r == if final(self).sub_files % PROGRESS_EVERY == 0 {
                Some(((final(self).sub_files + final(self).file_count) as u64, (final(self).sub_size + final(self).total_size) as u64))
            } else {
                None
            },
    {
        self.sub_size = self.sub_size + size;
        self.sub_files = self.sub_files + 1;
        if self.sub_files % PROGRESS_EVERY == 0 {
            Some((self.sub_files + self.file_count, self.sub_size + self.total_size))
        } else {
            None
        }
    }

    /// Counts a top-level entry of `size` bytes (a file, or a subdirectory
    /// with all it holds) and starts afresh for the next subdirectory. When the
    /// count of top-level files is a multiple of `PROGRESS_EVERY` (zero
    /// included) it gives the files and bytes to report.
    pub fn entry_done(&mut self, size: u64, is_dir: bool) -> (r: Option<(u64, u64)>)
        requires
            old(self).total_size + size <= u64::MAX,
            old(self).file_count + 1 <= u64::MAX,
        ensures
            *final(self) == (ScanTally {
                total_size: (old(self).total_size + size) as u64,
                file_count: (old(self).file_count + if is_dir { 0u64 } else { 1u64 }) as u64,
                sub_size: 0,
                sub_files: 0,
            }),
            r == if final(self).file_count % PROGRESS_EVERY == 0 {
                Some((final(self).file_count, final(self).total_size))
            } else {
                None
            },
    {
        self.total_size = self.total_size + size;
        self.file_count = self.file_count + if is_dir { 0 } else { 1 };
        self.sub_size = 0;
        self.sub_files = 0;
        if self.file_count % PROGRESS_EVERY == 0 {
            Some((self.file_count, self.total_size))
        } else {
            None
        }
    }
}

/// The progress line shown while scanning.
pub fn scan_progress_message(files: u64, size: u64) -> (r: String)
    ensures
        r@ == "扫描中: "@ + decimal(files as nat) + " 文件, "@ + format_size_spec(size as nat),
{
    let mut m: Vec<char> = Vec::new();
    push_str(&mut m, "扫描中: ");
    push_decimal(&mut m, files as u128);
    push_str(&mut m, " 文件, ");
    let f = format_size(size);
    push_str(&mut m, f.as_str());
    string_of(m.as_slice())
}

/// The name of the scanned root: its final component, or the path as given.
pub fn root_name(dir: &str) -> (r: String)
    ensures
        r@ == match std_file_name(dir@) {
            Some(n) => n,
            None => dir@,
        },
{
    match file_name(dir) {
        Some(n) => n,
        None => dir.to_string(),
    }
}

/// Why a directory cannot be scanned: it does not exist, or it is not a directory.
pub fn scan_error(dir: &str, present: bool) -> (r: String)
    ensures
        r@ == if present {
            "路径不是目录: "@ + dir@
        } else {
            "目录不存在: "@ + dir@
        },
{
    let mut m: Vec<char> = Vec::new();
    if present {
        push_str(&mut m, "路径不是目录: ");
    } else {
        push_str(&mut m, "目录不存在: ");
    }
    push_str(&mut m, dir);
    string_of(m.as_slice())
}

/// Sizes below 2^53 bytes (exact as doubles) are shown in the unit their
/// range calls for: under 1024 as bytes ("B"), then "KB" under 1024^2, "MB"
/// under 1024^3, "GB" under 1024^4 and "TB" beyond; a size in bytes is shown
/// as its plain number.
pub proof fn format_size_units(bytes: nat)
    requires
        bytes < 0x20_0000_0000_0000,
    ensures
        bytes < 1024 ==> format_size_spec(bytes) == decimal(bytes) + seq![' ', 'B'],
        1024 <= bytes < 1048576 ==> size_unit(bytes) == 1 && unit_name(size_unit(bytes)) == seq!['K', 'B'],
        1048576 <= bytes < 1073741824 ==> size_unit(bytes) == 2 && unit_name(size_unit(bytes)) == seq!['M', 'B'],
        1073741824 <= bytes < 1099511627776 ==> size_unit(bytes) == 3 && unit_name(size_unit(bytes)) == seq!['G', 'B'],
        1099511627776 <= bytes ==> size_unit(bytes) == 4 && unit_name(size_unit(bytes)) == seq!['T', 'B'],
{
    assert(f64_shift(bytes) == 0);
    assert(pow2n(0) == 1);
    assert(round_half_even_div(bytes, 1) == bytes);
    assert(int_as_f64(bytes) == bytes);
    reveal_with_fuel(pow1024, 5);
    assert(pow1024(1) == 1024);
    assert(pow1024(2) == 1048576);
    assert(pow1024(3) == 1073741824);
    assert(pow1024(4) == 1099511627776);
    reveal_with_fuel(unit_index_from, 5);
}

} // verus!
