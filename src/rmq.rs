//! Range-minimum queries over plain indices, with the power-of-two tables
//! they are built on.
use vstd::prelude::*;
use crate::interval::{Cases2, Idx, Interval};

verus! {

/// `2^k`.
pub open spec fn exp2(k: nat) -> nat
    decreases k,
{
    if k == 0 {
        1
    } else {
        2 * exp2((k - 1) as nat)
    }
}

/// `x` is `2^k` for some `k`.
pub open spec fn is_exp2(x: nat) -> bool {
    exists|k: nat| exp2(k) == x
}

pub proof fn lemma_exp2_pos(k: nat)
    ensures
        exp2(k) >= 1,
        exp2(k) > k,
    decreases k,
{
    if k > 0 {
        lemma_exp2_pos((k - 1) as nat);
    }
}

pub proof fn lemma_exp2_mono(a: nat, b: nat)
    requires
        a <= b,
    ensures
        exp2(a) <= exp2(b),
    decreases b,
{
    lemma_exp2_pos(b);
    if a < b {
        lemma_exp2_mono(a, (b - 1) as nat);
    }
}

pub proof fn lemma_exp2_adds(a: nat, b: nat)
    ensures
        exp2(a + b) == exp2(a) * exp2(b),
    decreases b,
{
    if b > 0 {
        lemma_exp2_adds(a, (b - 1) as nat);
        assert(exp2(a + b) == 2 * exp2((a + b - 1) as nat));
        assert(exp2(a) * exp2(b) == exp2(a) * (2 * exp2((b - 1) as nat)));
        assert(exp2(a) * (2 * exp2((b - 1) as nat)) == 2 * (exp2(a) * exp2((b - 1) as nat)))
            by (nonlinear_arith);
    } else {
        assert(exp2(0) == 1);
        assert(a + b == a);
    }
}

/// Exactly one `k` has `2^k <= n < 2^(k + 1)`.
proof fn lemma_log_unique(n: int, a: nat, b: nat)
    requires
        exp2(a) <= n < exp2(a + 1),
        exp2(b) <= n < exp2(b + 1),
    ensures
        a == b,
{
    if a < b {
        lemma_exp2_mono(a + 1, b);
    } else if b < a {
        lemma_exp2_mono(b + 1, a);
    }
}

/// Tests if `x` is a power of two, `x = 2^k`; zero counts as one too.
pub fn power_of_two(x: usize) -> (r: bool)
    ensures
        r == (x == 0 || is_exp2(x as nat)),
{
    if x == 0 {
        return true;
    }
    let mut y: usize = x;
    let ghost mut k: nat = 0;
    assert(exp2(0) == 1);
    while y % 2 == 0
        invariant
            y > 0,
            x == y * exp2(k),
        decreases y,
    {
        proof {
            assert(x == (y / 2) * exp2(k + 1)) by {
                assert(y == 2 * (y / 2));
                assert(exp2(k + 1) == 2 * exp2(k));
                assert((y / 2) * (2 * exp2(k)) == (2 * (y / 2)) * exp2(k)) by (nonlinear_arith);
            }
        }
        y = y / 2;
        proof {
            k = k + 1;
        }
    }
    if y == 1 {
        assert(exp2(k) == x);
        true
    } else {
        assert forall|m: nat| exp2(m) != x by {
            if exp2(m) == x {
                if m < k {
                    lemma_exp2_mono(m + 1, k);
                    lemma_exp2_pos(k);
                    assert(y * exp2(k) >= exp2(k)) by (nonlinear_arith)
                        requires
                            y >= 1,
                    ;
                } else {
                    let d = (m - k) as nat;
                    lemma_exp2_adds(k, d);
                    lemma_exp2_pos(k);
                    assert(exp2(m) == exp2(k) * exp2(d));
                    assert(y == exp2(d)) by (nonlinear_arith)
                        requires
                            y * exp2(k) == exp2(k) * exp2(d),
                            exp2(k) >= 1,
                    ;
                    if d > 0 {
                        assert(exp2(d) == 2 * exp2((d - 1) as nat));
                    }
                }
            }
        }
        false
    }
}

/// The exponent `k` of a power of two `2^k`, kept apart from plain numbers
/// so that log-space and linear space do not mix.
#[derive(Debug, Clone, Copy, PartialEq, Eq, Structural)]
pub struct Pow(pub usize);

impl Pow {
    /// `2^k` for `Pow(k)`.
    pub fn value(&self) -> (r: usize)
        requires
            exp2(self.0 as nat) <= usize::MAX,
        ensures
            r == exp2(self.0 as nat),
    {
        let mut r: usize = 1;
        let mut i: usize = 0;
        while i < self.0
            invariant
                i <= self.0,
                r == exp2(i as nat),
                exp2(self.0 as nat) <= usize::MAX,
            decreases self.0 - i,
        {
            proof {
                lemma_exp2_mono((i + 1) as nat, self.0 as nat);
            }
            r = r * 2;
            i = i + 1;
        }
        r
    }
}

/// The `k` for which `2^k` is `j` rounded down to a power of two.
pub fn log2_down(j: usize) -> (r: Pow)
    requires
        j != 0,
    ensures
        exp2(r.0 as nat) <= j < exp2(r.0 as nat + 1),
{
    let mut k: usize = 0;
    let mut p: usize = 1;
    while p <= j / 2
        invariant
            p == exp2(k as nat),
            1 <= p <= j,
            k < p,
        decreases j - p,
    {
        p = p * 2;
        k = k + 1;
    }
    Pow(k)
}

/// The number of entries a table indexed by exponents needs to reach `n`:
/// one more than `log2_down(n)`.
pub fn log_table_size(n: usize) -> (r: Pow)
    requires
        n != 0,
    ensures
        r.0 >= 1,
        exp2((r.0 - 1) as nat) <= n < exp2(r.0 as nat),
{
    let Pow(k) = log2_down(n);
    proof {
        lemma_exp2_pos(k as nat);
    }
    Pow(k + 1)
}

/// The `k` for which `2^k` is `n` rounded up to a power of two.
pub fn log2_up(n: usize) -> (r: Pow)
    requires
        n != 0,
    ensures
        n <= exp2(r.0 as nat),
        r.0 == 0 || exp2((r.0 - 1) as nat) < n,
{
    let Pow(k) = log_table_size(n);
    let p = power_of_two(n);
    proof {
        let f = (k - 1) as nat;
        if p {
            let m = choose|m: nat| exp2(m) == n;
            lemma_exp2_pos(m);
            lemma_log_unique(n as int, f, m);
            if f > 0 {
                lemma_exp2_mono((f - 1) as nat, f);
                assert(exp2(f) == 2 * exp2((f - 1) as nat));
            }
        } else {
            assert(exp2(f) != n);
        }
    }
    Pow(k - p as usize)
}

/// An index into an array of blocks, kept apart from plain indices.
#[derive(Debug, Clone, Copy, PartialEq, Eq, Structural)]
pub struct BlockIdx(pub usize);

/// For `n` and block size `bs`, `(r, r * bs)` with `r` the number of whole
/// blocks in `n`: `r * bs` is `n` rounded down to a multiple of `bs`.
pub fn round_down(n: usize, bs: usize) -> (r: (BlockIdx, usize))
    requires
        bs > 0,
    ensures
        r.0.0 == n / bs,
        r.1 == r.0.0 * bs,
        r.1 <= n < r.1 + bs,
{
    let r = n / bs;
    proof {
        assert(r * bs <= n < r * bs + bs) by (nonlinear_arith)
            requires
                r == n / bs,
                bs > 0,
        ;
    }
    (BlockIdx(r), r * bs)
}

/// For `n` and block size `bs`, `(r, r * bs)` with `r` the number of blocks
/// that cover `n`: `r * bs` is `n` rounded up to a multiple of `bs`.
pub fn round_up(n: usize, bs: usize) -> (r: (BlockIdx, usize))
    requires
        bs > 0,
        n + bs - 1 <= usize::MAX,
    ensures
        r.1 == r.0.0 * bs,
        n <= r.1 < n + bs,
{
    let r = (n + (bs - 1)) / bs;
    proof {
        assert(r * bs <= n + bs - 1 < r * bs + bs) by (nonlinear_arith)
            requires
                r == (n + bs - 1) as int / bs as int,
                bs > 0,
        ;
    }
    (BlockIdx(r), r * bs)
}

/// For the range `[i, j)`, the `k` of the largest `2^k` that fits in it and
/// the start `j - 2^k` of the last such block: `[i, i + 2^k)` and
/// `[j - 2^k, j)` together cover `[i, j)`.
pub fn adjusted_index(i: usize, j: usize) -> (r: (Pow, usize))
    requires
        i < j,
    ensures
        exp2(r.0.0 as nat) <= j - i < exp2(r.0.0 as nat + 1),
        r.1 == j - exp2(r.0.0 as nat),
{
    let k = log2_down(j - i);
    (k, j - k.value())
}

} // verus!

verus! {

/// `k` with `2^k <= n < 2^(k + 1)`, for `n >= 1`.
pub open spec fn floor_log2(n: nat) -> nat
    decreases n,
{
    if n <= 1 {
        0
    } else {
        1 + floor_log2(n / 2)
    }
}

pub proof fn lemma_floor_log2(n: nat)
    requires
        n >= 1,
    ensures
        exp2(floor_log2(n)) <= n < exp2(floor_log2(n) + 1),
    decreases n,
{
    if n > 1 {
        lemma_floor_log2(n / 2);
    }
}

/// Flat positions of distinct cells of a `rows` by `cols` table are distinct
/// and in range.
proof fn lemma_cell(rows: int, cols: int, i: int, k: int, i2: int, k2: int)
    requires
        0 <= i < rows,
        0 <= k < cols,
        0 <= i2 < rows,
        0 <= k2 < cols,
    ensures
        0 <= i * cols + k < rows * cols,
        (i != i2 || k != k2) ==> i * cols + k != i2 * cols + k2,
{
    assert(0 <= i * cols) by (nonlinear_arith)
        requires
            0 <= i,
            0 <= cols,
    ;
    assert(i * cols + k < rows * cols) by (nonlinear_arith)
        requires
            0 <= i < rows,
            0 <= k < cols,
    ;
    if i < i2 {
        assert(i * cols + k < i2 * cols) by (nonlinear_arith)
            requires
                i < i2,
                0 <= k < cols,
        ;
        assert(0 <= i2 * cols + k2 - i2 * cols);
    } else if i2 < i {
        assert(i2 * cols + k2 < i * cols) by (nonlinear_arith)
            requires
                i2 < i,
                0 <= k2 < cols,
        ;
    }
}

/// A two-dimensional table of indices, with `rows` rows of `cols` entries.
pub struct TwoD {
    table: Vec<usize>,
    rows: usize,
    cols: usize,
}

impl View for TwoD {
    type V = Seq<Seq<usize>>;

    closed spec fn view(&self) -> Seq<Seq<usize>> {
        Seq::new(
            self.rows as nat,
            |i: int| Seq::new(self.cols as nat, |k: int| self.table@[i * self.cols + k]),
        )
    }
}

impl TwoD {
    /// The table holds exactly `rows * cols` entries.
    pub closed spec fn wf(&self) -> bool {
        &&& self.table@.len() == self.rows * self.cols
        &&& self.rows * self.cols <= usize::MAX
    }

    pub closed spec fn width(&self) -> nat {
        self.cols as nat
    }

    /// An `n` by `log_table_size(n)` table of zeros.
    pub fn new(n: usize) -> (r: TwoD)
        requires
            n > 0,
            n * (floor_log2(n as nat) + 1) <= usize::MAX,
        ensures
            r@.len() == n,
            r.width() == floor_log2(n as nat) + 1,
            r.wf(),
            forall|i: int, k: int| 0 <= i < n && 0 <= k < r.width() ==> r@[i][k] == 0,
    {
        let Pow(logn) = log_table_size(n);
        proof {
            lemma_floor_log2(n as nat);
            lemma_log_unique(n as int, (logn - 1) as nat, floor_log2(n as nat));
        }
        let size = n * logn;
        let mut table: Vec<usize> = Vec::new();
        let mut c: usize = 0;
        while c < size
            invariant
                c <= size,
                table@.len() == c,
                forall|x: int| 0 <= x < c ==> table@[x] == 0,
            decreases size - c,
        {
            table.push(0);
            c = c + 1;
        }
        let r = TwoD { table, rows: n, cols: logn };
        proof {
            assert forall|i: int, k: int| 0 <= i < n && 0 <= k < logn implies r@[i][k] == 0 by {
                lemma_cell(n as int, logn as int, i, k, i, k);
            }
        }
        r
    }

    /// The entry in row `i`, column `k`.
    pub fn get(&self, i: usize, k: Pow) -> (r: usize)
        requires
            self.wf(),
            i < self@.len(),
            k.0 < self.width(),
        ensures
            r == self@[i as int][k.0 as int],
    {
        proof {
            lemma_cell(self.rows as int, self.cols as int, i as int, k.0 as int, i as int, k.0 as int);
        }
        self.table[i * self.cols + k.0]
    }

    /// Writes `v` into row `i`, column `k`.
    pub fn set(&mut self, i: usize, k: Pow, v: usize)
        requires
            old(self).wf(),
            i < old(self)@.len(),
            k.0 < old(self).width(),
        ensures
            final(self)@ == old(self)@.update(i as int, old(self)@[i as int].update(k.0 as int, v)),
            final(self).width() == old(self).width(),
            final(self).wf(),
    {
        proof {
            lemma_cell(self.rows as int, self.cols as int, i as int, k.0 as int, i as int, k.0 as int);
        }
        let pos = i * self.cols + k.0;
        self.table.set(pos, v);
        proof {
            let rows = self.rows as int;
            let cols = self.cols as int;
            assert forall|a: int| 0 <= a < rows implies #[trigger] self@[a] =~= old(self)@.update(
                i as int,
                old(self)@[i as int].update(k.0 as int, v),
            )[a] by {
                assert forall|b: int| 0 <= b < cols implies self@[a][b] == old(self)@.update(
                    i as int,
                    old(self)@[i as int].update(k.0 as int, v),
                )[a][b] by {
                    lemma_cell(rows, cols, a, b, i as int, k.0 as int);
                }
            }
            assert(self@ =~= old(self)@.update(i as int, old(self)@[i as int].update(k.0 as int, v)));
        }
    }
}

} // verus!

verus! {

/// A choice of the smaller of two values.
pub trait Min: Sized {
    /// Which of the two is the smaller.
    spec fn spec_min(a: Self, b: Self) -> Self;

    fn min(a: Self, b: Self) -> (r: Self)
        ensures
            r == Self::spec_min(a, b),
    ;
}

/// The smaller of `a` and `b`.
pub fn min<T: Min>(a: T, b: T) -> (r: T)
    ensures
        r == T::spec_min(a, b),
{
    T::min(a, b)
}

/// The smallest of `a`, `b` and `c`.
pub fn min3<T: Min>(a: T, b: T, c: T) -> (r: T)
    ensures
        r == T::spec_min(T::spec_min(a, b), c),
{
    min(min(a, b), c)
}

/// A missing value loses to any present one.
impl<T: Min + Copy> Min for Option<T> {
    open spec fn spec_min(a: Self, b: Self) -> Self {
        match (a, b) {
            (Some(x), Some(y)) => Some(T::spec_min(x, y)),
            (Some(_), None) => a,
            (None, _) => b,
        }
    }

    fn min(a: Self, b: Self) -> (r: Self) {
        match (a, b) {
            (Some(x), Some(y)) => Some(T::min(x, y)),
            (Some(_), None) => a,
            (None, _) => b,
        }
    }
}

/// An index together with the value found there.
#[derive(Clone, Copy, Debug, PartialEq, Eq, Structural)]
pub struct Point(pub Idx, pub u32);

impl Point {
    pub fn idx(&self) -> (r: Idx)
        ensures
            r == self.0,
    {
        self.0
    }

    pub fn val(&self) -> (r: u32)
        ensures
            r == self.1,
    {
        self.1
    }

    /// The point at index `i` of `x`.
    pub fn new(i: Idx, x: &[u32]) -> (r: Point)
        requires
            i.0 < x@.len(),
        ensures
            r == Point(i, x@[i.0 as int]),
    {
        Point(i, x[i.0])
    }
}

/// Of two points, the lesser value wins; on a tie, the smaller index.
pub open spec fn pick(a: Point, b: Point) -> Point {
    if a.1 <= b.1 {
        a
    } else {
        b
    }
}

impl Min for Point {
    open spec fn spec_min(a: Point, b: Point) -> Point {
        if a.0.0 > b.0.0 {
            pick(b, a)
        } else {
            pick(a, b)
        }
    }

    fn min(p1: Point, p2: Point) -> (r: Point) {
        let (a, b) = if p1.idx().0 > p2.idx().0 {
            (p2, p1)
        } else {
            (p1, p2)
        };
        if a.val() <= b.val() {
            a
        } else {
            b
        }
    }
}

/// `m` is the left-most position of a smallest value of `s` in `[lo, hi)`.
pub open spec fn is_leftmost_min(s: Seq<u32>, lo: int, hi: int, m: int) -> bool {
    &&& lo <= m < hi
    &&& forall|l: int| lo <= l < m ==> #[trigger] s[l] > s[m]
    &&& forall|l: int| m <= l < hi ==> #[trigger] s[l] >= s[m]
}

/// The left-most minima of two ranges that overlap or touch give the left-most
/// minimum of their union.
pub proof fn lemma_combine(s: Seq<u32>, lo1: int, hi1: int, lo2: int, hi2: int, a: int, b: int)
    requires
        lo1 <= lo2 <= hi1 <= hi2,
        0 <= lo1,
        hi2 <= s.len(),
        hi2 <= usize::MAX,
        is_leftmost_min(s, lo1, hi1, a),
        is_leftmost_min(s, lo2, hi2, b),
    ensures
        is_leftmost_min(
            s,
            lo1,
            hi2,
            Point::spec_min(Point(Idx(a as usize), s[a]), Point(Idx(b as usize), s[b])).0.0 as int,
        ),
{
    let pa = Point(Idx(a as usize), s[a]);
    let pb = Point(Idx(b as usize), s[b]);
    let m = Point::spec_min(pa, pb).0.0 as int;
    if b < a {
        assert(lo1 <= b < a);
        assert(s[b] > s[a]);
        assert(m == a);
    }
    assert forall|l: int| lo1 <= l < m implies #[trigger] s[l] > s[m] by {
        if m == a {
            if a <= b {
                assert(s[a] <= s[b]);
            }
        } else {
            if l >= hi1 {
                assert(lo2 <= l);
            } else {
                assert(s[l] >= s[a]);
            }
        }
    }
    assert forall|l: int| m <= l < hi2 implies #[trigger] s[l] >= s[m] by {
        if m == a {
            if l >= hi1 {
                assert(s[l] >= s[b]);
            }
        }
    }
}

/// A table of the left-most minima of every range `[i, i + 2^k)`, from which
/// the minimum of any range `[i, j)` is read in constant time: `[i, j)` is
/// covered by `[i, i + 2^k)` and `[j - 2^k, j)` for the largest `2^k` that
/// fits, and the smaller of their two minima is the answer.
pub struct PowerRMQImpl {
    lcp: Vec<u32>,
    tbl: TwoD,
}

impl PowerRMQImpl {
    /// Row `i`, column `k` of `tbl` holds the left-most minimum of
    /// `[i, i + 2^k)` wherever that range lies within `lcp`.
    pub closed spec fn wf(&self) -> bool {
        let n = self.lcp@.len();
        &&& n > 0
        &&& self.tbl.wf()
        &&& self.tbl@.len() == n
        &&& self.tbl.width() == floor_log2(n) + 1
        &&& forall|i: int, k: int|
            0 <= i < n && 0 <= k < self.tbl.width() ==> #[trigger] self.tbl@[i][k] < n
        &&& forall|i: int, k: int|
            0 <= i && 0 <= k < self.tbl.width() && i + exp2(k as nat) <= n ==> is_leftmost_min(
                self.lcp@,
                i,
                i + exp2(k as nat),
                #[trigger] self.tbl@[i][k] as int,
            )
    }

    pub closed spec fn values(&self) -> Seq<u32> {
        self.lcp@
    }

    fn point(&self, i: Idx) -> (r: Point)
        requires
            i.0 < self.lcp@.len(),
        ensures
            r == Point(i, self.lcp@[i.0 as int]),
    {
        Point(i, self.lcp[i.0])
    }

    /// Builds the table for `lcp`, doubling the range length at each level.
    pub fn new(lcp: Vec<u32>) -> (r: PowerRMQImpl)
        requires
            lcp@.len() > 0,
            lcp@.len() * (floor_log2(lcp@.len()) + 1) <= usize::MAX,
        ensures
            r.wf(),
            r.values() == lcp@,
    {
        let n = lcp.len();
        let Pow(logn) = log_table_size(n);
        let mut tbl = TwoD::new(n);
        proof {
            lemma_floor_log2(n as nat);
            lemma_log_unique(n as int, (logn - 1) as nat, floor_log2(n as nat));
        }
        let mut i: usize = 0;
        while i < n
            invariant
                n == lcp@.len(),
                0 < logn,
                tbl.wf(),
                tbl@.len() == n,
                tbl.width() == logn,
                0 <= i <= n,
                forall|a: int, k: int| 0 <= a < n && 0 <= k < logn ==> #[trigger] tbl@[a][k] < n,
                forall|a: int| 0 <= a < i ==> #[trigger] tbl@[a][0] == a,
            decreases n - i,
        {
            tbl.set(i, Pow(0), i);
            i = i + 1;
        }
        assert forall|a: int| 0 <= a && a + exp2(0) <= n implies is_leftmost_min(
            lcp@,
            a,
            a + exp2(0),
            #[trigger] tbl@[a][0] as int,
        ) by {
            assert(tbl@[a][0] == a);
        }
        let mut k: usize = 1;
        while k < logn
            invariant
                n == lcp@.len(),
                exp2((logn - 1) as nat) <= n < exp2(logn as nat),
                0 < logn,
                tbl.wf(),
                tbl@.len() == n,
                tbl.width() == logn,
                1 <= k <= logn,
                forall|a: int, c: int| 0 <= a < n && 0 <= c < logn ==> #[trigger] tbl@[a][c] < n,
                forall|a: int, c: int|
                    0 <= a && 0 <= c < k && a + exp2(c as nat) <= n ==> is_leftmost_min(
                        lcp@,
                        a,
                        a + exp2(c as nat),
                        #[trigger] tbl@[a][c] as int,
                    ),
            decreases logn - k,
        {
            proof {
                lemma_exp2_mono(k as nat, (logn - 1) as nat);
                lemma_exp2_mono((k - 1) as nat, k as nat);
            }
            let h = Pow(k - 1).value();
            assert(exp2(k as nat) == 2 * h);
            proof {
                lemma_exp2_pos((k - 1) as nat);
            }
            let mut i: usize = 0;
            while i <= n - 2 * h
                invariant
                    n == lcp@.len(),
                    0 < logn,
                    tbl.wf(),
                    tbl@.len() == n,
                    tbl.width() == logn,
                    1 <= k < logn,
                    h == exp2((k - 1) as nat),
                    exp2(k as nat) == 2 * h,
                    1 <= h,
                    2 * h <= n,
                    forall|a: int, c: int|
                        0 <= a < n && 0 <= c < logn ==> #[trigger] tbl@[a][c] < n,
                    forall|a: int, c: int|
                        0 <= a && 0 <= c < k && a + exp2(c as nat) <= n ==> is_leftmost_min(
                            lcp@,
                            a,
                            a + exp2(c as nat),
                            #[trigger] tbl@[a][c] as int,
                        ),
                    forall|a: int|
                        0 <= a < i && a + exp2(k as nat) <= n ==> is_leftmost_min(
                            lcp@,
                            a,
                            a + exp2(k as nat),
                            #[trigger] tbl@[a][k as int] as int,
                        ),
                decreases n - i,
            {
                let left = Point::new(Idx(tbl.get(i, Pow(k - 1))), lcp.as_slice());
                let right = Point::new(Idx(tbl.get(i + h, Pow(k - 1))), lcp.as_slice());
                let m = min(left, right);
                proof {
                    let ia = i as int;
                    let hh = h as int;
                    assert(is_leftmost_min(lcp@, ia, ia + hh, tbl@[ia][k - 1] as int));
                    assert(is_leftmost_min(lcp@, ia + hh, ia + 2 * hh, tbl@[ia + hh][k - 1] as int));
                    lemma_combine(
                        lcp@,
                        ia,
                        ia + hh,
                        ia + hh,
                        ia + 2 * hh,
                        tbl@[ia][k - 1] as int,
                        tbl@[ia + hh][k - 1] as int,
                    );
                }
                let ghost before = tbl@;
                tbl.set(i, Pow(k), m.0.0);
                proof {
                    assert forall|a: int, c: int|
                        0 <= a && 0 <= c < k && a + exp2(c as nat) <= n implies is_leftmost_min(
                        lcp@,
                        a,
                        a + exp2(c as nat),
                        #[trigger] tbl@[a][c] as int,
                    ) by {
                        assert(tbl@[a][c] == before[a][c]);
                    }
                    assert forall|a: int|
                        0 <= a < i + 1 && a + exp2(k as nat) <= n implies is_leftmost_min(
                        lcp@,
                        a,
                        a + exp2(k as nat),
                        #[trigger] tbl@[a][k as int] as int,
                    ) by {
                        if a < i {
                            assert(tbl@[a][k as int] == before[a][k as int]);
                        }
                    }
                }
                i = i + 1;
            }
            proof {
                assert forall|a: int, c: int|
                    0 <= a && 0 <= c < k + 1 && a + exp2(c as nat) <= n implies is_leftmost_min(
                    lcp@,
                    a,
                    a + exp2(c as nat),
                    #[trigger] tbl@[a][c] as int,
                ) by {
                    if c == k {
                        assert(a < i);
                    }
                }
            }
            k = k + 1;
        }
        PowerRMQImpl { lcp, tbl }
    }

    /// The number of values.
    pub fn len(&self) -> (r: usize)
        ensures
            r == self.values().len(),
    {
        self.lcp.len()
    }

    /// The left-most smallest value in `[i, j)`, with its index.
    pub fn rmq(&self, i: usize, j: usize) -> (r: Point)
        requires
            self.wf(),
            i < j <= self.values().len(),
        ensures
            is_leftmost_min(self.values(), i as int, j as int, r.0.0 as int),
            r.1 == self.values()[r.0.0 as int],
    {
        let (p, ii) = adjusted_index(i, j);
        proof {
            let n = self.lcp@.len();
            lemma_floor_log2(n);
            if p.0 >= self.tbl.width() {
                lemma_exp2_mono(floor_log2(n) + 1, p.0 as nat);
            }
        }
        let a = self.tbl.get(i, p);
        let b = self.tbl.get(ii, p);
        proof {
            lemma_combine(self.lcp@, i as int, i + exp2(p.0 as nat), ii as int, j as int, a as int, b as int);
        }
        min(self.point(Idx(a)), self.point(Idx(b)))
    }
}

/// The left-most smallest value of `x` in the interval `ij`, with its index;
/// `None` for an empty interval.
pub fn smallest_in_range(x: &[u32], ij: Interval) -> (r: Option<Point>)
    requires
        ij@.1 <= x@.len(),
    ensures
        r is None <==> ij@.0 == ij@.1,
        r matches Some(p) ==> is_leftmost_min(x@, ij@.0, ij@.1, p.0.0 as int) && p.1 == x@[p.0.0 as int],
{
    match ij.cases2() {
        Cases2::Empty => None,
        Cases2::Range(Idx(i), Idx(j)) => {
            let mut pos: usize = i;
            let mut k: usize = i + 1;
            while k < j
                invariant
                    i < j <= x@.len(),
                    i < k <= j,
                    is_leftmost_min(x@, i as int, k as int, pos as int),
                decreases j - k,
            {
                if x[k] < x[pos] {
                    pos = k;
                }
                k = k + 1;
            }
            Some(Point(Idx(pos), x[pos]))
        },
    }
}

} // verus!

verus! {

/// Exponents are ordered as numbers.
impl PartialOrd for Pow {
    fn partial_cmp(&self, other: &Pow) -> (r: Option<core::cmp::Ordering>) {
        if self.0 < other.0 {
            Some(core::cmp::Ordering::Less)
        } else if self.0 == other.0 {
            Some(core::cmp::Ordering::Equal)
        } else {
            Some(core::cmp::Ordering::Greater)
        }
    }
}

impl vstd::std_specs::cmp::PartialOrdSpecImpl for Pow {
    open spec fn obeys_partial_cmp_spec() -> bool {
        true
    }

    open spec fn partial_cmp_spec(&self, other: &Pow) -> Option<core::cmp::Ordering> {
        if self.0 < other.0 {
            Some(core::cmp::Ordering::Less)
        } else if self.0 == other.0 {
            Some(core::cmp::Ordering::Equal)
        } else {
            Some(core::cmp::Ordering::Greater)
        }
    }
}

/// Block indices are ordered as numbers.
impl PartialOrd for BlockIdx {
    fn partial_cmp(&self, other: &BlockIdx) -> (r: Option<core::cmp::Ordering>) {
        if self.0 < other.0 {
            Some(core::cmp::Ordering::Less)
        } else if self.0 == other.0 {
            Some(core::cmp::Ordering::Equal)
        } else {
            Some(core::cmp::Ordering::Greater)
        }
    }
}

impl vstd::std_specs::cmp::PartialOrdSpecImpl for BlockIdx {
    open spec fn obeys_partial_cmp_spec() -> bool {
        true
    }

    open spec fn partial_cmp_spec(&self, other: &BlockIdx) -> Option<core::cmp::Ordering> {
        if self.0 < other.0 {
            Some(core::cmp::Ordering::Less)
        } else if self.0 == other.0 {
            Some(core::cmp::Ordering::Equal)
        } else {
            Some(core::cmp::Ordering::Greater)
        }
    }
}

} // verus!

verus! {

use crate::text::{decimal, decimal_text};

impl Pow {
    /// The power written out as `2^k`.
    pub fn to_string(&self) -> (r: String)
        ensures
            r@ == "2^"@ + decimal(self.0 as int),
    {
        String::from_str("2^").concat(decimal_text(self.0 as i128).as_str())
    }
}

impl BlockIdx {
    /// The block index written out as `[k]`.
    pub fn to_string(&self) -> (r: String)
        ensures
            r@ == "["@ + decimal(self.0 as int) + "]"@,
    {
        String::from_str("[").concat(decimal_text(self.0 as i128).as_str()).concat("]")
    }
}

impl Point {
    /// The point written out as `Point(i,v)`.
    pub fn to_string(&self) -> (r: String)
        ensures
            r@ == "Point("@ + decimal(self.0.0 as int) + ","@ + decimal(self.1 as int) + ")"@,
    {
        let s = String::from_str("Point(").concat(decimal_text(self.0.0 as i128).as_str());
        let s = s.concat(",");
        let s = s.concat(decimal_text(self.1 as i128).as_str());
        s.concat(")")
    }
}

} // verus!

verus! {

/// A row written out: each entry followed by a blank.
pub open spec fn row_text(row: Seq<usize>) -> Seq<char>
    decreases row.len(),
{
    if row.len() == 0 {
        Seq::empty()
    } else {
        row_text(row.drop_last()) + decimal(row.last() as int) + " "@
    }
}

/// A table written out: each row followed by a line break.
pub open spec fn table_text(rows: Seq<Seq<usize>>) -> Seq<char>
    decreases rows.len(),
{
    if rows.len() == 0 {
        Seq::empty()
    } else {
        table_text(rows.drop_last()) + row_text(rows.last()) + "\n"@
    }
}

impl TwoD {
    /// The table written out row by row.
    pub fn to_string(&self) -> (r: String)
        requires
            self.wf(),
        ensures
            r@ == table_text(self@),
    {
        let mut s = String::new();
        let mut i: usize = 0;
        assert(self@.take(0) =~= Seq::<Seq<usize>>::empty());
        while i < self.rows
            invariant
                self.wf(),
                i <= self.rows,
                s@ == table_text(self@.take(i as int)),
            decreases self.rows - i,
        {
            let mut k: usize = 0;
            let ghost before = s@;
            assert(self@[i as int].take(0) =~= Seq::<usize>::empty());
            assert(before + row_text(self@[i as int].take(0)) =~= before);
            while k < self.cols
                invariant
                    self.wf(),
                    i < self.rows,
                    k <= self.cols,
                    s@ == before + row_text(self@[i as int].take(k as int)),
                decreases self.cols - k,
            {
                let v = self.get(i, Pow(k));
                s = s.concat(decimal_text(v as i128).as_str());
                s = s.concat(" ");
                assert(self@[i as int].take(k + 1).drop_last() =~= self@[i as int].take(k as int));
                k = k + 1;
            }
            s = s.concat("\n");
            assert(self@[i as int].take(self.cols as int) =~= self@[i as int]);
            assert(self@.take(i + 1).drop_last() =~= self@.take(i as int));
            i = i + 1;
        }
        assert(self@.take(self.rows as int) =~= self@);
        s
    }
}

} // verus!
