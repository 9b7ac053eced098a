use vstd::arithmetic::div_mod::{lemma_add_mod_noop_right, lemma_mod_self_0, lemma_small_mod};
use vstd::prelude::*;

verus! {

/// True when `v` needs at most `n` bits.
pub open spec fn fits(v: u64, n: nat) -> bool {
    n >= 64 || (v >> (n as u64)) == 0
}

/// Bit `i` (1-indexed, most significant first) of the `n`-bit string held in `v`.
pub open spec fn bit_at(v: u64, n: nat, i: nat) -> bool {
    ((v >> ((n - i) as u64)) & 1) == 1
}

/// The `n`-bit string held in `v`, most significant bit first.
pub open spec fn bit_seq(v: u64, n: nat) -> Seq<bool> {
    Seq::new(n, |k: int| bit_at(v, n, (k + 1) as nat))
}

/// The `table.len()`-bit string whose bit `k + 1` is bit `table[k]` of `s`.
pub open spec fn permuted(s: Seq<bool>, table: Seq<u8>) -> Seq<bool> {
    Seq::new(table.len(), |k: int| s[table[k] - 1])
}

/// Every entry of `table` is a position of an `n`-bit string.
pub open spec fn valid_table(table: Seq<u8>, n: nat) -> bool {
    forall|k: int| 0 <= k < table.len() ==> 1 <= #[trigger] table[k] <= n
}

proof fn lemma_set_bit(v: u64, s: u64, t: u64)
    by (bit_vector)
    requires
        s < 64,
        t < 64,
    ensures
        ((v | (1u64 << s)) >> t) & 1 == (if t == s { 1u64 } else { (v >> t) & 1 }),
        ((v & !(1u64 << s)) >> t) & 1 == (if t == s { 0u64 } else { (v >> t) & 1 }),
{
}

proof fn lemma_set_fits(v: u64, s: u64, n: u64)
    by (bit_vector)
    requires
        s < n,
        n < 64,
        v >> n == 0,
    ensures
        (v | (1u64 << s)) >> n == 0,
        (v & !(1u64 << s)) >> n == 0,
{
}

/// `s` rotated left by `n` places: bit `k` of the result is bit `(k + n) % len` of `s`.
pub open spec fn rotated(s: Seq<bool>, n: nat) -> Seq<bool> {
    Seq::new(s.len(), |k: int| s[(k + n) % (s.len() as int)])
}

/// Parity of the bitwise AND of the first `k` bits of `a` and `b`.
pub open spec fn dot_upto(a: Seq<bool>, b: Seq<bool>, k: nat) -> bool
    decreases k,
{
    if k == 0 {
        false
    } else {
        dot_upto(a, b, (k - 1) as nat) != (a[k - 1] && b[k - 1])
    }
}

/// Parity of the bitwise AND of two equally long bit strings.
pub open spec fn dot(a: Seq<bool>, b: Seq<bool>) -> bool {
    dot_upto(a, b, a.len())
}

/// Bitwise XOR of two equally long bit strings.
pub open spec fn xor_seq(a: Seq<bool>, b: Seq<bool>) -> Seq<bool> {
    Seq::new(a.len(), |k: int| a[k] != b[k])
}

proof fn lemma_shift_step(a: u64, b: u64, s: u64)
    by (bit_vector)
    requires
        1 <= s < 64,
        a >> s == b >> s,
        (a >> ((s - 1) as u64)) & 1 == (b >> ((s - 1) as u64)) & 1,
    ensures
        a >> ((s - 1) as u64) == b >> ((s - 1) as u64),
{
}

pub(crate) proof fn lemma_bit_is_01(a: u64, p: u64)
    by (bit_vector)
    ensures
        (a >> p) & 1 == 0 || (a >> p) & 1 == 1,
        a >> 63 == (a >> 63) & 1,
        a >> 0 == a,
{
}

/// Equal bits at every position below `n` and equal bits from `s` upward give
/// equal bits from `s` downward to zero.
proof fn lemma_low_bits_agree(a: u64, b: u64, n: nat, s: u64)
    requires
        s <= n <= 64,
        s < 64,
        a >> s == b >> s,
        forall|k: int| 0 <= k < n ==> #[trigger] bit_seq(a, n)[k] == bit_seq(b, n)[k],
    ensures
        a == b,
    decreases s,
{
    if s == 0 {
        lemma_bit_is_01(a, 0);
        lemma_bit_is_01(b, 0);
    } else {
        let p = (s - 1) as u64;
        let k = n - 1 - p;
        assert(bit_seq(a, n)[k] == bit_at(a, n, (k + 1) as nat));
        assert(bit_seq(b, n)[k] == bit_at(b, n, (k + 1) as nat));
        lemma_bit_is_01(a, p);
        lemma_bit_is_01(b, p);
        lemma_shift_step(a, b, s);
        lemma_low_bits_agree(a, b, n, p);
    }
}

/// Two `n`-bit values with the same bit string are equal.
proof fn lemma_bit_seq_injective(a: u64, b: u64, n: nat)
    requires
        1 <= n <= 64,
        fits(a, n),
        fits(b, n),
        bit_seq(a, n) == bit_seq(b, n),
    ensures
        a == b,
{
    if n == 64 {
        assert(bit_seq(a, n)[0] == bit_at(a, n, 1));
        assert(bit_seq(b, n)[0] == bit_at(b, n, 1));
        lemma_bit_is_01(a, 63);
        lemma_bit_is_01(b, 63);
        lemma_low_bits_agree(a, b, n, 63);
    } else {
        lemma_low_bits_agree(a, b, n, n as u64);
    }
}

proof fn lemma_range_bits(v: u64, lo: u64, w: u64, t: u64)
    by (bit_vector)
    requires
        1 <= w,
        lo + w <= 64,
        t < w,
    ensures
        (((v & (0xffff_ffff_ffff_ffffu64 >> ((64 - (lo + w)) as u64))) >> lo) >> t) & 1
            == (v >> ((lo + t) as u64)) & 1,
        w < 64 ==> ((v & (0xffff_ffff_ffff_ffffu64 >> ((64 - (lo + w)) as u64))) >> lo) >> w == 0,
{
}

proof fn lemma_high_bits(v: u64, lo: u64, w: u64, t: u64)
    by (bit_vector)
    requires
        1 <= w,
        1 <= lo,
        lo + w <= 64,
        lo + w == 64 || v >> ((lo + w) as u64) == 0,
        t < w,
    ensures
        ((v >> lo) >> t) & 1 == (v >> ((lo + t) as u64)) & 1,
        w < 64 ==> (v >> lo) >> w == 0,
{
}

proof fn lemma_concat_bits(v: u64, u: u64, n: u64, m: u64, t: u64)
    by (bit_vector)
    requires
        1 <= n,
        1 <= m,
        n + m <= 64,
        v >> n == 0 || n == 64,
        u >> m == 0 || m == 64,
        t < n + m,
    ensures
        t < m ==> (((v << m) | u) >> t) & 1 == (u >> t) & 1,
        t >= m ==> (((v << m) | u) >> t) & 1 == (v >> ((t - m) as u64)) & 1,
        n + m < 64 ==> ((v << m) | u) >> ((n + m) as u64) == 0,
{
}

proof fn lemma_mask_or_bit(x: u64, y: u64, n: u64, p: u64)
    by (bit_vector)
    requires
        p < n <= 64,
    ensures
        (((x | y) & (0xffff_ffff_ffff_ffffu64 >> ((64 - n) as u64))) >> p) & 1
            == ((x >> p) & 1) | ((y >> p) & 1),
        n < 64 ==> ((x | y) & (0xffff_ffff_ffff_ffffu64 >> ((64 - n) as u64))) >> n == 0,
{
}

proof fn lemma_shl_bit(v: u64, m: u64, p: u64)
    by (bit_vector)
    requires
        m < 64,
        p < 64,
    ensures
        p >= m ==> ((v << m) >> p) & 1 == (v >> ((p - m) as u64)) & 1,
        p < m ==> ((v << m) >> p) & 1 == 0,
{
}

proof fn lemma_shr_bit(v: u64, q: u64, p: u64)
    by (bit_vector)
    requires
        q < 64,
        p < 64,
    ensures
        p + q < 64 ==> ((v >> q) >> p) & 1 == (v >> ((p + q) as u64)) & 1,
        p + q >= 64 ==> ((v >> q) >> p) & 1 == 0,
{
}

proof fn lemma_above_width(v: u64, n: u64, q: u64)
    by (bit_vector)
    requires
        n <= q < 64,
        v >> n == 0,
    ensures
        (v >> q) & 1 == 0,
{
}

proof fn lemma_or_zero(a: u64)
    by (bit_vector)
    requires
        a == 0 || a == 1,
    ensures
        a | 0 == a,
        0 | a == a,
{
}

proof fn lemma_rotate_bits(v: u64, n: u64, m: u64, p: u64)
    requires
        0 < m < n <= 64,
        n == 64 || v >> n == 0,
        p < n,
    ensures
        ((((v << m) | (v >> ((n - m) as u64))) & (0xffff_ffff_ffff_ffffu64 >> ((64 - n) as u64)))
            >> p) & 1 == (if p >= m {
            (v >> ((p - m) as u64)) & 1
        } else {
            (v >> ((p + n - m) as u64)) & 1
        }),
        n < 64 ==> (((v << m) | (v >> ((n - m) as u64))) & (0xffff_ffff_ffff_ffffu64 >> ((64
            - n) as u64))) >> n == 0,
{
    let x = v << m;
    let y = v >> ((n - m) as u64);
    lemma_mask_or_bit(x, y, n, p);
    lemma_shl_bit(v, m, p);
    lemma_shr_bit(v, (n - m) as u64, p);
    if p >= m {
        if p + n - m < 64 {
            lemma_above_width(v, n, (p + n - m) as u64);
        }
        lemma_bit_is_01(v, (p - m) as u64);
        lemma_or_zero((v >> ((p - m) as u64)) & 1);
    } else {
        lemma_bit_is_01(v, (p + n - m) as u64);
        lemma_or_zero((v >> ((p + n - m) as u64)) & 1);
    }
}

proof fn lemma_xor_bits(v: u64, u: u64, n: u64, t: u64)
    by (bit_vector)
    requires
        n <= 64,
        n == 64 || (v >> n == 0 && u >> n == 0),
        t < 64,
    ensures
        ((v ^ u) >> t) & 1 == (if (v >> t) & 1 == (u >> t) & 1 { 0u64 } else { 1u64 }),
        n < 64 ==> (v ^ u) >> n == 0,
{
}

/// Why a bit array could not be built.
#[derive(Clone, Copy, PartialEq, Eq, Debug)]
pub enum BitsError {
    /// The value needs more bits than the array holds.
    WidthViolation,
}

/// A string of exactly `N` bits, kept in the low bits of a `u64`.
#[derive(Clone, Copy, PartialEq, Eq, Debug)]
pub struct Bits<const N: usize> {
    inner: u64,
}

impl<const N: usize> View for Bits<N> {
    type V = Seq<bool>;

    open spec fn view(&self) -> Seq<bool> {
        bit_seq(self.value(), N as nat)
    }
}

impl<const N: usize> Bits<N> {
    /// The backing integer.
    pub closed spec fn value(self) -> u64 {
        self.inner
    }

    /// The width is between 1 and 64 and the stored value fits in it.
    pub open spec fn wf(self) -> bool {
        1 <= N <= 64 && fits(self.value(), N as nat)
    }

    /// New bit array with the given value, which must fit in `N` bits.
    pub fn new(inner: u64) -> (r: Bits<N>)
        requires
            1 <= N <= 64,
            fits(inner, N as nat),
        ensures
            r.wf(),
            r.value() == inner,
    {
        Bits { inner }
    }

    /// New bit array with the given value, or `WidthViolation` when the value
    /// needs more than `N` bits.
    pub fn try_new(inner: u64) -> (r: Result<Bits<N>, BitsError>)
        requires
            1 <= N <= 64,
        ensures
            r is Ok <==> fits(inner, N as nat),
            r is Ok ==> r->Ok_0.wf() && r->Ok_0.value() == inner,
            r is Err ==> r->Err_0 == BitsError::WidthViolation,
    {
        if N >= 64 || (inner >> (N as u64)) == 0 {
            Ok(Bits { inner })
        } else {
            Err(BitsError::WidthViolation)
        }
    }

    /// The backing integer.
    pub fn as_u64(self) -> (r: u64)
        ensures
            r == self.value(),
    {
        self.inner
    }

    /// Amount of bits.
    pub fn len(self) -> (r: usize)
        ensures
            r == N,
    {
        N
    }

    /// Bits `from` to `to` (1-indexed, both included) as a new array of
    /// `LEN == to - from + 1` bits.
    pub fn range<const LEN: usize>(self, from: usize, to: usize) -> (r: Bits<LEN>)
        requires
            self.wf(),
            0 < from < to <= N,
            to - from + 1 == LEN,
        ensures
            r.wf(),
            r@ == self@.subrange(from - 1, to as int),
    {
        let v = self.inner;
        let lo: u64 = (N - to) as u64;
        let w: u64 = LEN as u64;
        let inner = (v & (u64::MAX >> (64 - (N - from + 1)) as u64)) >> lo;
        proof {
            assert forall|k: int| 0 <= k < LEN implies #[trigger] bit_seq(inner, LEN as nat)[k]
                == self@.subrange(from - 1, to as int)[k] by {
                lemma_range_bits(v, lo, w, (LEN - 1 - k) as u64);
            }
            assert(bit_seq(inner, LEN as nat) =~= self@.subrange(from - 1, to as int));
            if LEN < 64 {
                lemma_range_bits(v, lo, w, 0);
            }
        }
        Bits { inner }
    }

    /// Bits `FROM` to `TO` (1-indexed, both included), with the positions
    /// known at compile time.
    pub fn const_range<const FROM: usize, const TO: usize, const LEN: usize>(self) -> (r: Bits<LEN>)
        requires
            self.wf(),
            0 < FROM < TO <= N,
            TO - FROM + 1 == LEN,
        ensures
            r.wf(),
            r@ == self@.subrange(FROM - 1, TO as int),
    {
        self.range::<LEN>(FROM, TO)
    }

    /// Splits into the high `M` bits and the low `K` bits.
    pub fn split<const M: usize, const K: usize>(self) -> (r: (Bits<M>, Bits<K>))
        requires
            self.wf(),
            1 <= M,
            1 <= K,
            M + K == N,
        ensures
            r.0.wf(),
            r.1.wf(),
            r.0@ == self@.subrange(0, M as int),
            r.1@ == self@.subrange(M as int, N as int),
    {
        let v = self.inner;
        let k: u64 = K as u64;
        let m: u64 = M as u64;
        let lhs = v >> k;
        let rhs = v & (u64::MAX >> (64 - K) as u64);
        proof {
            assert forall|j: int| 0 <= j < M implies #[trigger] bit_seq(lhs, M as nat)[j]
                == self@.subrange(0, M as int)[j] by {
                lemma_high_bits(v, k, m, (M - 1 - j) as u64);
            }
            assert(bit_seq(lhs, M as nat) =~= self@.subrange(0, M as int));
            lemma_high_bits(v, k, m, 0);
            lemma_bit_is_01(rhs, 0);
            assert forall|j: int| 0 <= j < K implies #[trigger] bit_seq(rhs, K as nat)[j]
                == self@.subrange(M as int, N as int)[j] by {
                lemma_range_bits(v, 0, k, (K - 1 - j) as u64);
            }
            assert(bit_seq(rhs, K as nat) =~= self@.subrange(M as int, N as int));
            lemma_range_bits(v, 0, k, 0);
        }
        (Bits { inner: lhs }, Bits { inner: rhs })
    }

    /// Concatenates two bit arrays, `self` in the high bits.
    pub fn concat<const M: usize, const K: usize>(self, other: Bits<M>) -> (r: Bits<K>)
        requires
            self.wf(),
            other.wf(),
            K == N + M,
            K <= 64,
        ensures
            r.wf(),
            r@ == self@ + other@,
    {
        let v = self.inner;
        let u = other.inner;
        let m: u64 = M as u64;
        let n: u64 = N as u64;
        let inner = (v << m) | u;
        proof {
            assert forall|j: int| 0 <= j < K implies #[trigger] bit_seq(inner, K as nat)[j]
                == (self@ + other@)[j] by {
                lemma_concat_bits(v, u, n, m, (K - 1 - j) as u64);
            }
            assert(bit_seq(inner, K as nat) =~= self@ + other@);
            lemma_concat_bits(v, u, n, m, 0);
        }
        Bits { inner }
    }

    /// Rotates the bits to the left within the array's own width.
    pub fn rotate_left(self, n: usize) -> (r: Self)
        requires
            self.wf(),
        ensures
            r.wf(),
            r@ == rotated(self@, n as nat),
    {
        let m: usize = n % N;
        if m == 0 {
            proof {
                assert forall|k: int| 0 <= k < N implies #[trigger] rotated(self@, n as nat)[k]
                    == self@[k] by {
                    lemma_add_mod_noop_right(k, n as int, N as int);
                    lemma_small_mod(k as nat, N as nat);
                }
                assert(rotated(self@, n as nat) =~= self@);
            }
            return self;
        }
        let v = self.inner;
        let w: u64 = N as u64;
        let s: u64 = m as u64;
        let inner = ((v << s) | (v >> (w - s))) & (u64::MAX >> (64 - w));
        proof {
            assert forall|k: int| 0 <= k < N implies #[trigger] bit_seq(inner, N as nat)[k]
                == rotated(self@, n as nat)[k] by {
                let p = (N - 1 - k) as u64;
                lemma_rotate_bits(v, w, s, p);
                lemma_add_mod_noop_right(k, n as int, N as int);
                if k + m < N {
                    lemma_small_mod((k + m) as nat, N as nat);
                } else {
                    lemma_small_mod((k + m - N) as nat, N as nat);
                    lemma_add_mod_noop_right(k + m - N, N as int, N as int);
                    lemma_mod_self_0(N as int);
                }
            }
            assert(bit_seq(inner, N as nat) =~= rotated(self@, n as nat));
            lemma_rotate_bits(v, w, s, 0);
        }
        Bits { inner }
    }

    /// Parity of the bitwise AND of two arrays of the same width.
    pub fn dot_product(self, other: Bits<N>) -> (r: bool)
        requires
            self.wf(),
            other.wf(),
        ensures
            r == dot(self@, other@),
    {
        let mut acc = false;
        let mut i: usize = 0;
        while i < N
            invariant
                self.wf(),
                other.wf(),
                0 <= i <= N,
                acc == dot_upto(self@, other@, i as nat),
            decreases N - i,
        {
            let a = self.get(i + 1);
            let b = other.get(i + 1);
            acc = acc != (a && b);
            i = i + 1;
        }
        acc
    }

    /// Bitwise XOR of two arrays of the same width.
    pub fn xor(self, rhs: Bits<N>) -> (r: Bits<N>)
        requires
            self.wf(),
            rhs.wf(),
        ensures
            r.wf(),
            r@ == xor_seq(self@, rhs@),
    {
        let v = self.inner;
        let u = rhs.inner;
        let inner = v ^ u;
        proof {
            assert forall|k: int| 0 <= k < N implies #[trigger] bit_seq(inner, N as nat)[k]
                == xor_seq(self@, rhs@)[k] by {
                let t = (N - 1 - k) as u64;
                lemma_xor_bits(v, u, N as u64, t);
                lemma_bit_is_01(v, t);
                lemma_bit_is_01(u, t);
            }
            assert(bit_seq(inner, N as nat) =~= xor_seq(self@, rhs@));
            lemma_xor_bits(v, u, N as u64, 0);
        }
        Bits { inner }
    }

    /// Left-indexed, Msb and 1-indexed get function.
    pub fn get(self, i: usize) -> (r: bool)
        requires
            self.wf(),
            1 <= i <= N,
        ensures
            r == self@[i - 1],
    {
        ((self.inner >> ((N - i) as u64)) & 1) == 1
    }

    /// Left-indexed, Msb and 1-indexed set function.
    pub fn set(&mut self, i: usize, val: bool)
        requires
            old(self).wf(),
            1 <= i <= N,
        ensures
            final(self).wf(),
            final(self)@ == old(self)@.update(i - 1, val),
    {
        let ghost v = self.inner;
        let s: u64 = (N - i) as u64;
        if val {
            self.inner = self.inner | (1u64 << s);
        } else {
            self.inner = self.inner & !(1u64 << s);
        }
        proof {
            let w = self.inner;
            if N < 64 {
                lemma_set_fits(v, s, N as u64);
            }
            assert forall|k: int| 0 <= k < N implies #[trigger] bit_seq(w, N as nat)[k]
                == bit_seq(v, N as nat).update(i - 1, val)[k] by {
                lemma_set_bit(v, s, (N - (k + 1)) as u64);
            }
            assert(bit_seq(w, N as nat) =~= bit_seq(v, N as nat).update(i - 1, val));
        }
    }

    /// Applies a permutation table: output bit `k + 1` is input bit `permutation[k]`.
    pub fn permute<const M: usize>(self, permutation: &[u8; M]) -> (r: Bits<M>)
        requires
            self.wf(),
            1 <= M <= 64,
            valid_table(permutation@, N as nat),
        ensures
            r.wf(),
            r@ == permuted(self@, permutation@),
    {
        let m: u64 = M as u64;
        assert(0u64 >> m == 0) by (bit_vector);
        let mut output = Bits::<M>::new(0);
        let mut i: usize = 0;
        while i < M
            invariant
                self.wf(),
                1 <= M <= 64,
                valid_table(permutation@, N as nat),
                0 <= i <= M,
                output.wf(),
                forall|k: int| 0 <= k < i ==> #[trigger] output@[k] == self@[permutation@[k] - 1],
            decreases M - i,
        {
            let j = permutation[i];
            assert(1 <= permutation@[i as int] <= N);
            let b = self.get(j as usize);
            output.set(i + 1, b);
            i = i + 1;
        }
        assert(output@ =~= permuted(self@, permutation@));
        output
    }
}


/// Two well-formed arrays of the same width with the same bits are equal.
pub proof fn lemma_view_injective<const N: usize>(a: Bits<N>, b: Bits<N>)
    requires
        a.wf(),
        b.wf(),
        a@ == b@,
    ensures
        a == b,
{
    lemma_bit_seq_injective(a.value(), b.value(), N as nat);
}

/// Splitting an array at any midpoint and concatenating the two halves gives
/// the array back: `y` stands for the concatenation of `x`'s two halves.
pub proof fn lemma_split_concat<const N: usize, const M: usize, const K: usize>(
    x: Bits<N>,
    y: Bits<N>,
)
    requires
        x.wf(),
        y.wf(),
        1 <= M,
        1 <= K,
        M + K == N,
        y@ == x@.subrange(0, M as int) + x@.subrange(M as int, N as int),
    ensures
        y == x,
{
    assert(x@.subrange(0, M as int) + x@.subrange(M as int, N as int) =~= x@);
    lemma_view_injective(x, y);
}

/// Rotating a bit string by its own length leaves it as it was.
pub proof fn lemma_rotate_full_turn(s: Seq<bool>)
    ensures
        rotated(s, s.len()) == s,
{
    assert forall|k: int| 0 <= k < s.len() implies #[trigger] rotated(s, s.len())[k] == s[k] by {
        lemma_add_mod_noop_right(k, s.len() as int, s.len() as int);
        lemma_mod_self_0(s.len() as int);
        lemma_small_mod(k as nat, s.len());
    }
    assert(rotated(s, s.len()) =~= s);
}

/// Rotating by `a` and then by `b` is rotating by `(a + b) % len`.
pub proof fn lemma_rotate_compose(s: Seq<bool>, a: nat, b: nat)
    requires
        s.len() > 0,
    ensures
        rotated(rotated(s, a), b) == rotated(s, (a + b) % s.len()),
{
    let n = s.len() as int;
    assert forall|k: int| 0 <= k < n implies #[trigger] rotated(rotated(s, a), b)[k] == rotated(
        s,
        (a + b) % s.len(),
    )[k] by {
        let j = (k + b) % n;
        assert(0 <= j < n) by {
            vstd::arithmetic::div_mod::lemma_mod_pos_bound(k + b, n);
        }
        lemma_add_mod_noop_right(a as int, k + b, n);
        lemma_add_mod_noop_right(k, (a + b) as int, n);
        assert((j + a) % n == (k + (a + b)) % n);
    }
    assert(rotated(rotated(s, a), b) =~= rotated(s, (a + b) % s.len()));
}

proof fn lemma_dot_upto_symmetric(a: Seq<bool>, b: Seq<bool>, k: nat)
    ensures
        dot_upto(a, b, k) == dot_upto(b, a, k),
    decreases k,
{
    if k > 0 {
        lemma_dot_upto_symmetric(a, b, (k - 1) as nat);
    }
}

/// Positions below `k` where both strings hold a one.
spec fn common_ones(a: Seq<bool>, b: Seq<bool>, k: int) -> Set<int> {
    Set::new(|j: int| 0 <= j < k && a[j] && b[j])
}

proof fn lemma_dot_upto_count(a: Seq<bool>, b: Seq<bool>, k: nat)
    ensures
        common_ones(a, b, k as int).finite(),
        dot_upto(a, b, k) == (common_ones(a, b, k as int).len() % 2 == 1),
    decreases k,
{
    if k == 0 {
        assert(common_ones(a, b, 0) =~= Set::<int>::empty());
    } else {
        lemma_dot_upto_count(a, b, (k - 1) as nat);
        let prev = common_ones(a, b, k - 1);
        if a[k - 1] && b[k - 1] {
            assert(common_ones(a, b, k as int) =~= prev.insert(k - 1));
            assert(!prev.contains(k - 1));
        } else {
            assert(common_ones(a, b, k as int) =~= prev);
        }
    }
}

/// Reading both strings through the same bijection `f` of positions (with
/// inverse `g`) leaves their dot product unchanged.
pub proof fn lemma_dot_reindex(
    a: Seq<bool>,
    b: Seq<bool>,
    c: Seq<bool>,
    d: Seq<bool>,
    f: spec_fn(int) -> int,
    g: spec_fn(int) -> int,
)
    requires
        b.len() == a.len(),
        c.len() == a.len(),
        d.len() == a.len(),
        forall|k: int|
            0 <= k < a.len() ==> 0 <= #[trigger] f(k) < a.len() && g(f(k)) == k && c[k] == a[f(k)]
                && d[k] == b[f(k)],
        forall|k: int| 0 <= k < a.len() ==> 0 <= #[trigger] g(k) < a.len() && f(g(k)) == k,
    ensures
        dot(c, d) == dot(a, b),
{
    let n = a.len();
    lemma_dot_upto_count(c, d, n);
    lemma_dot_upto_count(a, b, n);
    let x = common_ones(c, d, n as int);
    let y = common_ones(a, b, n as int);
    assert forall|j: int| y.contains(j) implies #[trigger] x.map(f).contains(j) by {
        assert(x.contains(g(j)));
    }
    assert(x.map(f) =~= y);
    assert forall|x1: int, x2: int| x.contains(x1) && x.contains(x2) && #[trigger] f(x1) == #[trigger] f(
        x2,
    ) implies x1 == x2 by {
        assert(g(f(x1)) == x1);
        assert(g(f(x2)) == x2);
    }
    vstd::set_lib::lemma_map_size(x, y, f);
}

/// The dot product does not depend on the order of its operands.
pub proof fn lemma_dot_symmetric(a: Seq<bool>, b: Seq<bool>)
    requires
        a.len() == b.len(),
    ensures
        dot(a, b) == dot(b, a),
{
    lemma_dot_upto_symmetric(a, b, a.len());
}

} // verus!
