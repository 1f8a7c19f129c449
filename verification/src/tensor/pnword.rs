//! Words of packed trits: two bits for each of -1, 0 and +1.
use vstd::prelude::*;

verus! {

/// Whether bit `k` of a 64-bit word is set.
pub open spec fn word_bit(w: u64, k: int) -> bool {
    (w >> (k as u64)) & 1 == 1
}

/// Whether bit `k` of a 128-bit mask is set.
pub open spec fn mask_bit(m: u128, k: int) -> bool {
    (m >> (k as u128)) & 1 == 1
}

/// Whether trit `i` has its plus bit.
pub open spec fn plus(words: Seq<u64>, i: int) -> bool {
    word_bit(words[i / 32], 2 * (i % 32))
}

/// Whether trit `i` has its minus bit.
pub open spec fn minus(words: Seq<u64>, i: int) -> bool {
    word_bit(words[i / 32], 2 * (i % 32) + 1)
}

/// The value of trit `i`.
pub open spec fn trit(words: Seq<u64>, i: int) -> int {
    if plus(words, i) {
        1
    } else if minus(words, i) {
        -1
    } else {
        0
    }
}

/// The sign of a value.
pub open spec fn sign(v: i8) -> int {
    if v > 0 {
        1
    } else if v < 0 {
        -1
    } else {
        0
    }
}

/// How many of the first `n` values are zero before the first that is not.
pub open spec fn leading_zeros(values: Seq<i8>, n: int) -> nat
    decreases n,
{
    if n <= 0 {
        0
    } else if leading_zeros(values, n - 1) == n - 1 && values[n - 1] == 0 {
        n as nat
    } else {
        leading_zeros(values, n - 1)
    }
}

/// How many of the lowest `n` bits of a mask are set.
pub open spec fn ones(m: u128, n: int) -> nat
    decreases n,
{
    if n <= 0 {
        0
    } else {
        ones(m, n - 1) + (if mask_bit(m, n - 1) {
            1nat
        } else {
            0nat
        })
    }
}

/// The words hold the signs of the values, and zeros past their end.
pub open spec fn packs(words: Seq<u64>, values: Seq<i8>) -> bool {
    forall|i: int| 0 <= i < 32 * words.len() ==> {
        &&& #[trigger] plus(words, i) == (i < values.len() && values[i] > 0)
        &&& minus(words, i) == (i < values.len() && values[i] < 0)
    }
}

/// What one pair of trits adds to an inner product.
pub open spec fn contribution(a: Seq<u64>, w: Seq<u64>, i: int) -> int {
    (if plus(a, i) && plus(w, i) || minus(a, i) && minus(w, i) {
        1int
    } else {
        0
    }) - (if plus(a, i) && minus(w, i) || minus(a, i) && plus(w, i) {
        1int
    } else {
        0
    })
}

/// The inner product of the first `n` trits.
pub open spec fn inner(a: Seq<u64>, w: Seq<u64>, n: int) -> int
    decreases n,
{
    if n <= 0 {
        0
    } else {
        inner(a, w, n - 1) + contribution(a, w, n - 1)
    }
}

/// Setting one bit of a word changes no other bit.
proof fn word_set(w: u64, k: int)
    requires
        0 <= k < 64,
    ensures
        forall|j: int| 0 <= j < 64 ==> #[trigger] word_bit(w | (1u64 << (k as u64)), j) == (j == k || word_bit(w, j)),
{
    assert forall|j: int| 0 <= j < 64 implies #[trigger] word_bit(w | (1u64 << (k as u64)), j) == (j == k || word_bit(w, j)) by {
        let jj = j as u64;
        let kk = k as u64;
        assert((((w | (1u64 << kk)) >> jj) & 1 == 1) == (jj == kk || (w >> jj) & 1 == 1)) by (bit_vector)
            requires
                jj < 64,
                kk < 64,
        ;
    }
}

/// Setting one bit of a mask changes no other bit.
proof fn mask_set(m: u128, k: int)
    requires
        0 <= k < 128,
    ensures
        forall|j: int| 0 <= j < 128 ==> #[trigger] mask_bit(m | (1u128 << (k as u128)), j) == (j == k || mask_bit(m, j)),
{
    assert forall|j: int| 0 <= j < 128 implies #[trigger] mask_bit(m | (1u128 << (k as u128)), j) == (j == k || mask_bit(m, j)) by {
        let jj = j as u128;
        let kk = k as u128;
        assert((((m | (1u128 << kk)) >> jj) & 1 == 1) == (jj == kk || (m >> jj) & 1 == 1)) by (bit_vector)
            requires
                jj < 128,
                kk < 128,
        ;
    }
}

/// No bit of zero is set.
proof fn zero_bits()
    ensures
        forall|j: int| 0 <= j < 64 ==> !#[trigger] word_bit(0, j),
        forall|j: int| 0 <= j < 128 ==> !#[trigger] mask_bit(0, j),
{
    assert forall|j: int| 0 <= j < 64 implies !#[trigger] word_bit(0, j) by {
        let jj = j as u64;
        assert((0u64 >> jj) & 1 == 0) by (bit_vector)
            requires
                jj < 64,
        ;
    }
    assert forall|j: int| 0 <= j < 128 implies !#[trigger] mask_bit(0, j) by {
        let jj = j as u128;
        assert((0u128 >> jj) & 1 == 0) by (bit_vector)
            requires
                jj < 128,
        ;
    }
}

/// Adds value `i` to the words.
fn put(words: &mut [u64], i: usize, v: i8)
    requires
        i < 32 * old(words)@.len(),
        old(words)@.len() <= 8,
        !plus(old(words)@, i as int),
        !minus(old(words)@, i as int),
    ensures
        final(words)@.len() == old(words)@.len(),
        forall|j: int| 0 <= j < 32 * old(words)@.len() ==> #[trigger] plus(final(words)@, j) == (if j == i { v > 0 } else { plus(old(words)@, j) }),
        forall|j: int| 0 <= j < 32 * old(words)@.len() ==> #[trigger] minus(final(words)@, j) == (if j == i { v < 0 } else { minus(old(words)@, j) }),
{
    let at: usize = i / 32;
    let k: u64 = (i % 32) as u64;
    if v > 0 {
        let w: u64 = words[at];
        words[at] = w | (1u64 << (k * 2));
        proof {
            word_set(w, 2 * k);
            assert forall|j: int| 0 <= j < 32 * old(words)@.len() implies #[trigger] minus(words@, j) == (if j == i { v < 0 } else { minus(old(words)@, j) }) by {
                assert(word_bit(w | (1u64 << (2 * k) as u64), 2 * (j % 32) + 1) == word_bit(w, 2 * (j % 32) + 1));
            }
            assert forall|j: int| 0 <= j < 32 * old(words)@.len() implies #[trigger] plus(words@, j) == (if j == i { v > 0 } else { plus(old(words)@, j) }) by {
                assert(word_bit(w | (1u64 << (2 * k) as u64), 2 * (j % 32)) == (2 * (j % 32) == 2 * k || word_bit(w, 2 * (j % 32))));
            }
        }
    } else if v < 0 {
        let w: u64 = words[at];
        words[at] = w | (1u64 << (k * 2 + 1));
        proof {
            word_set(w, 2 * k + 1);
            assert forall|j: int| 0 <= j < 32 * old(words)@.len() implies #[trigger] plus(words@, j) == (if j == i { v > 0 } else { plus(old(words)@, j) }) by {
                assert(word_bit(w | (1u64 << (2 * k + 1) as u64), 2 * (j % 32)) == word_bit(w, 2 * (j % 32)));
            }
            assert forall|j: int| 0 <= j < 32 * old(words)@.len() implies #[trigger] minus(words@, j) == (if j == i { v < 0 } else { minus(old(words)@, j) }) by {
                assert(word_bit(w | (1u64 << (2 * k + 1) as u64), 2 * (j % 32) + 1) == (2 * (j % 32) + 1 == 2 * k + 1 || word_bit(w, 2 * (j % 32) + 1)));
            }
        }
    }
}

/// Packs the signs of values into zeroed words.
fn pack_words(words: &mut [u64], values: &[i8])
    requires
        old(words)@.len() <= 8,
        forall|i: int| 0 <= i < old(words)@.len() ==> old(words)@[i] == 0,
    ensures
        final(words)@.len() == old(words)@.len(),
        packs(final(words)@, values@),
{
    let total: usize = words.len() * 32;
    let len: usize = if values.len() < total { values.len() } else { total };
    proof {
        zero_bits();
    }
    let mut i: usize = 0;
    while i < len
        invariant
            i <= len,
            words@.len() == old(words)@.len(),
            words@.len() <= 8,
            total == 32 * words@.len(),
            len == (if values@.len() < total { values@.len() as int } else { total as int }),
            forall|j: int| 0 <= j < total ==> #[trigger] plus(words@, j) == (j < i && values@[j] > 0),
            forall|j: int| 0 <= j < total ==> #[trigger] minus(words@, j) == (j < i && values@[j] < 0),
        decreases len - i,
    {
        put(words, i, values[i]);
        i = i + 1;
    }
}

/// How many values are zero before the first that is not, up to `limit`.
fn count_leading_zeros(values: &[i8], limit: usize) -> (r: u32)
    requires
        limit <= 256,
    ensures
        r == leading_zeros(values@, if values@.len() < limit { values@.len() as int } else { limit as int }),
{
    let len: usize = if values.len() < limit { values.len() } else { limit };
    let mut run: u32 = 0;
    let mut i: usize = 0;
    while i < len
        invariant
            i <= len,
            len <= values@.len(),
            len <= 256,
            run == leading_zeros(values@, i as int),
            run <= i,
        decreases len - i,
    {
        if run as usize == i && values[i] == 0 {
            run = run + 1;
        }
        i = i + 1;
    }
    run
}

/// The mask of the values from `from` on that are not zero.
fn active(values: &[i8], from: usize) -> (m: u128)
    requires
        from <= 128,
    ensures
        forall|k: int| 0 <= k < 128 ==> #[trigger] mask_bit(m, k) == (from + k < values@.len() && values@[from + k] != 0),
{
    let mut m: u128 = 0;
    let mut k: usize = 0;
    proof {
        zero_bits();
    }
    while k < 128
        invariant
            from <= 128,
            k <= 128,
            forall|j: int| 0 <= j < 128 ==> #[trigger] mask_bit(m, j) == (j < k && from + j < values@.len() && values@[from + j] != 0),
        decreases 128 - k,
    {
        if from + k < values.len() && values[from + k] != 0 {
            proof {
                mask_set(m, k as int);
            }
            m = m | (1u128 << (k as u128));
        }
        k = k + 1;
    }
    m
}

/// The number of set bits of a mask.
fn count_ones(m: u128) -> (r: u32)
    ensures
        r == ones(m, 128),
{
    let mut n: u32 = 0;
    let mut k: u128 = 0;
    while k < 128
        invariant
            k <= 128,
            n == ones(m, k as int),
            n <= k,
        decreases 128 - k,
    {
        if (m >> k) & 1 == 1 {
            n = n + 1;
        }
        k = k + 1;
    }
    n
}

/// Reads the plus bit or the minus bit of trit `i`.
fn read_bit(words: &[u64], i: usize, low: bool) -> (r: bool)
    requires
        i < 32 * words@.len(),
    ensures
        r == (if low { plus(words@, i as int) } else { minus(words@, i as int) }),
{
    let w: u64 = words[i / 32];
    let k: u64 = (i % 32) as u64;
    if low {
        (w >> (k * 2)) & 1 == 1
    } else {
        (w >> (k * 2 + 1)) & 1 == 1
    }
}

/// Combines two lists of words bit by bit: exclusive or, or and.
fn combine(a: &[u64], b: &[u64], exclusive: bool, out: &mut [u64])
    requires
        a@.len() == b@.len(),
        old(out)@.len() == a@.len(),
    ensures
        final(out)@.len() == a@.len(),
        forall|i: int| 0 <= i < a@.len() ==> #[trigger] final(out)@[i] == (if exclusive { a@[i] ^ b@[i] } else { a@[i] & b@[i] }),
{
    let mut i: usize = 0;
    while i < a.len()
        invariant
            a@.len() == b@.len(),
            out@.len() == a@.len(),
            i <= a@.len(),
            forall|j: int| 0 <= j < i ==> #[trigger] out@[j] == (if exclusive { a@[j] ^ b@[j] } else { a@[j] & b@[j] }),
        decreases a.len() - i,
    {
        out[i] = if exclusive { a[i] ^ b[i] } else { a[i] & b[i] };
        i = i + 1;
    }
}

/// 128 activation trits with a mask of those that are not zero.
#[derive(Debug, Clone, Copy, PartialEq, Eq)]
pub struct PNActivation256 {
    pub trits: [u64; 4],
    pub active_mask: u128,
    pub zero_run: u32,
    pub flags: u32,
}

/// 128 weight trits with the bits of their scale.
#[derive(Debug, Clone, Copy, PartialEq, Eq)]
pub struct PNWeight256 {
    pub trits: [u64; 4],
    pub scale: u32,
    pub flags: u32,
}

/// 256 activation trits with masks of those that are not zero.
#[derive(Debug, Clone, Copy, PartialEq, Eq)]
pub struct PNActivation512 {
    pub trits: [u64; 8],
    pub active_mask_low: u128,
    pub active_mask_high: u128,
    pub zero_run: u32,
    pub flags: u32,
}

impl PNActivation256 {
    /// Packs the signs of the first 128 values.
    pub fn pack(values: &[i8]) -> (r: Self)
        ensures
            packs(r.trits@, values@),
            forall|k: int| 0 <= k < 128 ==> #[trigger] mask_bit(r.active_mask, k) == (k < values@.len() && values@[k] != 0),
            r.zero_run == leading_zeros(values@, if values@.len() < 128 { values@.len() as int } else { 128 }),
            r.flags == 0,
    {
        let mut trits: [u64; 4] = [0u64, 0u64, 0u64, 0u64];
        pack_words(&mut trits, values);
        PNActivation256 {
            trits,
            active_mask: active(values, 0),
            zero_run: count_leading_zeros(values, 128),
            flags: 0,
        }
    }

    /// Writes the trits out, as many as there is room for; what lies past the 128th stays.
    pub fn unpack(&self, out: &mut [i8])
        ensures
            final(out)@.len() == old(out)@.len(),
            forall|i: int| 0 <= i < old(out)@.len() ==> #[trigger] final(out)@[i] == (if i < 128 { trit(self.trits@, i) } else { old(out)@[i] as int }),
    {
        let len: usize = if out.len() < 128 { out.len() } else { 128 };
        let mut i: usize = 0;
        while i < len
            invariant
                i <= len,
                len <= 128,
                len <= out@.len(),
                out@.len() == old(out)@.len(),
                forall|j: int| 0 <= j < out@.len() ==> #[trigger] out@[j] == (if j < i { trit(self.trits@, j) } else { old(out)@[j] as int }),
            decreases len - i,
        {
            if read_bit(&self.trits, i, true) {
                out[i] = 1;
            } else if read_bit(&self.trits, i, false) {
                out[i] = -1;
            } else {
                out[i] = 0;
            }
            i = i + 1;
        }
    }

    /// The inner product with weights, before their scale; zero when the mask is empty.
    pub fn dot(&self, weight: &PNWeight256) -> (r: i32)
        ensures
            r == (if self.active_mask == 0 { 0 } else { inner(self.trits@, weight.trits@, 128) }),
    {
        if self.active_mask == 0 {
            return 0;
        }
        let mut sum: i32 = 0;
        let mut i: usize = 0;
        while i < 128
            invariant
                i <= 128,
                sum == inner(self.trits@, weight.trits@, i as int),
                -(i as int) <= sum <= i,
            decreases 128 - i,
        {
            let ap: bool = read_bit(&self.trits, i, true);
            let an: bool = read_bit(&self.trits, i, false);
            let wp: bool = read_bit(&weight.trits, i, true);
            let wn: bool = read_bit(&weight.trits, i, false);
            let gain: i32 = if ap && wp || an && wn { 1 } else { 0 };
            let loss: i32 = if ap && wn || an && wp { 1 } else { 0 };
            sum = sum + (gain - loss);
            i = i + 1;
        }
        sum
    }

    /// The trits and masks combined by exclusive or.
    pub fn xor(&self, other: &Self) -> (r: Self)
        ensures
            forall|i: int| 0 <= i < 4 ==> #[trigger] r.trits@[i] == self.trits@[i] ^ other.trits@[i],
            r.active_mask == self.active_mask ^ other.active_mask,
            r.zero_run == 0,
            r.flags == self.flags,
    {
        let mut trits: [u64; 4] = [0u64, 0u64, 0u64, 0u64];
        combine(&self.trits, &other.trits, true, &mut trits);
        PNActivation256 {
            trits,
            active_mask: self.active_mask ^ other.active_mask,
            zero_run: 0,
            flags: self.flags,
        }
    }

    /// The trits and masks combined by and.
    pub fn and(&self, other: &Self) -> (r: Self)
        ensures
            forall|i: int| 0 <= i < 4 ==> #[trigger] r.trits@[i] == self.trits@[i] & other.trits@[i],
            r.active_mask == self.active_mask & other.active_mask,
            r.zero_run == 0,
            r.flags == self.flags,
    {
        let mut trits: [u64; 4] = [0u64, 0u64, 0u64, 0u64];
        combine(&self.trits, &other.trits, false, &mut trits);
        PNActivation256 {
            trits,
            active_mask: self.active_mask & other.active_mask,
            zero_run: 0,
            flags: self.flags,
        }
    }

    /// The number of active trits.
    pub fn popcount(&self) -> (r: u32)
        ensures
            r == ones(self.active_mask, 128),
    {
        count_ones(self.active_mask)
    }
}

impl PNWeight256 {
    /// Packs the signs of the first 128 values, with the bits of their scale.
    pub fn pack(values: &[i8], scale: u32) -> (r: Self)
        ensures
            packs(r.trits@, values@),
            r.scale == scale,
            r.flags == 0,
    {
        let mut trits: [u64; 4] = [0u64, 0u64, 0u64, 0u64];
        pack_words(&mut trits, values);
        PNWeight256 { trits, scale, flags: 0 }
    }

    /// The trits combined by exclusive or, under this scale.
    pub fn xor(&self, other: &Self) -> (r: Self)
        ensures
            forall|i: int| 0 <= i < 4 ==> #[trigger] r.trits@[i] == self.trits@[i] ^ other.trits@[i],
            r.scale == self.scale,
            r.flags == self.flags,
    {
        let mut trits: [u64; 4] = [0u64, 0u64, 0u64, 0u64];
        combine(&self.trits, &other.trits, true, &mut trits);
        PNWeight256 { trits, scale: self.scale, flags: self.flags }
    }

    /// The trits combined by and, under this scale.
    pub fn and(&self, other: &Self) -> (r: Self)
        ensures
            forall|i: int| 0 <= i < 4 ==> #[trigger] r.trits@[i] == self.trits@[i] & other.trits@[i],
            r.scale == self.scale,
            r.flags == self.flags,
    {
        let mut trits: [u64; 4] = [0u64, 0u64, 0u64, 0u64];
        combine(&self.trits, &other.trits, false, &mut trits);
        PNWeight256 { trits, scale: self.scale, flags: self.flags }
    }
}

impl PNActivation512 {
    /// Packs the signs of the first 256 values.
    pub fn pack(values: &[i8]) -> (r: Self)
        ensures
            packs(r.trits@, values@),
            forall|k: int| 0 <= k < 128 ==> #[trigger] mask_bit(r.active_mask_low, k) == (k < values@.len() && values@[k] != 0),
            forall|k: int| 0 <= k < 128 ==> #[trigger] mask_bit(r.active_mask_high, k) == (128 + k < values@.len() && values@[128 + k] != 0),
            r.zero_run == leading_zeros(values@, if values@.len() < 256 { values@.len() as int } else { 256 }),
            r.flags == 0,
    {
        let mut trits: [u64; 8] = [0u64, 0u64, 0u64, 0u64, 0u64, 0u64, 0u64, 0u64];
        pack_words(&mut trits, values);
        PNActivation512 {
            trits,
            active_mask_low: active(values, 0),
            active_mask_high: active(values, 128),
            zero_run: count_leading_zeros(values, 256),
            flags: 0,
        }
    }

    /// The trits and masks combined by exclusive or.
    pub fn xor(&self, other: &Self) -> (r: Self)
        ensures
            forall|i: int| 0 <= i < 8 ==> #[trigger] r.trits@[i] == self.trits@[i] ^ other.trits@[i],
            r.active_mask_low == self.active_mask_low ^ other.active_mask_low,
            r.active_mask_high == self.active_mask_high ^ other.active_mask_high,
            r.zero_run == 0,
            r.flags == self.flags,
    {
        let mut trits: [u64; 8] = [0u64, 0u64, 0u64, 0u64, 0u64, 0u64, 0u64, 0u64];
        combine(&self.trits, &other.trits, true, &mut trits);
        PNActivation512 {
            trits,
            active_mask_low: self.active_mask_low ^ other.active_mask_low,
            active_mask_high: self.active_mask_high ^ other.active_mask_high,
            zero_run: 0,
            flags: self.flags,
        }
    }

    /// The trits and masks combined by and.
    pub fn and(&self, other: &Self) -> (r: Self)
        ensures
            forall|i: int| 0 <= i < 8 ==> #[trigger] r.trits@[i] == self.trits@[i] & other.trits@[i],
            r.active_mask_low == self.active_mask_low & other.active_mask_low,
            r.active_mask_high == self.active_mask_high & other.active_mask_high,
            r.zero_run == 0,
            r.flags == self.flags,
    {
        let mut trits: [u64; 8] = [0u64, 0u64, 0u64, 0u64, 0u64, 0u64, 0u64, 0u64];
        combine(&self.trits, &other.trits, false, &mut trits);
        PNActivation512 {
            trits,
            active_mask_low: self.active_mask_low & other.active_mask_low,
            active_mask_high: self.active_mask_high & other.active_mask_high,
            zero_run: 0,
            flags: self.flags,
        }
    }

    /// The number of active trits.
    pub fn popcount(&self) -> (r: u32)
        ensures
            r == ones(self.active_mask_low, 128) + ones(self.active_mask_high, 128),
    {
        proof {
            ones_bound(self.active_mask_low, 128);
            ones_bound(self.active_mask_high, 128);
        }
        count_ones(self.active_mask_low) + count_ones(self.active_mask_high)
    }
}

proof fn ones_bound(m: u128, n: int)
    requires
        0 <= n,
    ensures
        ones(m, n) <= n,
    decreases n,
{
    if n > 0 {
        ones_bound(m, n - 1);
    }
}

/// Packed trits read back as the signs of the values, and as zero past their end.
pub proof fn packed_trits_read_back(words: Seq<u64>, values: Seq<i8>)
    requires
        packs(words, values),
    ensures
        forall|i: int| 0 <= i < 32 * words.len() ==> #[trigger] trit(words, i) == (if i < values.len() { sign(values[i]) } else { 0 }),
{
    assert forall|i: int| 0 <= i < 32 * words.len() implies #[trigger] trit(words, i) == (if i < values.len() { sign(values[i]) } else { 0 }) by {
        assert(plus(words, i) == (i < values.len() && values[i] > 0));
    }
}

/// The sum of the products of two lists of signs.
pub open spec fn sign_dot(a: Seq<i8>, w: Seq<i8>, n: int) -> int
    decreases n,
{
    if n <= 0 {
        0
    } else {
        sign_dot(a, w, n - 1) + (if n - 1 < a.len() && n - 1 < w.len() {
            sign(a[n - 1]) * sign(w[n - 1])
        } else {
            0
        })
    }
}

/// The inner product of packed trits is the inner product of the signs of the packed values.
pub proof fn packed_inner_product(words: Seq<u64>, weights: Seq<u64>, a: Seq<i8>, w: Seq<i8>, n: int)
    requires
        packs(words, a),
        packs(weights, w),
        words.len() == weights.len(),
        0 <= n <= 32 * words.len(),
    ensures
        inner(words, weights, n) == sign_dot(a, w, n),
    decreases n,
{
    if n > 0 {
        packed_inner_product(words, weights, a, w, n - 1);
        assert(plus(words, n - 1) == (n - 1 < a.len() && a[n - 1] > 0));
        assert(plus(weights, n - 1) == (n - 1 < w.len() && w[n - 1] > 0));
    }
}

} // verus!
