//! A packed sequence of booleans stored in 32-bit words.

use vstd::prelude::*;

verus! {

/// Number of flags held by one word.
pub const FLAGS_IN_ITEM: usize = 32;

/// Bit `p` of `word`.
pub open spec fn bit(word: u32, p: u32) -> bool {
    (word >> p) & 1 == 1
}

/// `word` with bit `p` forced to `value` and every other bit kept.
pub open spec fn with_bit(word: u32, p: u32, value: bool) -> u32 {
    if value {
        word | (1u32 << p)
    } else {
        word & !(1u32 << p)
    }
}

/// The word that holds the flag with logical index `index` in a mask of
/// `len` flags. It depends on the total length.
pub open spec fn slot_of(len: int, index: int) -> int {
    (len - index - 1) / 32
}

/// The bit position of the flag with logical index `index` inside its word.
/// It depends on the index alone.
pub open spec fn shift_of(index: int) -> u32 {
    (index % 32) as u32
}

/// The flags that a reader finds in `words` when it addresses `len` flags by
/// `slot_of` and `shift_of`.
pub open spec fn decode(words: Seq<u32>, len: nat) -> Seq<bool> {
    Seq::new(len, |i: int| bit(words[slot_of(len as int, i)], shift_of(i)))
}

/// Whether `words` has the size for `len` flags: one word more than
/// `len / 32`.
pub open spec fn sized(words: Seq<u32>, len: nat) -> bool {
    words.len() == len / 32 + 1
}

/// Whether `words` has the size for `len` flags and the bits that no index
/// addresses, all of them in the last word, are clear.
pub open spec fn canonical(words: Seq<u32>, len: nat) -> bool {
    &&& sized(words, len)
    &&& forall|p: u32| len % 32 <= p < 32 ==> !#[trigger] bit(words[len as int / 32], p)
}

/// Whether `words` is the packing of `flags`: the flag with index `i` stands
/// in bit `shift_of(i)` of word `slot_of(len, i)`, and every other bit is
/// clear.
pub open spec fn packs(words: Seq<u32>, flags: Seq<bool>) -> bool {
    &&& canonical(words, flags.len())
    &&& decode(words, flags.len()) == flags
}

/// The one number `i` with `slot_of(len, i) == w` and `shift_of(i) == p`. It
/// is the index that addresses bit `p` of word `w` where it lies in
/// `0..len`; where it does not, no index addresses that bit.
pub open spec fn index_at(len: int, w: int, p: u32) -> int {
    let base = len - 32 * (w + 1);
    base + (p - base) % 32
}

/// Bit `p` of word `w` in the packing of `flags`: the flag whose index
/// addresses the bit, and clear where no index does.
pub open spec fn packed_bit(flags: Seq<bool>, w: int, p: u32) -> bool {
    let i = index_at(flags.len() as int, w, p);
    0 <= i < flags.len() && flags[i]
}

/// `len` flags, packed into words. The flag with index `i` stands in the word
/// `slot_of(len, i)` at the bit `shift_of(i)`.
pub struct Bitmask {
    pub len: usize,
    pub data: Vec<u32>,
}

impl View for Bitmask {
    type V = Seq<bool>;

    /// The flags, as `at` reads them.
    open spec fn view(&self) -> Seq<bool> {
        decode(self.data@, self.len as nat)
    }
}

impl Clone for Bitmask {
    fn clone(&self) -> (res: Self)
        ensures
            res.len == self.len,
            res.data@ == self.data@,
    {
        let data = self.data.clone();
        assert(data@ =~= self.data@);
        Bitmask { len: self.len, data }
    }
}

impl Bitmask {
    /// There is one word more than `len / 32`.
    pub open spec fn sized(&self) -> bool {
        sized(self.data@, self.len as nat)
    }

    /// There is one word more than `len / 32`, and the bits that no index
    /// addresses are clear.
    pub open spec fn wf(&self) -> bool {
        canonical(self.data@, self.len as nat)
    }

    /// Packs `vals`: the flag with index `i` goes to bit `shift_of(i)` of word
    /// `slot_of(len, i)`, and every other bit is clear.
    pub fn new(vals: &[bool]) -> (res: Self)
        ensures
            res.wf(),
            res.len == vals@.len(),
            res.data@.len() == vals@.len() / 32 + 1,
            res@ == vals@,
    {
        let n = vals.len();
        let mut res = Bitmask { len: n, data: vec![0u32; n / FLAGS_IN_ITEM + 1] };
        proof {
            lemma_zero_word();
        }
        let mut done: usize = 0;
        while done < n
            invariant
                n == vals@.len(),
                done <= n,
                res.len == n,
                res.wf(),
                forall|k: int| n - done <= k < n ==> res@[k] == vals@[k],
            decreases n - done,
        {
            let index = n - 1 - done;
            res.set(index, vals[index]);
            done += 1;
        }
        assert(res@ =~= vals@);
        res
    }

    #[inline]
    fn shift(&self, index: usize) -> (res: usize)
        ensures
            res == shift_of(index as int),
    {
        index % FLAGS_IN_ITEM
    }

    #[inline]
    fn slot_index(&self, index: usize) -> (res: usize)
        requires
            index < self.len,
        ensures
            res == slot_of(self.len as int, index as int),
    {
        let slot_index = (self.len - index - 1) / FLAGS_IN_ITEM;
        slot_index
    }

    /// The flag at `index`.
    pub fn at(&self, index: usize) -> (res: bool)
        requires
            self.sized(),
            index < self.len,
        ensures
            res == self@[index as int],
    {
        self.data[self.slot_index(index)] >> (self.shift(index) as u32) & 1 == 1
    }

    /// Sets the flag at `index` to `value`. No other flag and no other bit of
    /// the words changes.
    pub fn set(&mut self, index: usize, value: bool)
        requires
            old(self).sized(),
            index < old(self).len,
        ensures
            final(self).sized(),
            old(self).wf() ==> final(self).wf(),
            final(self).len == old(self).len,
            final(self).data@ == old(self).data@.update(
                slot_of(old(self).len as int, index as int),
                with_bit(
                    old(self).data@[slot_of(old(self).len as int, index as int)],
                    shift_of(index as int),
                    value,
                ),
            ),
            final(self)@ == old(self)@.update(index as int, value),
    {
        let slot = self.slot_index(index);
        let shift = self.shift(index) as u32;
        let before = self.data[slot];
        let mut word = before | 1u32 << shift;
        if !value {
            word = word & !(1u32 << shift);
        }
        proof {
            assert(word == with_bit(before, shift, value)) by (bit_vector)
                requires
                    shift < 32,
                    word == if value {
                        before | 1u32 << shift
                    } else {
                        (before | 1u32 << shift) & !(1u32 << shift)
                    },
            ;
            lemma_set_get(self.data@, self.len as nat, index as int, value);
        }
        self.data.set(slot, word);
    }

    /// The number of flags.
    pub fn len(&self) -> (res: usize)
        ensures
            res == self.len,
    {
        self.len
    }

    /// The words, for a reader that decodes them by `slot_of` and `shift_of`.
    pub fn as_slice(&self) -> (res: &[u32])
        ensures
            res@ == self.data@,
    {
        self.data.as_slice()
    }
}

proof fn lemma_zero_word()
    by (bit_vector)
    ensures
        forall|p: u32| p < 32 ==> !#[trigger] bit(0u32, p),
{
}

proof fn lemma_same_bits(a: u32, b: u32)
    by (bit_vector)
    requires
        bit(a, 0) == bit(b, 0),
        bit(a, 1) == bit(b, 1),
        bit(a, 2) == bit(b, 2),
        bit(a, 3) == bit(b, 3),
        bit(a, 4) == bit(b, 4),
        bit(a, 5) == bit(b, 5),
        bit(a, 6) == bit(b, 6),
        bit(a, 7) == bit(b, 7),
        bit(a, 8) == bit(b, 8),
        bit(a, 9) == bit(b, 9),
        bit(a, 10) == bit(b, 10),
        bit(a, 11) == bit(b, 11),
        bit(a, 12) == bit(b, 12),
        bit(a, 13) == bit(b, 13),
        bit(a, 14) == bit(b, 14),
        bit(a, 15) == bit(b, 15),
        bit(a, 16) == bit(b, 16),
        bit(a, 17) == bit(b, 17),
        bit(a, 18) == bit(b, 18),
        bit(a, 19) == bit(b, 19),
        bit(a, 20) == bit(b, 20),
        bit(a, 21) == bit(b, 21),
        bit(a, 22) == bit(b, 22),
        bit(a, 23) == bit(b, 23),
        bit(a, 24) == bit(b, 24),
        bit(a, 25) == bit(b, 25),
        bit(a, 26) == bit(b, 26),
        bit(a, 27) == bit(b, 27),
        bit(a, 28) == bit(b, 28),
        bit(a, 29) == bit(b, 29),
        bit(a, 30) == bit(b, 30),
        bit(a, 31) == bit(b, 31),
    ensures
        a == b,
{
}

/// A word is fixed by its 32 bits.
pub proof fn lemma_word_by_bits(a: u32, b: u32)
    requires
        forall|p: u32| p < 32 ==> bit(a, p) == bit(b, p),
    ensures
        a == b,
{
    lemma_same_bits(a, b);
}

/// `with_bit` gives bit `p` the value and keeps every other bit.
pub proof fn lemma_with_bit(word: u32, p: u32, value: bool)
    by (bit_vector)
    requires
        p < 32,
    ensures
        forall|q: u32|
            q < 32 ==> #[trigger] bit(with_bit(word, p, value), q) == if q == p {
                value
            } else {
                bit(word, q)
            },
{
}

/// Every bit of every word is addressed by at most one index, the one that
/// `index_at` names, and every index addresses the bit that names it.
pub proof fn lemma_index_at(len: int, w: int, p: u32, index: int)
    requires
        p < 32,
    ensures
        slot_of(len, index_at(len, w, p)) == w,
        shift_of(index_at(len, w, p)) == p,
        slot_of(len, index) == w && shift_of(index) == p ==> index == index_at(len, w, p),
        0 <= w < len / 32 ==> 0 <= index_at(len, w, p) < len,
        0 <= len && w == len / 32 ==> (0 <= index_at(len, w, p) < len <==> p < len % 32),
{
}

/// Round trip: reading any index of the packing of `flags` gives the flag
/// that went in at that index.
pub proof fn lemma_round_trip(flags: Seq<bool>, words: Seq<u32>, index: int)
    requires
        packs(words, flags),
        0 <= index < flags.len(),
    ensures
        bit(words[slot_of(flags.len() as int, index)], shift_of(index)) == flags[index],
        decode(words, flags.len())[index] == flags[index],
{
    assert(decode(words, flags.len())[index] == flags[index]);
}

/// The packing bit by bit: a bit is set exactly where the index that
/// addresses it holds a true flag.
pub proof fn lemma_packed_bits(flags: Seq<bool>, words: Seq<u32>)
    requires
        packs(words, flags),
    ensures
        forall|w: int, p: u32|
            0 <= w < words.len() && p < 32 ==> #[trigger] bit(words[w], p) == packed_bit(
                flags,
                w,
                p,
            ),
{
    let len = flags.len();
    assert forall|w: int, p: u32| 0 <= w < words.len() && p < 32 implies #[trigger] bit(
        words[w],
        p,
    ) == packed_bit(flags, w, p) by {
        let i = index_at(len as int, w, p);
        lemma_index_at(len as int, w, p, i);
        if 0 <= i < len {
            assert(decode(words, len)[i] == bit(words[w], p));
        }
    }
}

/// The packing of a sequence of flags is unique.
pub proof fn lemma_packing_unique(flags: Seq<bool>, a: Seq<u32>, b: Seq<u32>)
    requires
        packs(a, flags),
        packs(b, flags),
    ensures
        a == b,
{
    lemma_canonical_unique(a, b, flags.len());
}

/// Set and get: forcing the bit that `index` addresses changes the flag at
/// `index` to `value` and no other flag, and keeps the size of the words and,
/// where they are clear, the unaddressed bits.
pub proof fn lemma_set_get(words: Seq<u32>, len: nat, index: int, value: bool)
    requires
        sized(words, len),
        0 <= index < len,
    ensures
        ({
            let slot = slot_of(len as int, index);
            let after = words.update(slot, with_bit(words[slot], shift_of(index), value));
            &&& sized(after, len)
            &&& canonical(words, len) ==> canonical(after, len)
            &&& decode(after, len) == decode(words, len).update(index, value)
        }),
{
    let slot = slot_of(len as int, index);
    let after = words.update(slot, with_bit(words[slot], shift_of(index), value));
    lemma_with_bit(words[slot], shift_of(index), value);
    assert(decode(after, len) =~= decode(words, len).update(index, value));
}

/// Canonical words are fixed by the flags that they decode to.
pub proof fn lemma_canonical_unique(a: Seq<u32>, b: Seq<u32>, len: nat)
    requires
        canonical(a, len),
        canonical(b, len),
        decode(a, len) == decode(b, len),
    ensures
        a == b,
{
    assert forall|w: int| 0 <= w < a.len() implies a[w] == b[w] by {
        assert forall|p: u32| p < 32 implies bit(a[w], p) == bit(b[w], p) by {
            let i = index_at(len as int, w, p);
            lemma_index_at(len as int, w, p, i);
            if 0 <= i < len {
                assert(decode(a, len)[i] == bit(a[w], p));
                assert(decode(b, len)[i] == bit(b[w], p));
            }
        }
        lemma_word_by_bits(a[w], b[w]);
    }
    assert(a =~= b);
}

} // verus!
