//! A pair of tagged neighbor words: the next and previous cell addresses of an
//! intrusive, doubly-linked list of adjacent cells, each carrying two tag bits
//! in its lowest bits.
use vstd::prelude::*;
use core::marker::PhantomData;

verus! {

/// The two words of a `Neighbors`, as plain values.
#[derive(Debug, Clone, Copy)]
pub struct NeighborWords {
    pub next: usize,
    pub prev: usize,
}

/// The tag bits of a word: its two lowest bits.
pub open spec fn tag_of(word: usize) -> usize {
    word & 3usize
}

/// The address held in a word: the word with its two lowest bits cleared.
pub open spec fn addr_of(word: usize) -> usize {
    word & !3usize
}

/// Whether the lowest tag bit of a word is set.
pub open spec fn bit_1_of(word: usize) -> bool {
    word & 1usize != 0
}

/// Whether the second lowest tag bit of a word is set.
pub open spec fn bit_2_of(word: usize) -> bool {
    word & 2usize != 0
}

/// Whether an address leaves room for the tag bits.
pub open spec fn is_aligned(addr: usize) -> bool {
    addr & 3usize == 0
}

/// The word that holds the address of `addr` and the tag bits of `word`.
pub open spec fn retarget(word: usize, addr: usize) -> usize {
    addr | tag_of(word)
}

/// A cell type that can stand in a list of `Neighbors`: it decides which of
/// the addresses held in a cell's neighbor words lead to a neighboring cell.
pub trait HasNeighbors: Sized {
    /// Whether, in a cell whose neighbor words are `neighbors`, the address
    /// `next` leads to a next neighbor.
    spec fn follows_next(neighbors: NeighborWords, next: usize) -> bool;

    /// Whether, in a cell whose neighbor words are `neighbors`, the address
    /// `prev` leads to a previous neighbor.
    spec fn follows_prev(neighbors: NeighborWords, prev: usize) -> bool;

    /// The next neighbor at `next`, if the cell with these neighbor words has one there.
    fn next_checked(neighbors: &Neighbors<Self>, next: usize) -> (r: Option<usize>)
        ensures
            r == (if Self::follows_next(neighbors@, next) {
                Some(next)
            } else {
                None
            }),
    ;

    /// The previous neighbor at `prev`, if the cell with these neighbor words has one there.
    fn prev_checked(neighbors: &Neighbors<Self>, prev: usize) -> (r: Option<usize>)
        ensures
            r == (if Self::follows_prev(neighbors@, prev) {
                Some(prev)
            } else {
                None
            }),
    ;
}

/// Setting tag bit `b` of a word gives `word | b`, keeps the address and the
/// other tag bit, and sets `b`.
proof fn lemma_set_tag(word: usize, b: usize)
    by (bit_vector)
    requires
        b == 1usize || b == 2usize,
    ensures
        ((word & 3usize) | b) & !3usize == 0,
        (word & !3usize) | ((word & 3usize) | b) == word | b,
        (word | b) & !3usize == word & !3usize,
        (word | b) & b != 0,
        b == 1usize ==> (word | b) & 2usize == word & 2usize,
        b == 2usize ==> (word | b) & 1usize == word & 1usize,
{
}

/// Clearing tag bit `b` of a word gives `word & !b`, keeps the address and the
/// other tag bit, and clears `b`.
proof fn lemma_clear_tag(word: usize, b: usize)
    by (bit_vector)
    requires
        b == 1usize || b == 2usize,
    ensures
        ((word & 3usize) & !b) & !3usize == 0,
        (word & !3usize) | ((word & 3usize) & !b) == word & !b,
        (word & !b) & !3usize == word & !3usize,
        (word & !b) & b == 0,
        b == 1usize ==> (word & !b) & 2usize == word & 2usize,
        b == 2usize ==> (word & !b) & 1usize == word & 1usize,
{
}

/// Reading tag bit `b` through the tag bits of a word reads it from the word.
proof fn lemma_read_tag(word: usize, b: usize)
    by (bit_vector)
    requires
        b == 1usize || b == 2usize,
    ensures
        ((word & 3usize) & b != 0) == (word & b != 0),
{
}

/// An aligned address keeps its value when it is untagged, and a word built
/// from it and some tag bits holds it and those bits.
proof fn lemma_aligned_retarget(addr: usize, word: usize)
    by (bit_vector)
    requires
        addr & 3usize == 0,
    ensures
        addr & !3usize == addr,
        (addr | (word & 3usize)) & !3usize == addr,
        (addr | (word & 3usize)) & 3usize == word & 3usize,
{
}

/// The next and previous neighbor words of a cell whose neighbors are cells
/// of type `T`. Each word is an aligned address whose two low bits are free
/// to carry tags.
#[derive(Debug)]
pub struct Neighbors<T> {
    next_raw: usize,
    prev_raw: usize,
    _phantom: PhantomData<T>,
}

impl<T> View for Neighbors<T> {
    type V = NeighborWords;

    closed spec fn view(&self) -> NeighborWords {
        NeighborWords { next: self.next_raw, prev: self.prev_raw }
    }
}

impl<T> Default for Neighbors<T> {
    /// Both neighbors null, no tag bits set.
    fn default() -> (r: Self)
        ensures
            r@.next == 0,
            r@.prev == 0,
    {
        Neighbors { next_raw: 0, prev_raw: 0, _phantom: PhantomData }
    }
}

impl<T> Neighbors<T> {
    /// The lowest tag bit.
    pub const BIT_1: usize = 0b01;

    /// The second lowest tag bit.
    pub const BIT_2: usize = 0b10;

    /// Mask of the tag bits.
    const BITS_MASK: usize = 0b11;

    /// Mask of the address.
    const PTR_MASK: usize = !0b11;

    /// The tag bits of a raw word.
    fn bits(raw: usize) -> (r: usize)
        ensures
            r == tag_of(raw),
            r & !3usize == 0,
    {
        assert((raw & 3usize) & !3usize == 0) by (bit_vector);
        raw & Self::BITS_MASK
    }

    /// The address held in a raw word.
    fn untagged(raw: usize) -> (r: usize)
        ensures
            r == addr_of(raw),
            is_aligned(r),
    {
        assert((raw & !3usize) & 3usize == 0) by (bit_vector);
        raw & Self::PTR_MASK
    }

    /// The address of `raw` with `bits` as its tag bits.
    fn with_bits(raw: usize, bits: usize) -> (r: usize)
        requires
            bits & !3usize == 0,
        ensures
            r == addr_of(raw) | bits,
            addr_of(r) == addr_of(raw),
            tag_of(r) == bits,
    {
        assert(addr_of(addr_of(raw) | bits) == addr_of(raw) && tag_of(addr_of(raw) | bits) == bits)
            by (bit_vector)
            requires
                bits & !3usize == 0,
        ;
        (raw & Self::PTR_MASK) | bits
    }
    /// Whether the lowest tag bit of the next word is set.
    #[inline]
    pub fn get_next_bit_1(&self) -> (r: bool)
        ensures
            r == bit_1_of(self@.next),
    {
        proof {
            lemma_read_tag(self.next_raw, 1);
        }
        Self::bits(self.next_raw) & Self::BIT_1 != 0
    }

    /// Whether the second lowest tag bit of the next word is set.
    #[inline]
    pub fn get_next_bit_2(&self) -> (r: bool)
        ensures
            r == bit_2_of(self@.next),
    {
        proof {
            lemma_read_tag(self.next_raw, 2);
        }
        Self::bits(self.next_raw) & Self::BIT_2 != 0
    }

    /// Whether the lowest tag bit of the previous word is set.
    #[inline]
    pub fn get_prev_bit_1(&self) -> (r: bool)
        ensures
            r == bit_1_of(self@.prev),
    {
        proof {
            lemma_read_tag(self.prev_raw, 1);
        }
        Self::bits(self.prev_raw) & Self::BIT_1 != 0
    }

    /// Whether the second lowest tag bit of the previous word is set.
    #[inline]
    pub fn get_prev_bit_2(&self) -> (r: bool)
        ensures
            r == bit_2_of(self@.prev),
    {
        proof {
            lemma_read_tag(self.prev_raw, 2);
        }
        Self::bits(self.prev_raw) & Self::BIT_2 != 0
    }

    /// Sets the lowest tag bit of the next word; the address and the other
    /// tag bit stay, and the previous word is untouched.
    #[inline]
    pub fn set_next_bit_1(&mut self)
        ensures
            final(self)@.next == old(self)@.next | 1usize,
            final(self)@.prev == old(self)@.prev,
            bit_1_of(final(self)@.next),
            bit_2_of(final(self)@.next) == bit_2_of(old(self)@.next),
            addr_of(final(self)@.next) == addr_of(old(self)@.next),
    {
        proof {
            lemma_set_tag(self.next_raw, 1);
        }
        self.next_raw = Self::with_bits(self.next_raw, Self::bits(self.next_raw) | Self::BIT_1);
    }

    /// Sets the second lowest tag bit of the next word; the address and the
    /// other tag bit stay, and the previous word is untouched.
    #[inline]
    pub fn set_next_bit_2(&mut self)
        ensures
            final(self)@.next == old(self)@.next | 2usize,
            final(self)@.prev == old(self)@.prev,
            bit_2_of(final(self)@.next),
            bit_1_of(final(self)@.next) == bit_1_of(old(self)@.next),
            addr_of(final(self)@.next) == addr_of(old(self)@.next),
    {
        proof {
            lemma_set_tag(self.next_raw, 2);
        }
        self.next_raw = Self::with_bits(self.next_raw, Self::bits(self.next_raw) | Self::BIT_2);
    }

    /// Sets the lowest tag bit of the previous word; the address and the
    /// other tag bit stay, and the next word is untouched.
    #[inline]
    pub fn set_prev_bit_1(&mut self)
        ensures
            final(self)@.prev == old(self)@.prev | 1usize,
            final(self)@.next == old(self)@.next,
            bit_1_of(final(self)@.prev),
            bit_2_of(final(self)@.prev) == bit_2_of(old(self)@.prev),
            addr_of(final(self)@.prev) == addr_of(old(self)@.prev),
    {
        proof {
            lemma_set_tag(self.prev_raw, 1);
        }
        self.prev_raw = Self::with_bits(self.prev_raw, Self::bits(self.prev_raw) | Self::BIT_1);
    }

    /// Sets the second lowest tag bit of the previous word; the address and
    /// the other tag bit stay, and the next word is untouched.
    #[inline]
    pub fn set_prev_bit_2(&mut self)
        ensures
            final(self)@.prev == old(self)@.prev | 2usize,
            final(self)@.next == old(self)@.next,
            bit_2_of(final(self)@.prev),
            bit_1_of(final(self)@.prev) == bit_1_of(old(self)@.prev),
            addr_of(final(self)@.prev) == addr_of(old(self)@.prev),
    {
        proof {
            lemma_set_tag(self.prev_raw, 2);
        }
        self.prev_raw = Self::with_bits(self.prev_raw, Self::bits(self.prev_raw) | Self::BIT_2);
    }

    /// Clears the lowest tag bit of the next word; the address and the other
    /// tag bit stay, and the previous word is untouched.
    #[inline]
    pub fn clear_next_bit_1(&mut self)
        ensures
            final(self)@.next == old(self)@.next & !1usize,
            final(self)@.prev == old(self)@.prev,
            !bit_1_of(final(self)@.next),
            bit_2_of(final(self)@.next) == bit_2_of(old(self)@.next),
            addr_of(final(self)@.next) == addr_of(old(self)@.next),
    {
        proof {
            lemma_clear_tag(self.next_raw, 1);
        }
        self.next_raw = Self::with_bits(self.next_raw, Self::bits(self.next_raw) & !Self::BIT_1);
    }

    /// Clears the second lowest tag bit of the next word; the address and the
    /// other tag bit stay, and the previous word is untouched.
    #[inline]
    pub fn clear_next_bit_2(&mut self)
        ensures
            final(self)@.next == old(self)@.next & !2usize,
            final(self)@.prev == old(self)@.prev,
            !bit_2_of(final(self)@.next),
            bit_1_of(final(self)@.next) == bit_1_of(old(self)@.next),
            addr_of(final(self)@.next) == addr_of(old(self)@.next),
    {
        proof {
            lemma_clear_tag(self.next_raw, 2);
        }
        self.next_raw = Self::with_bits(self.next_raw, Self::bits(self.next_raw) & !Self::BIT_2);
    }

    /// Clears the lowest tag bit of the previous word; the address and the
    /// other tag bit stay, and the next word is untouched.
    #[inline]
    pub fn clear_prev_bit_1(&mut self)
        ensures
            final(self)@.prev == old(self)@.prev & !1usize,
            final(self)@.next == old(self)@.next,
            !bit_1_of(final(self)@.prev),
            bit_2_of(final(self)@.prev) == bit_2_of(old(self)@.prev),
            addr_of(final(self)@.prev) == addr_of(old(self)@.prev),
    {
        proof {
            lemma_clear_tag(self.prev_raw, 1);
        }
        self.prev_raw = Self::with_bits(self.prev_raw, Self::bits(self.prev_raw) & !Self::BIT_1);
    }

    /// Clears the second lowest tag bit of the previous word; the address and
    /// the other tag bit stay, and the next word is untouched.
    #[inline]
    pub fn clear_prev_bit_2(&mut self)
        ensures
            final(self)@.prev == old(self)@.prev & !2usize,
            final(self)@.next == old(self)@.next,
            !bit_2_of(final(self)@.prev),
            bit_1_of(final(self)@.prev) == bit_1_of(old(self)@.prev),
            addr_of(final(self)@.prev) == addr_of(old(self)@.prev),
    {
        proof {
            lemma_clear_tag(self.prev_raw, 2);
        }
        self.prev_raw = Self::with_bits(self.prev_raw, Self::bits(self.prev_raw) & !Self::BIT_2);
    }

    /// The address held in the next word, without its tag bits.
    #[inline]
    pub fn next_unchecked(&self) -> (r: usize)
        ensures
            r == addr_of(self@.next),
            is_aligned(r),
    {
        Self::untagged(self.next_raw)
    }

    /// The address held in the previous word, without its tag bits.
    #[inline]
    pub fn prev_unchecked(&self) -> (r: usize)
        ensures
            r == addr_of(self@.prev),
            is_aligned(r),
    {
        Self::untagged(self.prev_raw)
    }

    /// Points the next word at the aligned address `next`, keeping its tag bits.
    /// Nothing is done to keep the list well formed.
    #[inline]
    pub fn set_next(&mut self, next: usize)
        requires
            is_aligned(next),
        ensures
            final(self)@.next == retarget(old(self)@.next, next),
            final(self)@.prev == old(self)@.prev,
            addr_of(final(self)@.next) == next,
            tag_of(final(self)@.next) == tag_of(old(self)@.next),
    {
        proof {
            lemma_aligned_retarget(next, self.next_raw);
        }
        let old_bits = Self::bits(self.next_raw);
        self.next_raw = Self::with_bits(next, old_bits);
    }

    /// Points the previous word at the aligned address `prev`, keeping its tag bits.
    /// Nothing is done to keep the list well formed.
    #[inline]
    pub fn set_prev(&mut self, prev: usize)
        requires
            is_aligned(prev),
        ensures
            final(self)@.prev == retarget(old(self)@.prev, prev),
            final(self)@.next == old(self)@.next,
            addr_of(final(self)@.prev) == prev,
            tag_of(final(self)@.prev) == tag_of(old(self)@.prev),
    {
        proof {
            lemma_aligned_retarget(prev, self.prev_raw);
        }
        let old_bits = Self::bits(self.prev_raw);
        self.prev_raw = Self::with_bits(prev, old_bits);
    }

    /// The raw next word, tag bits included.
    #[inline]
    pub fn next_and_bits(&self) -> (r: usize)
        ensures
            r == self@.next,
    {
        self.next_raw
    }

    /// The raw previous word, tag bits included.
    #[inline]
    pub fn prev_and_bits(&self) -> (r: usize)
        ensures
            r == self@.prev,
    {
        self.prev_raw
    }

    /// Overwrites the raw next word, tag bits included.
    #[inline]
    pub fn set_next_and_bits(&mut self, next_and_bits: usize)
        ensures
            final(self)@.next == next_and_bits,
            final(self)@.prev == old(self)@.prev,
    {
        self.next_raw = next_and_bits;
    }

    /// Overwrites the raw previous word, tag bits included.
    #[inline]
    pub fn set_prev_and_bits(&mut self, prev_and_bits: usize)
        ensures
            final(self)@.prev == prev_and_bits,
            final(self)@.next == old(self)@.next,
    {
        self.prev_raw = prev_and_bits;
    }
    /// The neighbor words with the given raw contents, tag bits included.
    pub(crate) fn from_words(words: &NeighborWords) -> (r: Self)
        ensures
            r@ == *words,
    {
        Neighbors { next_raw: words.next, prev_raw: words.prev, _phantom: PhantomData }
    }

    /// The raw contents of both words.
    pub(crate) fn words(&self) -> (r: NeighborWords)
        ensures
            r == self@,
    {
        NeighborWords { next: self.next_raw, prev: self.prev_raw }
    }
}

impl<T: HasNeighbors> Neighbors<T> {
    /// The next neighbor, if the cell type `T` follows the next address.
    #[inline]
    pub fn next(&self) -> (r: Option<usize>)
        ensures
            r == (if T::follows_next(self@, addr_of(self@.next)) {
                Some(addr_of(self@.next))
            } else {
                None
            }),
    {
        T::next_checked(self, self.next_unchecked())
    }

    /// The previous neighbor, if the cell type `T` follows the previous address.
    #[inline]
    pub fn prev(&self) -> (r: Option<usize>)
        ensures
            r == (if T::follows_prev(self@, addr_of(self@.prev)) {
                Some(addr_of(self@.prev))
            } else {
                None
            }),
    {
        T::prev_checked(self, self.prev_unchecked())
    }
}

} // verus!
