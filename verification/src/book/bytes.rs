//! A book as bytes: the sequence counter, then both trees back to back.

use vstd::prelude::*;

use super::OrderBook;
#[allow(unused_imports)]
use crate::bytes::{lemma_parts_agree, lemma_u64, lemma_u64_zero, lemma_zero_parts, zeroes};
use crate::bytes::{put_u64, take_u64, u64_bytes, Plain};
#[allow(unused_imports)]
use crate::tree::{TreeKey, TreeValue};
#[allow(unused_imports)]
use super::view::BookView;
use crate::order::{FIFOOrderId, RestingOrder};
use crate::tree::RedBlackTree;

verus! {

/// An order that was never written is zero bytes, and so is its id.
proof fn lemma_zero_order()
    ensures
        <FIFOOrderId as TreeKey>::zero().to_bytes() == zeroes(16),
        <RestingOrder as TreeValue>::zero().to_bytes() == zeroes(32),
{
    lemma_u64_zero();
    assert(<FIFOOrderId as TreeKey>::zero().to_bytes() =~= zeroes(16));
    assert(<RestingOrder as TreeValue>::zero().to_bytes() =~= zeroes(32));
}

impl<const BIDS: usize, const ASKS: usize> OrderBook<BIDS, ASKS> {
    /// Bytes in the encoding.
    pub open spec fn byte_len() -> nat {
        8 + RedBlackTree::<FIFOOrderId, RestingOrder, BIDS>::byte_len() + RedBlackTree::<
            FIFOOrderId,
            RestingOrder,
            ASKS,
        >::byte_len()
    }

    /// The encoding.
    pub open spec fn to_bytes(self) -> Seq<u8> {
        u64_bytes(self.counter()) + self.bid_tree().to_bytes() + self.ask_tree().to_bytes()
    }

    /// Every book of one capacity takes the same number of bytes.
    pub proof fn lemma_byte_len(self)
        ensures
            self.to_bytes().len() == Self::byte_len(),
    {
        lemma_u64(self.counter());
        self.bid_tree().lemma_byte_len();
        self.ask_tree().lemma_byte_len();
    }

    /// A book is its counter, its bids, and its asks.
    pub proof fn law_books_are_laid_out(self)
        ensures
            ({
                let bids = RedBlackTree::<FIFOOrderId, RestingOrder, BIDS>::byte_len() as int;
                &&& self.to_bytes().subrange(0, 8) == u64_bytes(self.counter())
                &&& self.to_bytes().subrange(8, 8 + bids) == self.bid_tree().to_bytes()
                &&& self.to_bytes().skip(8 + bids) == self.ask_tree().to_bytes()
            }),
    {
        lemma_u64(self.counter());
        self.bid_tree().lemma_byte_len();
        let bids = RedBlackTree::<FIFOOrderId, RestingOrder, BIDS>::byte_len() as int;
        assert(self.to_bytes().subrange(0, 8) =~= u64_bytes(self.counter()));
        assert(self.to_bytes().subrange(8, 8 + bids) =~= self.bid_tree().to_bytes());
        assert(self.to_bytes().skip(8 + bids) =~= self.ask_tree().to_bytes());
    }

    /// Distinct books have distinct bytes, so a book can be read back from what was written.
    pub proof fn law_bytes_determine_the_book(self, other: Self)
        requires
            self.to_bytes() == other.to_bytes(),
        ensures
            self == other,
    {
        lemma_u64(self.counter());
        lemma_u64(other.counter());
        self.bid_tree().lemma_byte_len();
        other.bid_tree().lemma_byte_len();
        lemma_parts_agree(
            u64_bytes(self.counter()) + self.bid_tree().to_bytes(),
            self.ask_tree().to_bytes(),
            u64_bytes(other.counter()) + other.bid_tree().to_bytes(),
            other.ask_tree().to_bytes(),
        );
        lemma_parts_agree(
            u64_bytes(self.counter()),
            self.bid_tree().to_bytes(),
            u64_bytes(other.counter()),
            other.bid_tree().to_bytes(),
        );
        self.bid_tree().law_bytes_determine_the_tree(other.bid_tree());
        self.ask_tree().law_bytes_determine_the_tree(other.ask_tree());
    }

    /// Zeroed memory is an empty book at full capacity: a freshly allocated account is
    /// usable as it is.
    pub proof fn law_zeroed_bytes_are_an_empty_book(self)
        requires
            BIDS <= u32::MAX,
            ASKS <= u32::MAX,
            self.to_bytes() == zeroes(Self::byte_len()),
        ensures
            self.wf(),
            self.view() == BookView::blank(BIDS as nat, ASKS as nat),
    {
        let counter = u64_bytes(self.counter());
        let bids = self.bid_tree().to_bytes();
        let asks = self.ask_tree().to_bytes();
        lemma_u64(self.counter());
        lemma_u64(0);
        lemma_u64_zero();
        self.bid_tree().lemma_byte_len();
        self.ask_tree().lemma_byte_len();
        lemma_zero_parts(counter + bids, asks);
        lemma_zero_parts(counter, bids);
        lemma_zero_order();
        self.bid_tree().law_zeroed_bytes_are_an_empty_tree();
        self.ask_tree().law_zeroed_bytes_are_an_empty_tree();
    }

    /// Bytes a book of this capacity takes.
    pub fn size_in_bytes() -> (size: usize)
        requires
            Self::byte_len() <= usize::MAX,
        ensures
            size == Self::byte_len(),
    {
        8 + RedBlackTree::<FIFOOrderId, RestingOrder, BIDS>::size_in_bytes() + RedBlackTree::<
            FIFOOrderId,
            RestingOrder,
            ASKS,
        >::size_in_bytes()
    }

    /// Appends the book's bytes.
    pub fn put(&self, out: &mut Vec<u8>)
        ensures
            final(out)@ == old(out)@ + self.to_bytes(),
    {
        put_u64(out, self.next_sequence_number);
        self.bids.put(out);
        self.asks.put(out);
        proof {
            assert(out@ =~= old(out)@ + self.to_bytes());
        }
    }

    /// Reads the book whose bytes stand at `at`. Any bytes are some book, though not
    /// always a sound one; [`OrderBook::check`] tells.
    pub fn take(bytes: &[u8], at: usize) -> (book: Box<Self>)
        requires
            BIDS <= u32::MAX,
            ASKS <= u32::MAX,
            at + Self::byte_len() <= bytes@.len(),
        ensures
            book.to_bytes() == bytes@.subrange(at as int, at + Self::byte_len()),
    {
        let len = bytes.len();
        let next_sequence_number = take_u64(bytes, at);
        let bids = RedBlackTree::<FIFOOrderId, RestingOrder, BIDS>::take(bytes, at + 8);
        let at_asks = at + 8 + RedBlackTree::<FIFOOrderId, RestingOrder, BIDS>::size_in_bytes();
        let asks = RedBlackTree::<FIFOOrderId, RestingOrder, ASKS>::take(bytes, at_asks);
        let book = Box::new(OrderBook { next_sequence_number, bids: *bids, asks: *asks });
        proof {
            assert(book.to_bytes() =~= bytes@.subrange(at as int, at + Self::byte_len()));
        }
        book
    }
}

} // verus!
