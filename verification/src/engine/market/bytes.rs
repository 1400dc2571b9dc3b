//! A market as bytes: the header, the seat table, and the book.

use vstd::prelude::*;

use super::{Market, MarketHeader};
#[allow(unused_imports)]
use crate::bytes::lemma_parts_agree;
use crate::bytes::Plain;
use crate::book::OrderBook;
use crate::engine::trader::{TraderKey, TraderState, TraderTable};
use crate::tree::RedBlackTree;

verus! {

impl<const BIDS: usize, const ASKS: usize, const SEATS: usize> Market<BIDS, ASKS, SEATS> {
    /// Bytes in the encoding.
    pub open spec fn byte_len() -> nat {
        MarketHeader::byte_len() + RedBlackTree::<TraderKey, TraderState, SEATS>::byte_len()
            + OrderBook::<BIDS, ASKS>::byte_len()
    }

    /// The encoding.
    pub open spec fn to_bytes(self) -> Seq<u8> {
        self.head().to_bytes() + self.seat_table().tree().to_bytes() + self.order_book().to_bytes()
    }

    /// Every market of one capacity takes the same number of bytes.
    pub proof fn lemma_byte_len(self)
        ensures
            self.to_bytes().len() == Self::byte_len(),
    {
        self.head().lemma_byte_len();
        self.seat_table().tree().lemma_byte_len();
        self.order_book().lemma_byte_len();
    }

    /// A market is its header, its seats, and its book.
    pub proof fn law_markets_are_laid_out(self)
        ensures
            ({
                let seats = RedBlackTree::<TraderKey, TraderState, SEATS>::byte_len() as int;
                &&& self.to_bytes().subrange(0, 72) == self.head().to_bytes()
                &&& self.to_bytes().subrange(72, 72 + seats) == self.seat_table().tree().to_bytes()
                &&& self.to_bytes().skip(72 + seats) == self.order_book().to_bytes()
            }),
    {
        self.head().lemma_byte_len();
        self.seat_table().tree().lemma_byte_len();
        let seats = RedBlackTree::<TraderKey, TraderState, SEATS>::byte_len() as int;
        assert(self.to_bytes().subrange(0, 72) =~= self.head().to_bytes());
        assert(self.to_bytes().subrange(72, 72 + seats) =~= self.seat_table().tree().to_bytes());
        assert(self.to_bytes().skip(72 + seats) =~= self.order_book().to_bytes());
    }

    /// Distinct markets have distinct bytes, so a market can be read back from what was
    /// written.
    pub proof fn law_bytes_determine_the_market(self, other: Self)
        requires
            self.to_bytes() == other.to_bytes(),
        ensures
            self == other,
    {
        self.head().lemma_byte_len();
        other.head().lemma_byte_len();
        self.seat_table().tree().lemma_byte_len();
        other.seat_table().tree().lemma_byte_len();
        lemma_parts_agree(
            self.head().to_bytes() + self.seat_table().tree().to_bytes(),
            self.order_book().to_bytes(),
            other.head().to_bytes() + other.seat_table().tree().to_bytes(),
            other.order_book().to_bytes(),
        );
        lemma_parts_agree(
            self.head().to_bytes(),
            self.seat_table().tree().to_bytes(),
            other.head().to_bytes(),
            other.seat_table().tree().to_bytes(),
        );
        self.head().lemma_bytes_injective(other.head());
        self.seat_table().tree().law_bytes_determine_the_tree(other.seat_table().tree());
        self.order_book().law_bytes_determine_the_book(other.order_book());
        self.seat_table().lemma_same_tree(other.seat_table());
    }

    /// The market these bytes are the encoding of.
    pub open spec fn of_bytes(bytes: Seq<u8>) -> Self {
        choose|market: Self| market.to_bytes() == bytes
    }

    /// A market is the one its bytes stand for: what was written is what is read.
    pub proof fn law_markets_are_read_back(self)
        ensures
            Self::of_bytes(self.to_bytes()) == self,
    {
        let found = Self::of_bytes(self.to_bytes());
        assert(found.to_bytes() == self.to_bytes());
        found.law_bytes_determine_the_market(self);
    }

    /// Bytes a market of this capacity takes.
    pub fn size_in_bytes() -> (size: usize)
        requires
            Self::byte_len() <= usize::MAX,
        ensures
            size == Self::byte_len(),
    {
        MarketHeader::size_in_bytes() + RedBlackTree::<
            TraderKey,
            TraderState,
            SEATS,
        >::size_in_bytes() + OrderBook::<BIDS, ASKS>::size_in_bytes()
    }

    /// Appends the market's bytes.
    pub fn put(&self, out: &mut Vec<u8>)
        ensures
            final(out)@ == old(out)@ + self.to_bytes(),
    {
        self.header.put(out);
        self.traders.put(out);
        self.book.put(out);
        proof {
            assert(out@ =~= old(out)@ + self.to_bytes());
        }
    }

    /// Reads the market whose bytes stand at `at`. Any bytes are some market, though not
    /// always a sound one.
    pub fn take(bytes: &[u8], at: usize) -> (market: Box<Self>)
        requires
            BIDS <= u32::MAX,
            ASKS <= u32::MAX,
            SEATS <= u32::MAX,
            at + Self::byte_len() <= bytes@.len(),
        ensures
            market.to_bytes() == bytes@.subrange(at as int, at + Self::byte_len()),
            *market == Self::of_bytes(bytes@.subrange(at as int, at + Self::byte_len())),
    {
        let len = bytes.len();
        let header = MarketHeader::take(bytes, at);
        let traders = TraderTable::<SEATS>::take(bytes, at + 72);
        let at_book = at + 72 + RedBlackTree::<TraderKey, TraderState, SEATS>::size_in_bytes();
        let book = OrderBook::<BIDS, ASKS>::take(bytes, at_book);
        let market = Box::new(Market { header, traders: *traders, book: *book });
        proof {
            assert(market.to_bytes() =~= bytes@.subrange(at as int, at + Self::byte_len()));
            market.law_markets_are_read_back();
        }
        market
    }
}

} // verus!
