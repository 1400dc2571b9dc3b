//! Values as bytes.
//!
//! An account is a flat run of bytes. Every type that lives in one says here which bytes
//! it is: its fields in declaration order, integers little-endian, with nothing between
//! them. No two values share an encoding and every run of the right length is one, so
//! reading and writing are each other's inverse.

use vstd::prelude::*;

use crate::engine::{FeeSchedule, MarketHeader, TraderKey, TraderState};
use crate::order::{FIFOOrderId, RestingOrder};
use crate::quantities::{BaseLots, LotConfig, QuoteLots, Ticks};
use crate::tree::Node;

verus! {

/// A fixed-size value with an encoding.
pub trait Plain: Copy {
    /// Bytes in the encoding.
    spec fn byte_len() -> nat;

    /// The encoding.
    spec fn to_bytes(self) -> Seq<u8>;

    /// Every value's encoding has the same length.
    proof fn lemma_byte_len(self)
        ensures
            self.to_bytes().len() == Self::byte_len(),
    ;

    /// Distinct values have distinct encodings.
    proof fn lemma_bytes_injective(self, other: Self)
        requires
            self.to_bytes() == other.to_bytes(),
        ensures
            self == other,
    ;

    /// Bytes in the encoding.
    fn size_in_bytes() -> (size: usize)
        requires
            Self::byte_len() <= usize::MAX,
        ensures
            size == Self::byte_len(),
    ;

    /// Appends the encoding.
    fn put(&self, out: &mut Vec<u8>)
        ensures
            final(out)@ == old(out)@ + self.to_bytes(),
    ;

    /// Reads the value encoded at `at`.
    fn take(bytes: &[u8], at: usize) -> (value: Self)
        requires
            at + Self::byte_len() <= bytes@.len(),
        ensures
            value.to_bytes() == bytes@.subrange(at as int, at + Self::byte_len()),
    ;
}

/// The value these bytes are the encoding of.
pub open spec fn value_of<T: Plain>(bytes: Seq<u8>) -> T {
    choose|value: T| value.to_bytes() == bytes
}

/// A value is the one its bytes stand for.
pub proof fn lemma_value_of<T: Plain>(value: T)
    ensures
        value_of::<T>(value.to_bytes()) == value,
{
    let found = value_of::<T>(value.to_bytes());
    assert(found.to_bytes() == value.to_bytes());
    found.lemma_bytes_injective(value);
}

/// A run of zero bytes.
pub open spec fn zeroes(n: nat) -> Seq<u8> {
    Seq::new(n, |i: int| 0u8)
}

/// The parts of a run of zero bytes are runs of zero bytes.
pub proof fn lemma_zero_parts(a: Seq<u8>, b: Seq<u8>)
    requires
        a + b == zeroes(a.len() + b.len()),
    ensures
        a == zeroes(a.len()),
        b == zeroes(b.len()),
{
    let whole = a + b;
    assert forall|i: int| 0 <= i < a.len() implies a[i] == 0u8 by {
        assert(whole[i] == 0u8);
    }
    assert forall|i: int| 0 <= i < b.len() implies b[i] == 0u8 by {
        assert(whole[a.len() + i] == 0u8);
    }
    assert(a =~= zeroes(a.len()));
    assert(b =~= zeroes(b.len()));
}

/// Zero bytes stand for zero.
pub proof fn lemma_zero_u32(value: u32)
    requires
        u32_bytes(value) == zeroes(4),
    ensures
        value == 0,
{
    reveal(u32_bytes);
    lemma_le_zero(4);
    lemma_u32(0);
    lemma_u32(value);
}

/// Zero is zero bytes.
pub proof fn lemma_u64_zero()
    ensures
        u64_bytes(0) == zeroes(8),
{
    reveal(u64_bytes);
    lemma_le_zero(8);
}

/// Two concatenations with parts of equal length agree part by part.
pub proof fn lemma_parts_agree(a: Seq<u8>, b: Seq<u8>, c: Seq<u8>, d: Seq<u8>)
    requires
        a.len() == c.len(),
        a + b == c + d,
    ensures
        a == c,
        b == d,
{
    assert(a =~= (a + b).take(a.len() as int));
    assert(c =~= (c + d).take(a.len() as int));
    assert(b =~= (a + b).skip(a.len() as int));
    assert(d =~= (c + d).skip(a.len() as int));
}

// ---------------------------------------------------------------------------------
// Integers and raw bytes
// ---------------------------------------------------------------------------------

/// The `n` low bytes of a number, lowest first.
pub open spec fn le_bytes(value: nat, n: nat) -> Seq<u8>
    decreases n,
{
    if n == 0 {
        Seq::empty()
    } else {
        seq![(value % 256) as u8] + le_bytes(value / 256, (n - 1) as nat)
    }
}

/// The number whose bytes these are, lowest first.
pub open spec fn le_value(bytes: Seq<u8>) -> nat
    decreases bytes.len(),
{
    if bytes.len() == 0 {
        0
    } else {
        bytes[0] as nat + 256 * le_value(bytes.drop_first())
    }
}

/// How many numbers `n` bytes can tell apart.
pub open spec fn le_capacity(n: nat) -> nat
    decreases n,
{
    if n == 0 {
        1
    } else {
        256 * le_capacity((n - 1) as nat)
    }
}

/// A number that fits is the one its bytes stand for.
pub proof fn lemma_le_value_of_bytes(value: nat, n: nat)
    requires
        value < le_capacity(n),
    ensures
        le_bytes(value, n).len() == n,
        le_value(le_bytes(value, n)) == value,
    decreases n,
{
    if n > 0 {
        lemma_le_value_of_bytes(value / 256, (n - 1) as nat);
        let bytes = le_bytes(value, n);
        assert(bytes.drop_first() =~= le_bytes(value / 256, (n - 1) as nat));
    }
}

/// Bytes are those of the number they stand for.
pub proof fn lemma_le_bytes_of_value(bytes: Seq<u8>)
    ensures
        le_value(bytes) < le_capacity(bytes.len()),
        le_bytes(le_value(bytes), bytes.len()) == bytes,
    decreases bytes.len(),
{
    if bytes.len() > 0 {
        let rest = bytes.drop_first();
        lemma_le_bytes_of_value(rest);
        let value = le_value(bytes);
        assert(value % 256 == bytes[0] && value / 256 == le_value(rest));
        assert(le_bytes(value, bytes.len()) =~= bytes);
    } else {
        assert(le_bytes(0, 0) =~= bytes);
    }
}

/// Zero is zero bytes.
pub proof fn lemma_le_zero(n: nat)
    ensures
        le_bytes(0, n) == zeroes(n),
    decreases n,
{
    if n > 0 {
        lemma_le_zero((n - 1) as nat);
    }
    assert(le_bytes(0, n) =~= zeroes(n));
}

/// What four and eight bytes can hold.
proof fn lemma_le_capacities()
    ensures
        le_capacity(4) == 0x1_0000_0000,
        le_capacity(8) == 0x1_0000_0000_0000_0000,
{
    reveal_with_fuel(le_capacity, 9);
}

/// More bytes hold no less.
proof fn lemma_le_capacity_grows(m: nat, n: nat)
    requires
        m <= n,
    ensures
        1 <= le_capacity(m) <= le_capacity(n),
    decreases n,
{
    if m < n {
        lemma_le_capacity_grows(m, (n - 1) as nat);
    } else if m > 0 {
        lemma_le_capacity_grows((m - 1) as nat, (m - 1) as nat);
    }
}

/// Four little-endian bytes.
#[verifier::opaque]
pub open spec fn u32_bytes(value: u32) -> Seq<u8> {
    le_bytes(value as nat, 4)
}

/// Eight little-endian bytes.
#[verifier::opaque]
pub open spec fn u64_bytes(value: u64) -> Seq<u8> {
    le_bytes(value as nat, 8)
}

/// The integer whose four little-endian bytes these are.
#[verifier::opaque]
pub open spec fn u32_of(bytes: Seq<u8>) -> u32 {
    le_value(bytes) as u32
}

/// The integer whose eight little-endian bytes these are.
#[verifier::opaque]
pub open spec fn u64_of(bytes: Seq<u8>) -> u64 {
    le_value(bytes) as u64
}

/// An integer is the one its bytes stand for.
pub proof fn lemma_u32(value: u32)
    ensures
        u32_bytes(value).len() == 4,
        u32_of(u32_bytes(value)) == value,
{
    reveal(u32_bytes);
    reveal(u32_of);
    lemma_le_capacities();
    lemma_le_value_of_bytes(value as nat, 4);
}

/// An integer is the one its bytes stand for.
pub proof fn lemma_u64(value: u64)
    ensures
        u64_bytes(value).len() == 8,
        u64_of(u64_bytes(value)) == value,
{
    reveal(u64_bytes);
    reveal(u64_of);
    lemma_le_capacities();
    lemma_le_value_of_bytes(value as nat, 8);
}

/// Appends the `n` low bytes of `value`.
fn put_le(out: &mut Vec<u8>, value: u64, n: usize)
    ensures
        final(out)@ == old(out)@ + le_bytes(value as nat, n as nat),
{
    let mut rest: u64 = value;
    let mut i: usize = 0;
    while i < n
        invariant
            i <= n,
            out@ + le_bytes(rest as nat, (n - i) as nat) == old(out)@ + le_bytes(
                value as nat,
                n as nat,
            ),
        decreases n - i,
    {
        let ghost before = out@;
        let ghost left = rest as nat;
        let byte = (rest % 256) as u8;
        out.push(byte);
        rest = rest / 256;
        i = i + 1;
        proof {
            let tail = le_bytes(left / 256, (n - i) as nat);
            assert(le_bytes(left, (n - i + 1) as nat) == seq![(left % 256) as u8] + tail);
            assert(before.push(byte) + tail =~= before + (seq![byte] + tail));
        }
    }
    proof {
        assert(out@ + le_bytes(rest as nat, 0) =~= out@);
    }
}

/// Reads `n` bytes as a number.
fn take_le(bytes: &[u8], at: usize, n: usize) -> (value: u64)
    requires
        n <= 8,
        at + n <= bytes@.len(),
    ensures
        value == le_value(bytes@.subrange(at as int, at + n)),
{
    let len = bytes.len();
    let mut value: u64 = 0;
    let mut i: usize = n;
    while i > 0
        invariant
            i <= n <= 8,
            len == bytes@.len(),
            at + n <= len,
            value == le_value(bytes@.subrange(at + i, at + n)),
        decreases i,
    {
        i = i - 1;
        let byte = bytes[at + i];
        proof {
            let taken = bytes@.subrange(at + i, at + n);
            let rest = bytes@.subrange(at + i + 1, at + n);
            assert(taken.drop_first() =~= rest);
            lemma_le_bytes_of_value(taken);
            lemma_le_capacity_grows(taken.len(), 8);
            lemma_le_capacities();
        }
        value = byte as u64 + 256 * value;
    }
    value
}

/// Appends four bytes.
pub fn put_u32(out: &mut Vec<u8>, value: u32)
    ensures
        final(out)@ == old(out)@ + u32_bytes(value),
{
    proof {
        reveal(u32_bytes);
    }
    put_le(out, value as u64, 4);
}

/// Appends eight bytes.
pub fn put_u64(out: &mut Vec<u8>, value: u64)
    ensures
        final(out)@ == old(out)@ + u64_bytes(value),
{
    proof {
        reveal(u64_bytes);
    }
    put_le(out, value, 8);
}

/// Reads four bytes.
pub fn take_u32(bytes: &[u8], at: usize) -> (value: u32)
    requires
        at + 4 <= bytes@.len(),
    ensures
        value == u32_of(bytes@.subrange(at as int, at + 4)),
        u32_bytes(value) == bytes@.subrange(at as int, at + 4),
{
    proof {
        reveal(u32_bytes);
        reveal(u32_of);
        lemma_le_bytes_of_value(bytes@.subrange(at as int, at + 4));
        lemma_le_capacities();
    }
    take_le(bytes, at, 4) as u32
}

/// Reads eight bytes.
pub fn take_u64(bytes: &[u8], at: usize) -> (value: u64)
    requires
        at + 8 <= bytes@.len(),
    ensures
        value == u64_of(bytes@.subrange(at as int, at + 8)),
        u64_bytes(value) == bytes@.subrange(at as int, at + 8),
{
    proof {
        reveal(u64_bytes);
        reveal(u64_of);
        lemma_le_bytes_of_value(bytes@.subrange(at as int, at + 8));
        lemma_le_capacities();
    }
    take_le(bytes, at, 8)
}

impl Plain for u64 {
    open spec fn byte_len() -> nat {
        8
    }

    open spec fn to_bytes(self) -> Seq<u8> {
        u64_bytes(self)
    }

    proof fn lemma_byte_len(self) {
        lemma_u64(self);
    }

    proof fn lemma_bytes_injective(self, other: Self) {
        lemma_u64(self);
        lemma_u64(other);
    }

    fn size_in_bytes() -> (size: usize) {
        8
    }

    fn put(&self, out: &mut Vec<u8>) {
        put_u64(out, *self);
    }

    fn take(bytes: &[u8], at: usize) -> (value: Self) {
        take_u64(bytes, at)
    }
}

/// Appends all of `bytes`.
pub fn put_all(out: &mut Vec<u8>, bytes: &[u8])
    ensures
        final(out)@ == old(out)@ + bytes@,
{
    out.extend_from_slice(bytes);
    assert(out@ =~= old(out)@ + bytes@);
}

/// Reads thirty-two bytes.
pub fn take_array(bytes: &[u8], at: usize) -> (value: [u8; 32])
    requires
        at + 32 <= bytes@.len(),
    ensures
        value@ == bytes@.subrange(at as int, at + 32),
{
    let len = bytes.len();
    let mut value = crate::engine::trader::key::zeros();
    let mut i: usize = 0;
    while i < 32
        invariant
            i <= 32,
            len == bytes@.len(),
            at + 32 <= len,
            value@.len() == 32,
            forall|j: int| 0 <= j < i ==> value@[j] == bytes@[at + j],
        decreases 32 - i,
    {
        value[i] = bytes[at + i];
        i = i + 1;
    }
    assert(value@ =~= bytes@.subrange(at as int, at + 32));
    value
}

/// Whether two runs of thirty-two bytes are equal.
pub fn same_bytes(a: &[u8; 32], b: &[u8; 32]) -> (same: bool)
    ensures
        same == (*a == *b),
{
    let mut i: usize = 0;
    while i < 32
        invariant
            i <= 32,
            forall|j: int| 0 <= j < i ==> a@[j] == b@[j],
        decreases 32 - i,
    {
        if a[i] != b[i] {
            return false;
        }
        i = i + 1;
    }
    proof {
        assert(*a =~= *b);
    }
    true
}

// ---------------------------------------------------------------------------------
// What accounts hold
// ---------------------------------------------------------------------------------

impl Plain for FIFOOrderId {
    open spec fn byte_len() -> nat {
        16
    }

    open spec fn to_bytes(self) -> Seq<u8> {
        u64_bytes(self.price_in_ticks.0)
            + u64_bytes(self.order_sequence_number)
    }

    proof fn lemma_byte_len(self) {
        lemma_u64(self.price_in_ticks.0);
        lemma_u64(self.order_sequence_number);
    }

    proof fn lemma_bytes_injective(self, other: Self) {
        lemma_u64(self.price_in_ticks.0);
        lemma_u64(other.price_in_ticks.0);
        lemma_u64(self.order_sequence_number);
        lemma_u64(other.order_sequence_number);
        lemma_parts_agree(
            u64_bytes(self.price_in_ticks.0),
            u64_bytes(self.order_sequence_number),
            u64_bytes(other.price_in_ticks.0),
            u64_bytes(other.order_sequence_number),
        );
    }

    fn size_in_bytes() -> (size: usize) {
        16
    }

    fn put(&self, out: &mut Vec<u8>) {
        put_u64(out, self.price_in_ticks.0);
        put_u64(out, self.order_sequence_number);
        proof {
            assert(out@ =~= old(out)@ + self.to_bytes());
        }
    }

    fn take(bytes: &[u8], at: usize) -> (value: Self) {
        let len = bytes.len();
        let w0 = take_u64(bytes, at);
        let w1 = take_u64(bytes, at + 8);
        let value = FIFOOrderId {
            price_in_ticks: Ticks(w0),
            order_sequence_number: w1,
        };
        proof {
            assert(value.to_bytes() =~= bytes@.subrange(at as int, at + 16));
        }
        value
    }
}

impl Plain for RestingOrder {
    open spec fn byte_len() -> nat {
        32
    }

    open spec fn to_bytes(self) -> Seq<u8> {
        u64_bytes(self.trader_index)
            + u64_bytes(self.num_base_lots.0)
            + u64_bytes(self.last_valid_slot)
            + u64_bytes(self.last_valid_unix_timestamp_in_seconds)
    }

    proof fn lemma_byte_len(self) {
        lemma_u64(self.trader_index);
        lemma_u64(self.num_base_lots.0);
        lemma_u64(self.last_valid_slot);
        lemma_u64(self.last_valid_unix_timestamp_in_seconds);
    }

    proof fn lemma_bytes_injective(self, other: Self) {
        lemma_u64(self.trader_index);
        lemma_u64(other.trader_index);
        lemma_u64(self.num_base_lots.0);
        lemma_u64(other.num_base_lots.0);
        lemma_u64(self.last_valid_slot);
        lemma_u64(other.last_valid_slot);
        lemma_u64(self.last_valid_unix_timestamp_in_seconds);
        lemma_u64(other.last_valid_unix_timestamp_in_seconds);
        lemma_parts_agree(
            u64_bytes(self.trader_index) + u64_bytes(self.num_base_lots.0) + u64_bytes(self.last_valid_slot),
            u64_bytes(self.last_valid_unix_timestamp_in_seconds),
            u64_bytes(other.trader_index) + u64_bytes(other.num_base_lots.0) + u64_bytes(other.last_valid_slot),
            u64_bytes(other.last_valid_unix_timestamp_in_seconds),
        );
        lemma_parts_agree(
            u64_bytes(self.trader_index) + u64_bytes(self.num_base_lots.0),
            u64_bytes(self.last_valid_slot),
            u64_bytes(other.trader_index) + u64_bytes(other.num_base_lots.0),
            u64_bytes(other.last_valid_slot),
        );
        lemma_parts_agree(
            u64_bytes(self.trader_index),
            u64_bytes(self.num_base_lots.0),
            u64_bytes(other.trader_index),
            u64_bytes(other.num_base_lots.0),
        );
    }

    fn size_in_bytes() -> (size: usize) {
        32
    }

    fn put(&self, out: &mut Vec<u8>) {
        put_u64(out, self.trader_index);
        put_u64(out, self.num_base_lots.0);
        put_u64(out, self.last_valid_slot);
        put_u64(out, self.last_valid_unix_timestamp_in_seconds);
        proof {
            assert(out@ =~= old(out)@ + self.to_bytes());
        }
    }

    fn take(bytes: &[u8], at: usize) -> (value: Self) {
        let len = bytes.len();
        let w0 = take_u64(bytes, at);
        let w1 = take_u64(bytes, at + 8);
        let w2 = take_u64(bytes, at + 16);
        let w3 = take_u64(bytes, at + 24);
        let value = RestingOrder {
            trader_index: w0,
            num_base_lots: BaseLots(w1),
            last_valid_slot: w2,
            last_valid_unix_timestamp_in_seconds: w3,
        };
        proof {
            assert(value.to_bytes() =~= bytes@.subrange(at as int, at + 32));
        }
        value
    }
}

impl Plain for TraderState {
    open spec fn byte_len() -> nat {
        32
    }

    open spec fn to_bytes(self) -> Seq<u8> {
        u64_bytes(self.base_lots_free.0)
            + u64_bytes(self.base_lots_locked.0)
            + u64_bytes(self.quote_lots_free.0)
            + u64_bytes(self.quote_lots_locked.0)
    }

    proof fn lemma_byte_len(self) {
        lemma_u64(self.base_lots_free.0);
        lemma_u64(self.base_lots_locked.0);
        lemma_u64(self.quote_lots_free.0);
        lemma_u64(self.quote_lots_locked.0);
    }

    proof fn lemma_bytes_injective(self, other: Self) {
        lemma_u64(self.base_lots_free.0);
        lemma_u64(other.base_lots_free.0);
        lemma_u64(self.base_lots_locked.0);
        lemma_u64(other.base_lots_locked.0);
        lemma_u64(self.quote_lots_free.0);
        lemma_u64(other.quote_lots_free.0);
        lemma_u64(self.quote_lots_locked.0);
        lemma_u64(other.quote_lots_locked.0);
        lemma_parts_agree(
            u64_bytes(self.base_lots_free.0) + u64_bytes(self.base_lots_locked.0) + u64_bytes(self.quote_lots_free.0),
            u64_bytes(self.quote_lots_locked.0),
            u64_bytes(other.base_lots_free.0) + u64_bytes(other.base_lots_locked.0) + u64_bytes(other.quote_lots_free.0),
            u64_bytes(other.quote_lots_locked.0),
        );
        lemma_parts_agree(
            u64_bytes(self.base_lots_free.0) + u64_bytes(self.base_lots_locked.0),
            u64_bytes(self.quote_lots_free.0),
            u64_bytes(other.base_lots_free.0) + u64_bytes(other.base_lots_locked.0),
            u64_bytes(other.quote_lots_free.0),
        );
        lemma_parts_agree(
            u64_bytes(self.base_lots_free.0),
            u64_bytes(self.base_lots_locked.0),
            u64_bytes(other.base_lots_free.0),
            u64_bytes(other.base_lots_locked.0),
        );
    }

    fn size_in_bytes() -> (size: usize) {
        32
    }

    fn put(&self, out: &mut Vec<u8>) {
        put_u64(out, self.base_lots_free.0);
        put_u64(out, self.base_lots_locked.0);
        put_u64(out, self.quote_lots_free.0);
        put_u64(out, self.quote_lots_locked.0);
        proof {
            assert(out@ =~= old(out)@ + self.to_bytes());
        }
    }

    fn take(bytes: &[u8], at: usize) -> (value: Self) {
        let len = bytes.len();
        let w0 = take_u64(bytes, at);
        let w1 = take_u64(bytes, at + 8);
        let w2 = take_u64(bytes, at + 16);
        let w3 = take_u64(bytes, at + 24);
        let value = TraderState {
            base_lots_free: BaseLots(w0),
            base_lots_locked: BaseLots(w1),
            quote_lots_free: QuoteLots(w2),
            quote_lots_locked: QuoteLots(w3),
        };
        proof {
            assert(value.to_bytes() =~= bytes@.subrange(at as int, at + 32));
        }
        value
    }
}

impl Plain for LotConfig {
    open spec fn byte_len() -> nat {
        32
    }

    open spec fn to_bytes(self) -> Seq<u8> {
        u64_bytes(self.base_lots_per_base_unit)
            + u64_bytes(self.tick_size_in_quote_lots_per_base_unit)
            + u64_bytes(self.base_atoms_per_base_lot)
            + u64_bytes(self.quote_atoms_per_quote_lot)
    }

    proof fn lemma_byte_len(self) {
        lemma_u64(self.base_lots_per_base_unit);
        lemma_u64(self.tick_size_in_quote_lots_per_base_unit);
        lemma_u64(self.base_atoms_per_base_lot);
        lemma_u64(self.quote_atoms_per_quote_lot);
    }

    proof fn lemma_bytes_injective(self, other: Self) {
        lemma_u64(self.base_lots_per_base_unit);
        lemma_u64(other.base_lots_per_base_unit);
        lemma_u64(self.tick_size_in_quote_lots_per_base_unit);
        lemma_u64(other.tick_size_in_quote_lots_per_base_unit);
        lemma_u64(self.base_atoms_per_base_lot);
        lemma_u64(other.base_atoms_per_base_lot);
        lemma_u64(self.quote_atoms_per_quote_lot);
        lemma_u64(other.quote_atoms_per_quote_lot);
        lemma_parts_agree(
            u64_bytes(self.base_lots_per_base_unit) + u64_bytes(self.tick_size_in_quote_lots_per_base_unit) + u64_bytes(self.base_atoms_per_base_lot),
            u64_bytes(self.quote_atoms_per_quote_lot),
            u64_bytes(other.base_lots_per_base_unit) + u64_bytes(other.tick_size_in_quote_lots_per_base_unit) + u64_bytes(other.base_atoms_per_base_lot),
            u64_bytes(other.quote_atoms_per_quote_lot),
        );
        lemma_parts_agree(
            u64_bytes(self.base_lots_per_base_unit) + u64_bytes(self.tick_size_in_quote_lots_per_base_unit),
            u64_bytes(self.base_atoms_per_base_lot),
            u64_bytes(other.base_lots_per_base_unit) + u64_bytes(other.tick_size_in_quote_lots_per_base_unit),
            u64_bytes(other.base_atoms_per_base_lot),
        );
        lemma_parts_agree(
            u64_bytes(self.base_lots_per_base_unit),
            u64_bytes(self.tick_size_in_quote_lots_per_base_unit),
            u64_bytes(other.base_lots_per_base_unit),
            u64_bytes(other.tick_size_in_quote_lots_per_base_unit),
        );
    }

    fn size_in_bytes() -> (size: usize) {
        32
    }

    fn put(&self, out: &mut Vec<u8>) {
        put_u64(out, self.base_lots_per_base_unit);
        put_u64(out, self.tick_size_in_quote_lots_per_base_unit);
        put_u64(out, self.base_atoms_per_base_lot);
        put_u64(out, self.quote_atoms_per_quote_lot);
        proof {
            assert(out@ =~= old(out)@ + self.to_bytes());
        }
    }

    fn take(bytes: &[u8], at: usize) -> (value: Self) {
        let len = bytes.len();
        let w0 = take_u64(bytes, at);
        let w1 = take_u64(bytes, at + 8);
        let w2 = take_u64(bytes, at + 16);
        let w3 = take_u64(bytes, at + 24);
        let value = LotConfig {
            base_lots_per_base_unit: w0,
            tick_size_in_quote_lots_per_base_unit: w1,
            base_atoms_per_base_lot: w2,
            quote_atoms_per_quote_lot: w3,
        };
        proof {
            assert(value.to_bytes() =~= bytes@.subrange(at as int, at + 32));
        }
        value
    }
}

/// A trader's identity is its own bytes.
impl Plain for TraderKey {
    open spec fn byte_len() -> nat {
        32
    }

    open spec fn to_bytes(self) -> Seq<u8> {
        self.0@
    }

    proof fn lemma_byte_len(self) {
    }

    proof fn lemma_bytes_injective(self, other: Self) {
        assert(self.0 =~= other.0);
    }

    fn size_in_bytes() -> (size: usize) {
        32
    }

    fn put(&self, out: &mut Vec<u8>) {
        put_all(out, self.0.as_slice());
    }

    fn take(bytes: &[u8], at: usize) -> (value: Self) {
        TraderKey(take_array(bytes, at))
    }
}

impl Plain for MarketHeader {
    open spec fn byte_len() -> nat {
        72
    }

    open spec fn to_bytes(self) -> Seq<u8> {
        self.lot_config.to_bytes()
            + u64_bytes(self.fees.taker_fee_bps)
            + u64_bytes(self.base_lots_deposited.0)
            + u64_bytes(self.quote_lots_deposited.0)
            + u64_bytes(self.collected_quote_lot_fees.0)
            + u64_bytes(self.unclaimed_quote_lot_fees.0)
    }

    proof fn lemma_byte_len(self) {
        self.lot_config.lemma_byte_len();
        lemma_u64(self.fees.taker_fee_bps);
        lemma_u64(self.base_lots_deposited.0);
        lemma_u64(self.quote_lots_deposited.0);
        lemma_u64(self.collected_quote_lot_fees.0);
        lemma_u64(self.unclaimed_quote_lot_fees.0);
    }

    proof fn lemma_bytes_injective(self, other: Self) {
        self.lot_config.lemma_byte_len();
        other.lot_config.lemma_byte_len();
        lemma_u64(self.fees.taker_fee_bps);
        lemma_u64(other.fees.taker_fee_bps);
        lemma_u64(self.base_lots_deposited.0);
        lemma_u64(other.base_lots_deposited.0);
        lemma_u64(self.quote_lots_deposited.0);
        lemma_u64(other.quote_lots_deposited.0);
        lemma_u64(self.collected_quote_lot_fees.0);
        lemma_u64(other.collected_quote_lot_fees.0);
        lemma_u64(self.unclaimed_quote_lot_fees.0);
        lemma_u64(other.unclaimed_quote_lot_fees.0);
        lemma_parts_agree(
            self.lot_config.to_bytes() + u64_bytes(self.fees.taker_fee_bps) + u64_bytes(self.base_lots_deposited.0) + u64_bytes(self.quote_lots_deposited.0) + u64_bytes(self.collected_quote_lot_fees.0),
            u64_bytes(self.unclaimed_quote_lot_fees.0),
            other.lot_config.to_bytes() + u64_bytes(other.fees.taker_fee_bps) + u64_bytes(other.base_lots_deposited.0) + u64_bytes(other.quote_lots_deposited.0) + u64_bytes(other.collected_quote_lot_fees.0),
            u64_bytes(other.unclaimed_quote_lot_fees.0),
        );
        lemma_parts_agree(
            self.lot_config.to_bytes() + u64_bytes(self.fees.taker_fee_bps) + u64_bytes(self.base_lots_deposited.0) + u64_bytes(self.quote_lots_deposited.0),
            u64_bytes(self.collected_quote_lot_fees.0),
            other.lot_config.to_bytes() + u64_bytes(other.fees.taker_fee_bps) + u64_bytes(other.base_lots_deposited.0) + u64_bytes(other.quote_lots_deposited.0),
            u64_bytes(other.collected_quote_lot_fees.0),
        );
        lemma_parts_agree(
            self.lot_config.to_bytes() + u64_bytes(self.fees.taker_fee_bps) + u64_bytes(self.base_lots_deposited.0),
            u64_bytes(self.quote_lots_deposited.0),
            other.lot_config.to_bytes() + u64_bytes(other.fees.taker_fee_bps) + u64_bytes(other.base_lots_deposited.0),
            u64_bytes(other.quote_lots_deposited.0),
        );
        lemma_parts_agree(
            self.lot_config.to_bytes() + u64_bytes(self.fees.taker_fee_bps),
            u64_bytes(self.base_lots_deposited.0),
            other.lot_config.to_bytes() + u64_bytes(other.fees.taker_fee_bps),
            u64_bytes(other.base_lots_deposited.0),
        );
        lemma_parts_agree(
            self.lot_config.to_bytes(),
            u64_bytes(self.fees.taker_fee_bps),
            other.lot_config.to_bytes(),
            u64_bytes(other.fees.taker_fee_bps),
        );
        self.lot_config.lemma_bytes_injective(other.lot_config);
    }

    fn size_in_bytes() -> (size: usize) {
        72
    }

    fn put(&self, out: &mut Vec<u8>) {
        self.lot_config.put(out);
        put_u64(out, self.fees.taker_fee_bps);
        put_u64(out, self.base_lots_deposited.0);
        put_u64(out, self.quote_lots_deposited.0);
        put_u64(out, self.collected_quote_lot_fees.0);
        put_u64(out, self.unclaimed_quote_lot_fees.0);
        proof {
            assert(out@ =~= old(out)@ + self.to_bytes());
        }
    }

    fn take(bytes: &[u8], at: usize) -> (value: Self) {
        let len = bytes.len();
        let lot_config = LotConfig::take(bytes, at);
        let w0 = take_u64(bytes, at + 32);
        let w1 = take_u64(bytes, at + 40);
        let w2 = take_u64(bytes, at + 48);
        let w3 = take_u64(bytes, at + 56);
        let w4 = take_u64(bytes, at + 64);
        let value = MarketHeader {
            lot_config,
            fees: FeeSchedule { taker_fee_bps: w0 },
            base_lots_deposited: BaseLots(w1),
            quote_lots_deposited: QuoteLots(w2),
            collected_quote_lot_fees: QuoteLots(w3),
            unclaimed_quote_lot_fees: QuoteLots(w4),
        };
        proof {
            assert(value.to_bytes() =~= bytes@.subrange(at as int, at + 72));
        }
        value
    }
}

/// A slot is its links and colour, then its key and value.
impl<K: Plain, V: Plain> Plain for Node<K, V> {
    open spec fn byte_len() -> nat {
        16 + K::byte_len() + V::byte_len()
    }

    open spec fn to_bytes(self) -> Seq<u8> {
        u32_bytes(self.left)
            + u32_bytes(self.right)
            + u32_bytes(self.parent)
            + u32_bytes(self.color)
            + self.key.to_bytes()
            + self.value.to_bytes()
    }

    proof fn lemma_byte_len(self) {
        lemma_u32(self.left);
        lemma_u32(self.right);
        lemma_u32(self.parent);
        lemma_u32(self.color);
        self.key.lemma_byte_len();
        self.value.lemma_byte_len();
    }

    proof fn lemma_bytes_injective(self, other: Self) {
        lemma_links(self);
        lemma_links(other);
        self.key.lemma_byte_len();
        other.key.lemma_byte_len();
        lemma_parts_agree(
            link_bytes(self) + self.key.to_bytes(),
            self.value.to_bytes(),
            link_bytes(other) + other.key.to_bytes(),
            other.value.to_bytes(),
        );
        lemma_parts_agree(
            link_bytes(self),
            self.key.to_bytes(),
            link_bytes(other),
            other.key.to_bytes(),
        );
        self.key.lemma_bytes_injective(other.key);
        self.value.lemma_bytes_injective(other.value);
        lemma_parts_agree(
            u32_bytes(self.left) + u32_bytes(self.right) + u32_bytes(self.parent),
            u32_bytes(self.color),
            u32_bytes(other.left) + u32_bytes(other.right) + u32_bytes(other.parent),
            u32_bytes(other.color),
        );
        lemma_parts_agree(
            u32_bytes(self.left) + u32_bytes(self.right),
            u32_bytes(self.parent),
            u32_bytes(other.left) + u32_bytes(other.right),
            u32_bytes(other.parent),
        );
        lemma_parts_agree(
            u32_bytes(self.left),
            u32_bytes(self.right),
            u32_bytes(other.left),
            u32_bytes(other.right),
        );
    }

    fn size_in_bytes() -> (size: usize) {
        16 + K::size_in_bytes() + V::size_in_bytes()
    }

    fn put(&self, out: &mut Vec<u8>) {
        put_u32(out, self.left);
        put_u32(out, self.right);
        put_u32(out, self.parent);
        put_u32(out, self.color);
        self.key.put(out);
        self.value.put(out);
        proof {
            assert(out@ =~= old(out)@ + self.to_bytes());
        }
    }

    fn take(bytes: &[u8], at: usize) -> (value: Self) {
        let len = bytes.len();
        let left = take_u32(bytes, at);
        let right = take_u32(bytes, at + 4);
        let parent = take_u32(bytes, at + 8);
        let color = take_u32(bytes, at + 12);
        let key = K::take(bytes, at + 16);
        let at_value = at + 16 + K::size_in_bytes();
        let value = V::take(bytes, at_value);
        let node = Node { left, right, parent, color, key, value };
        proof {
            assert(node.to_bytes() =~= bytes@.subrange(at as int, at + Self::byte_len()));
        }
        node
    }
}

/// The bytes of a slot's links and colour.
spec fn link_bytes<K: Plain, V: Plain>(node: Node<K, V>) -> Seq<u8> {
    u32_bytes(node.left) + u32_bytes(node.right) + u32_bytes(node.parent) + u32_bytes(node.color)
}

/// Links and colour take sixteen bytes.
proof fn lemma_links<K: Plain, V: Plain>(node: Node<K, V>)
    ensures
        link_bytes(node).len() == 16,
        u32_bytes(node.left).len() == 4,
        u32_bytes(node.right).len() == 4,
        u32_bytes(node.parent).len() == 4,
        u32_bytes(node.color).len() == 4,
        u32_of(u32_bytes(node.left)) == node.left,
        u32_of(u32_bytes(node.right)) == node.right,
        u32_of(u32_bytes(node.parent)) == node.parent,
        u32_of(u32_bytes(node.color)) == node.color,
{
    lemma_u32(node.left);
    lemma_u32(node.right);
    lemma_u32(node.parent);
    lemma_u32(node.color);
}

} // verus!
