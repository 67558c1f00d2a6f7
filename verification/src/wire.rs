//! The persisted binary form, as a function from values to bytes.
//!
//! A subscription is written as MessagePack in its compact representation:
//! every record is an array of its fields in declaration order, every list an
//! array of its elements, every number and length takes the shortest form
//! that holds it, and an absent optional value is nil.

use vstd::prelude::*;
use vstd::utf8::encode_utf8;
use crate::feed_state::{FeedStateView, SessionSummaryRecordView};
use crate::item::ItemView;
use crate::subscription::SubscriptionView;

verus! {

/// A value with a wire form.
pub trait Wire: Sized {
    /// Whether the value can be written: whether every length in it fits
    /// the 32 bits that the format has for a length.
    spec fn fits(self) -> bool;

    /// The bytes that stand for the value.
    spec fn wire(self) -> Seq<u8>;
}

/// The two bytes of `v`, high byte first.
pub open spec fn be16(v: int) -> Seq<u8> {
    seq![(v / 0x100 % 0x100) as u8, (v % 0x100) as u8]
}

/// The four bytes of `v`, highest byte first.
pub open spec fn be32(v: int) -> Seq<u8> {
    be16(v / 0x1_0000) + be16(v % 0x1_0000)
}

/// The eight bytes of `v`, highest byte first.
pub open spec fn be64(v: int) -> Seq<u8> {
    be32(v / 0x1_0000_0000) + be32(v % 0x1_0000_0000)
}

impl Wire for bool {
    open spec fn fits(self) -> bool {
        true
    }

    open spec fn wire(self) -> Seq<u8> {
        if self {
            seq![0xc3u8]
        } else {
            seq![0xc2u8]
        }
    }
}

impl Wire for u64 {
    open spec fn fits(self) -> bool {
        true
    }

    open spec fn wire(self) -> Seq<u8> {
        if self < 0x80 {
            seq![self as u8]
        } else if self < 0x100 {
            seq![0xccu8, self as u8]
        } else if self < 0x1_0000 {
            seq![0xcdu8] + be16(self as int)
        } else if self < 0x1_0000_0000 {
            seq![0xceu8] + be32(self as int)
        } else {
            seq![0xcfu8] + be64(self as int)
        }
    }
}

impl Wire for Option<u64> {
    open spec fn fits(self) -> bool {
        true
    }

    open spec fn wire(self) -> Seq<u8> {
        match self {
            Some(v) => v.wire(),
            None => seq![0xc0u8],
        }
    }
}

impl Wire for Option<bool> {
    open spec fn fits(self) -> bool {
        true
    }

    open spec fn wire(self) -> Seq<u8> {
        match self {
            Some(v) => v.wire(),
            None => seq![0xc0u8],
        }
    }
}

/// The length of a string, in bytes, as it stands before the string.
pub struct StrLen(pub u32);

/// The number of elements of an array, as it stands before the elements.
pub struct ArrayLen(pub u32);

impl Wire for StrLen {
    open spec fn fits(self) -> bool {
        true
    }

    open spec fn wire(self) -> Seq<u8> {
        let n = self.0;
        if n < 32 {
            seq![(0xa0 + n) as u8]
        } else if n < 0x100 {
            seq![0xd9u8, n as u8]
        } else if n < 0x1_0000 {
            seq![0xdau8] + be16(n as int)
        } else {
            seq![0xdbu8] + be32(n as int)
        }
    }
}

impl Wire for ArrayLen {
    open spec fn fits(self) -> bool {
        true
    }

    open spec fn wire(self) -> Seq<u8> {
        let n = self.0;
        if n < 16 {
            seq![(0x90 + n) as u8]
        } else if n < 0x1_0000 {
            seq![0xdcu8] + be16(n as int)
        } else {
            seq![0xddu8] + be32(n as int)
        }
    }
}

/// A string: its length in bytes, then its UTF-8 encoding.
impl Wire for Seq<char> {
    open spec fn fits(self) -> bool {
        encode_utf8(self).len() <= u32::MAX
    }

    open spec fn wire(self) -> Seq<u8> {
        StrLen(encode_utf8(self).len() as u32).wire() + encode_utf8(self)
    }
}

/// The wire forms of `items`, one after the other.
pub open spec fn join<T: Wire>(items: Seq<T>) -> Seq<u8>
    decreases items.len(),
{
    if items.len() == 0 {
        Seq::empty()
    } else {
        join(items.drop_last()) + items.last().wire()
    }
}

/// Whether each of `items` can be written.
pub open spec fn all_fit<T: Wire>(items: Seq<T>) -> bool {
    forall|i: int| 0 <= i < items.len() ==> (#[trigger] items[i]).fits()
}

/// Whether `items` can be written as a list.
pub open spec fn list_fits<T: Wire>(items: Seq<T>) -> bool {
    items.len() <= u32::MAX && all_fit(items)
}

/// A list: the number of its elements, then the elements in order.
pub open spec fn list_wire<T: Wire>(items: Seq<T>) -> Seq<u8> {
    ArrayLen(items.len() as u32).wire() + join(items)
}

/// An item: an array of its title and its list of locations.
impl Wire for ItemView {
    open spec fn fits(self) -> bool {
        self.title.fits() && list_fits(self.urls)
    }

    open spec fn wire(self) -> Seq<u8> {
        ArrayLen(2).wire() + self.title.wire() + list_wire(self.urls)
    }
}

/// A summary record: an array of its flag, its number and its name.
impl Wire for SessionSummaryRecordView {
    open spec fn fits(self) -> bool {
        self.name.fits()
    }

    open spec fn wire(self) -> Seq<u8> {
        ArrayLen(3).wire() + self.is_current_session.wire() + self.sequence_number.wire()
            + self.name.wire()
    }
}

/// A feed state: an array of its entries, its queue, its highest number and
/// its summary log.
impl Wire for FeedStateView {
    open spec fn fits(self) -> bool {
        list_fits(self.entries) && list_fits(self.queue) && list_fits(self.summary_queue)
    }

    open spec fn wire(self) -> Seq<u8> {
        ArrayLen(4).wire() + list_wire(self.entries) + list_wire(self.queue)
            + self.latest_entry_number.wire() + list_wire(self.summary_queue)
    }
}

/// A subscription: an array of its seven fields in declaration order.
impl Wire for SubscriptionView {
    open spec fn fits(self) -> bool {
        self.url.fits() && self.original_url.fits() && self.name.fits() && self.directory.fits()
            && self.feed_state.fits()
    }

    open spec fn wire(self) -> Seq<u8> {
        ArrayLen(7).wire() + self.url.wire() + self.original_url.wire() + self.name.wire()
            + self.directory.wire() + self.backlog_limit.wire()
            + self.use_title_as_filename.wire() + self.feed_state.wire()
    }
}

/// Whether `part` stands in `bytes` from position `at` on.
pub open spec fn stands_at(bytes: Seq<u8>, at: int, part: Seq<u8>) -> bool {
    0 <= at && at + part.len() <= bytes.len() && bytes.subrange(at, at + part.len()) == part
}

/// Two parts stand one after the other exactly when their concatenation
/// stands where the first begins.
pub proof fn lemma_stands_concat(bytes: Seq<u8>, at: int, a: Seq<u8>, b: Seq<u8>)
    ensures
        stands_at(bytes, at, a + b) <==> stands_at(bytes, at, a) && stands_at(
            bytes,
            at + a.len(),
            b,
        ),
{
    if stands_at(bytes, at, a + b) {
        assert(bytes.subrange(at, at + a.len()) =~= (a + b).subrange(0, a.len() as int));
        assert((a + b).subrange(0, a.len() as int) =~= a);
        assert(bytes.subrange(at + a.len(), at + a.len() + b.len()) =~= (a + b).subrange(
            a.len() as int,
            (a + b).len() as int,
        ));
        assert((a + b).subrange(a.len() as int, (a + b).len() as int) =~= b);
    }
    if stands_at(bytes, at, a) && stands_at(bytes, at + a.len(), b) {
        assert(bytes.subrange(at, at + (a + b).len()) =~= a + b);
    }
}

/// A part that stands at a position agrees with the bytes there one by one.
pub proof fn lemma_stands_index(bytes: Seq<u8>, at: int, part: Seq<u8>, i: int)
    requires
        stands_at(bytes, at, part),
        0 <= i < part.len(),
    ensures
        bytes[at + i] == part[i],
{
    assert(bytes.subrange(at, at + part.len())[i] == bytes[at + i]);
}

/// A part that begins a part that stands at a position stands there too.
pub proof fn lemma_stands_prefix(bytes: Seq<u8>, at: int, part: Seq<u8>, whole: Seq<u8>)
    requires
        stands_at(bytes, at, whole),
        part.is_prefix_of(whole),
    ensures
        stands_at(bytes, at, part),
{
    assert(bytes.subrange(at, at + part.len()) =~= whole.subrange(0, part.len() as int)) by {
        assert forall|i: int| 0 <= i < part.len() implies bytes.subrange(at, at + part.len())[i]
            == whole[i] by {
            lemma_stands_index(bytes, at, whole, i);
        }
    }
    assert(whole.subrange(0, part.len() as int) =~= part);
}

/// A part stands at the start of a byte string and ends with it exactly when
/// it is the byte string.
pub proof fn lemma_stands_whole(bytes: Seq<u8>, part: Seq<u8>)
    ensures
        bytes == part <==> stands_at(bytes, 0, part) && part.len() == bytes.len(),
{
    if bytes == part {
        assert(bytes.subrange(0, part.len() as int) =~= part);
    }
    if stands_at(bytes, 0, part) && part.len() == bytes.len() {
        assert(bytes.subrange(0, part.len() as int) =~= bytes);
    }
}

/// Joining one more element appends its wire form.
pub proof fn lemma_join_push<T: Wire>(items: Seq<T>, last: T)
    ensures
        join(items.push(last)) == join(items) + last.wire(),
{
    assert(items.push(last).drop_last() =~= items);
}

/// The join of the first `k` elements begins the join of all of them, and
/// where `k` is not the end, the wire form of element `k` comes next.
pub proof fn lemma_join_take<T: Wire>(items: Seq<T>, k: int)
    requires
        0 <= k <= items.len(),
    ensures
        join(items.take(k)).is_prefix_of(join(items)),
        k < items.len() ==> (join(items.take(k)) + items[k].wire()).is_prefix_of(join(items)),
    decreases items.len(),
{
    if k == items.len() {
        assert(items.take(k) =~= items);
    } else {
        let front = items.drop_last();
        if k == items.len() - 1 {
            assert(items.take(k) =~= front);
        } else {
            lemma_join_take(front, k);
            assert(front.take(k) =~= items.take(k));
            assert(front[k] == items[k]);
        }
    }
}

} // verus!
