//! Writing values in their wire form.

use vstd::prelude::*;
use vstd::utf8::encode_utf8;
use crate::feed_state::{FeedState, SessionSummaryRecord};
use crate::item::Item;
use crate::subscription::{Subscription, SubscriptionView};
use crate::wire::{lemma_join_push, join, list_fits, list_wire, ArrayLen, StrLen, Wire};

verus! {

/// Appends what `rmp::encode::write_nil` writes: the one byte that stands
/// for nil.
#[verifier::external_body]
fn put_nil(buf: &mut Vec<u8>)
    ensures
        final(buf)@ == old(buf)@ + seq![0xc0u8],
{
    let mut out = rmp::encode::ByteBuf::from_vec(std::mem::take(buf));
    let _ = rmp::encode::write_nil(&mut out);
    *buf = out.into_vec();
}

/// Appends what `rmp::encode::write_bool` writes: one byte, which tells
/// true from false.
#[verifier::external_body]
fn put_bool(buf: &mut Vec<u8>, value: bool)
    ensures
        final(buf)@ == old(buf)@ + value.wire(),
{
    let mut out = rmp::encode::ByteBuf::from_vec(std::mem::take(buf));
    let _ = rmp::encode::write_bool(&mut out, value);
    *buf = out.into_vec();
}

/// Appends what `rmp::encode::write_uint` writes: the number in the shortest
/// of the five unsigned forms that holds it, big-endian.
#[verifier::external_body]
fn put_uint(buf: &mut Vec<u8>, value: u64)
    ensures
        final(buf)@ == old(buf)@ + value.wire(),
{
    let mut out = rmp::encode::ByteBuf::from_vec(std::mem::take(buf));
    let _ = rmp::encode::write_uint(&mut out, value);
    *buf = out.into_vec();
}

/// Appends what `rmp::encode::write_array_len` writes: the element count in
/// the shortest of the three array headers that holds it.
#[verifier::external_body]
fn put_array_len(buf: &mut Vec<u8>, len: u32)
    ensures
        final(buf)@ == old(buf)@ + ArrayLen(len).wire(),
{
    let mut out = rmp::encode::ByteBuf::from_vec(std::mem::take(buf));
    let _ = rmp::encode::write_array_len(&mut out, len);
    *buf = out.into_vec();
}

/// Appends what `rmp::encode::write_str` writes: the length of the string in
/// bytes, in the shortest of the four string headers that holds it, then the
/// bytes of the string. The length must fit in 32 bits, since the outside
/// function cuts it to that.
#[verifier::external_body]
fn put_str(buf: &mut Vec<u8>, text: &str)
    requires
        encode_utf8(text@).len() <= u32::MAX,
    ensures
        final(buf)@ == old(buf)@ + StrLen(encode_utf8(text@).len() as u32).wire() + encode_utf8(
            text@,
        ),
{
    let mut out = rmp::encode::ByteBuf::from_vec(std::mem::take(buf));
    let _ = rmp::encode::write_str(&mut out, text);
    *buf = out.into_vec();
}

/// Appending two parts in turn appends their concatenation.
proof fn lemma_append_twice(start: Seq<u8>, a: Seq<u8>, b: Seq<u8>)
    ensures
        (start + a) + b == start + (a + b),
{
    assert((start + a) + b =~= start + (a + b));
}

/// A type whose values can be written in their wire form.
pub trait Encode: Sized + DeepView where Self::V: Wire {
    /// Whether the value can be written.
    fn fits_wire(&self) -> (r: bool)
        ensures
            r == self.deep_view().fits(),
    ;

    /// Appends the wire form of the value to `buf`.
    fn put(&self, buf: &mut Vec<u8>)
        requires
            self.deep_view().fits(),
        ensures
            final(buf)@ == old(buf)@ + self.deep_view().wire(),
    ;
}

/// Whether the list can be written.
pub fn list_fits_wire<T: Encode>(list: &Vec<T>) -> (r: bool) where T::V: Wire
    ensures
        r == list_fits(list.deep_view()),
{
    if list.len() as u64 > 0xffff_ffff {
        return false;
    }
    let mut i: usize = 0;
    while i < list.len()
        invariant
            i <= list.len(),
            forall|j: int| 0 <= j < i ==> (#[trigger] list.deep_view()[j]).fits(),
        decreases list.len() - i,
    {
        if !list[i].fits_wire() {
            assert(!list.deep_view()[i as int].fits());
            return false;
        }
        i += 1;
    }
    true
}

/// Appends the wire form of the list to `buf`.
pub fn put_list<T: Encode>(buf: &mut Vec<u8>, list: &Vec<T>) where T::V: Wire
    requires
        list_fits(list.deep_view()),
    ensures
        final(buf)@ == old(buf)@ + list_wire(list.deep_view()),
{
    let ghost all = list.deep_view();
    put_array_len(buf, list.len() as u32);
    let mut i: usize = 0;
    assert(all.take(0) =~= Seq::empty());
    while i < list.len()
        invariant
            i <= list.len(),
            all == list.deep_view(),
            list_fits(all),
            buf@ == old(buf)@ + ArrayLen(all.len() as u32).wire() + join(all.take(i as int)),
        decreases list.len() - i,
    {
        proof {
            lemma_join_push(all.take(i as int), all[i as int]);
            assert(all.take(i + 1) =~= all.take(i as int).push(all[i as int]));
            assert(all[i as int].fits());
        }
        list[i].put(buf);
        i += 1;
    }
    assert(all.take(i as int) =~= all);
}

impl Encode for String {
    fn fits_wire(&self) -> (r: bool) {
        self.as_str().as_bytes().len() as u64 <= 0xffff_ffff
    }

    fn put(&self, buf: &mut Vec<u8>) {
        put_str(buf, self.as_str());
    }
}

impl Encode for Item {
    fn fits_wire(&self) -> (r: bool) {
        self.title().fits_wire() && list_fits_wire(self.urls())
    }

    fn put(&self, buf: &mut Vec<u8>) {
        put_array_len(buf, 2);
        self.title().put(buf);
        put_list(buf, self.urls());
    }
}

impl Encode for SessionSummaryRecord {
    fn fits_wire(&self) -> (r: bool) {
        self.name.fits_wire()
    }

    fn put(&self, buf: &mut Vec<u8>) {
        put_array_len(buf, 3);
        put_bool(buf, self.is_current_session);
        put_uint(buf, self.sequence_number);
        self.name.put(buf);
    }
}

impl Encode for FeedState {
    fn fits_wire(&self) -> (r: bool) {
        list_fits_wire(self.entries()) && list_fits_wire(self.queue()) && list_fits_wire(
            self.summary_queue(),
        )
    }

    fn put(&self, buf: &mut Vec<u8>) {
        put_array_len(buf, 4);
        put_list(buf, self.entries());
        put_list(buf, self.queue());
        put_uint(buf, self.latest_entry_number());
        put_list(buf, self.summary_queue());
    }
}

/// Appends the wire form of an optional number to `buf`.
fn put_optional_uint(buf: &mut Vec<u8>, value: Option<u64>)
    ensures
        final(buf)@ == old(buf)@ + value.wire(),
{
    match value {
        Some(v) => put_uint(buf, v),
        None => put_nil(buf),
    }
}

/// Appends the wire form of an optional flag to `buf`.
fn put_optional_bool(buf: &mut Vec<u8>, value: Option<bool>)
    ensures
        final(buf)@ == old(buf)@ + value.wire(),
{
    match value {
        Some(v) => put_bool(buf, v),
        None => put_nil(buf),
    }
}

impl Encode for Subscription {
    fn fits_wire(&self) -> (r: bool) {
        self.url().fits_wire() && self.original_url().fits_wire() && self.name().fits_wire()
            && self.directory().fits_wire() && self.feed_state().fits_wire()
    }

    fn put(&self, buf: &mut Vec<u8>) {
        let ghost v = self@;
        put_array_len(buf, 7);
        let ghost done = ArrayLen(7).wire();
        self.url().put(buf);
        proof {
            lemma_append_twice(old(buf)@, done, v.url.wire());
            done = done + v.url.wire();
        }
        self.original_url().put(buf);
        proof {
            lemma_append_twice(old(buf)@, done, v.original_url.wire());
            done = done + v.original_url.wire();
        }
        self.name().put(buf);
        proof {
            lemma_append_twice(old(buf)@, done, v.name.wire());
            done = done + v.name.wire();
        }
        self.directory().put(buf);
        proof {
            lemma_append_twice(old(buf)@, done, v.directory.wire());
            done = done + v.directory.wire();
        }
        put_optional_uint(buf, self.backlog_limit());
        proof {
            lemma_append_twice(old(buf)@, done, v.backlog_limit.wire());
            done = done + v.backlog_limit.wire();
        }
        put_optional_bool(buf, self.use_title_as_filename());
        proof {
            lemma_append_twice(old(buf)@, done, v.use_title_as_filename.wire());
            done = done + v.use_title_as_filename.wire();
        }
        self.feed_state().put(buf);
        proof {
            lemma_append_twice(old(buf)@, done, v.feed_state.wire());
        }
    }
}

/// The bytes that stand for one subscription. A subscription that cannot be
/// written has none.
pub open spec fn serialized(sub: SubscriptionView) -> Seq<u8> {
    if sub.fits() {
        sub.wire()
    } else {
        Seq::empty()
    }
}

/// The bytes that stand for a list of subscriptions. A list that cannot be
/// written has none.
pub open spec fn serialized_list(subs: Seq<SubscriptionView>) -> Seq<u8> {
    if list_fits(subs) {
        list_wire(subs)
    } else {
        Seq::empty()
    }
}

/// The wire form of one subscription, or no bytes at all where a string or a
/// list in it is too long to be written. The wire form itself is never
/// empty.
pub fn serialize(sub: &Subscription) -> (r: Vec<u8>)
    ensures
        r@ == serialized(sub@),
        sub@.fits() ==> r@.len() > 0,
{
    let mut buf: Vec<u8> = Vec::new();
    if sub.fits_wire() {
        sub.put(&mut buf);
        assert(buf@ =~= sub@.wire());
    }
    buf
}

/// The wire form of a list of subscriptions, or no bytes at all where the
/// list or something in it is too long to be written. The wire form itself
/// is never empty, not even that of the empty list.
pub fn vec_serialize(subs: &Vec<Subscription>) -> (r: Vec<u8>)
    ensures
        r@ == serialized_list(subs.deep_view()),
        list_fits(subs.deep_view()) ==> r@.len() > 0,
{
    let mut buf: Vec<u8> = Vec::new();
    if list_fits_wire(subs) {
        put_list(&mut buf, subs);
        assert(buf@ =~= list_wire(subs.deep_view()));
    }
    buf
}

} // verus!
