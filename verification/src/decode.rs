//! Reading subscriptions back from their wire form.
//!
//! What is read is exactly what the writers produce: bytes that are cut
//! short, that go on after the value has ended, or that spell a value in
//! another way than the writers do are refused.

use vstd::prelude::*;
use vstd::slice::{slice_subrange, slice_to_vec};
use vstd::utf8::{encode_utf8, encode_utf8_decode_utf8, encode_utf8_valid_utf8, valid_utf8};
use crate::feed_state::{FeedState, FeedStateView, SessionSummaryRecord, SessionSummaryRecordView};
use crate::item::{Item, ItemView};
use crate::scalars::{
    reads_as, seen, take_array_len, take_bool, take_optional_bool, take_optional_uint,
    take_str_len, take_uint,
};
use crate::subscription::{Subscription, SubscriptionView};
use crate::wire::{
    all_fit, join, lemma_join_push, lemma_join_take, lemma_stands_concat, lemma_stands_prefix,
    lemma_stands_whole, list_fits, list_wire, stands_at, ArrayLen, StrLen, Wire,
};

verus! {

/// What a list reader found at a position: the list whose wire form stands
/// there and the position after it, or nothing. It is nothing exactly when
/// no list of the element type stands there.
pub open spec fn list_reads_as<V: Wire>(bytes: Seq<u8>, at: int, r: Option<(Seq<V>, int)>) -> bool {
    &&& r matches Some((vs, next)) ==> list_fits(vs) && stands_at(bytes, at, list_wire(vs))
        && next == at + list_wire(vs).len()
    &&& forall|ws: Seq<V>|
        list_fits(ws) && stands_at(bytes, at, #[trigger] list_wire(ws)) ==> r is Some
            && r.unwrap().0 == ws
}

/// Calls `String::from_utf8`: the string whose bytes these are, which there
/// is exactly when the bytes are valid UTF-8.
#[verifier::external_body]
fn string_from_utf8(bytes: Vec<u8>) -> (r: Option<String>)
    ensures
        r is Some <==> valid_utf8(bytes@),
        r matches Some(text) ==> encode_utf8(text@) == bytes@,
{
    String::from_utf8(bytes).ok()
}

/// A type whose values can be read back from their wire form.
pub trait Decode: Sized + DeepView where Self::V: Wire {
    /// The value that stands at `at`, and the position after it.
    fn take(bytes: &[u8], at: usize) -> (r: Option<(Self, usize)>)
        requires
            at <= bytes@.len(),
        ensures
            reads_as::<Self::V>(bytes@, at as int, seen(r)),
    ;
}

/// The list that stands at `at`, and the position after it.
pub fn take_list<T: Decode>(bytes: &[u8], at: usize) -> (r: Option<(Vec<T>, usize)>) where
    T::V: Wire,

    requires
        at <= bytes@.len(),
    ensures
        list_reads_as::<T::V>(bytes@, at as int, seen(r)),
{
    let (count, start) = match take_array_len(bytes, at) {
        Some(found) => found,
        None => {
            assert forall|ws: Seq<T::V>|
                list_fits(ws) && stands_at(bytes@, at as int, #[trigger] list_wire(ws)) implies false by {
                lemma_stands_concat(bytes@, at as int, ArrayLen(ws.len() as u32).wire(), join(ws));
            }
            return None;
        },
    };
    let ghost head = ArrayLen(count).wire();
    let mut out: Vec<T> = Vec::new();
    let mut cur: usize = start;
    let mut i: u32 = 0;
    proof {
        assert(out.deep_view() =~= Seq::empty());
        assert(bytes@.subrange(start as int, start as int) =~= join(out.deep_view()));
    }
    while i < count
        invariant
            i <= count,
            at <= bytes@.len(),
            reads_as::<ArrayLen>(bytes@, at as int, Some((ArrayLen(count), start as int))),
            out.len() == i,
            start <= cur <= bytes@.len(),
            start == at + head.len(),
            head == ArrayLen(count).wire(),
            stands_at(bytes@, at as int, head),
            all_fit(out.deep_view()),
            stands_at(bytes@, start as int, join(out.deep_view())),
            cur == start + join(out.deep_view()).len(),
            forall|ws: Seq<T::V>|
                ws.len() == count && all_fit(ws) && stands_at(
                    bytes@,
                    start as int,
                    #[trigger] join(ws),
                ) ==> ws.take(i as int) == out.deep_view(),
        decreases count - i,
    {
        let ghost before = out.deep_view();
        match T::take(bytes, cur) {
            None => {
                assert forall|ws: Seq<T::V>|
                    list_fits(ws) && stands_at(
                        bytes@,
                        at as int,
                        #[trigger] list_wire(ws),
                    ) implies false by {
                    lemma_list_stands::<T::V>(bytes@, at as int, ws, count, start as int);
                    lemma_next_stands(bytes@, start as int, ws, i as int);
                }
                return None;
            },
            Some((value, next)) => {
                out.push(value);
                proof {
                    let v = value.deep_view();
                    assert(out.deep_view() =~= before.push(v));
                    lemma_join_push(before, v);
                    lemma_stands_concat(bytes@, start as int, join(before), v.wire());
                    assert forall|ws: Seq<T::V>|
                        ws.len() == count && all_fit(ws) && stands_at(
                            bytes@,
                            start as int,
                            #[trigger] join(ws),
                        ) implies ws.take(i + 1) == out.deep_view() by {
                        lemma_next_stands(bytes@, start as int, ws, i as int);
                        assert(ws.take(i + 1) =~= ws.take(i as int).push(ws[i as int]));
                    }
                }
                cur = next;
            },
        }
        i += 1;
    }
    proof {
        let vs = out.deep_view();
        lemma_stands_concat(bytes@, at as int, head, join(vs));
        assert forall|ws: Seq<T::V>|
            list_fits(ws) && stands_at(bytes@, at as int, #[trigger] list_wire(ws)) implies ws
            == vs by {
            lemma_list_stands::<T::V>(bytes@, at as int, ws, count, start as int);
            assert(ws.take(count as int) =~= ws);
        }
    }
    Some((out, cur))
}

/// Where a list stands and an array length was read, the length read is the
/// list's, and the elements stand after it.
proof fn lemma_list_stands<V: Wire>(bytes: Seq<u8>, at: int, ws: Seq<V>, count: u32, start: int)
    requires
        0 <= at <= bytes.len(),
        list_fits(ws),
        stands_at(bytes, at, list_wire(ws)),
        reads_as::<ArrayLen>(bytes, at, Some((ArrayLen(count), start))),
    ensures
        ws.len() == count,
        all_fit(ws),
        stands_at(bytes, start, join(ws)),
{
    let head = ArrayLen(ws.len() as u32);
    lemma_stands_concat(bytes, at, head.wire(), join(ws));
    assert(stands_at(bytes, at, head.wire()));
    assert(head == ArrayLen(count));
}

/// Where the elements of a list stand, element `k` stands after the first
/// `k` of them.
proof fn lemma_next_stands<V: Wire>(bytes: Seq<u8>, start: int, ws: Seq<V>, k: int)
    requires
        0 <= k < ws.len(),
        stands_at(bytes, start, join(ws)),
    ensures
        stands_at(bytes, start, join(ws.take(k))),
        stands_at(bytes, start + join(ws.take(k)).len(), ws[k].wire()),
{
    lemma_join_take(ws, k);
    lemma_stands_prefix(bytes, start, join(ws.take(k)) + ws[k].wire(), join(ws));
    lemma_stands_concat(bytes, start, join(ws.take(k)), ws[k].wire());
}

impl Decode for String {
    fn take(bytes: &[u8], at: usize) -> (r: Option<(String, usize)>) {
        let r: Option<(String, usize)> = match take_str_len(bytes, at) {
            None => None,
            Some((len, start)) => {
                if bytes.len() - start < len as usize {
                    None
                } else {
                    let data = slice_to_vec(slice_subrange(bytes, start, start + len as usize));
                    match string_from_utf8(data) {
                        Some(text) => {
                            proof {
                                lemma_stands_concat(
                                    bytes@,
                                    at as int,
                                    StrLen(len).wire(),
                                    encode_utf8(text@),
                                );
                            }
                            Some((text, start + len as usize))
                        },
                        None => None,
                    }
                }
            },
        };
        proof {
            assert forall|w: Seq<char>|
                w.fits() && stands_at(bytes@, at as int, #[trigger] w.wire()) implies seen(r)
                is Some && seen(r).unwrap().0 == w by {
                let head = StrLen(encode_utf8(w).len() as u32);
                lemma_stands_concat(bytes@, at as int, head.wire(), encode_utf8(w));
                assert(stands_at(bytes@, at as int, head.wire()));
                encode_utf8_valid_utf8(w);
                encode_utf8_decode_utf8(w);
                if r is Some {
                    encode_utf8_decode_utf8(r.unwrap().0@);
                }
            }
        }
        r
    }
}

/// An item stands at a position exactly when its parts stand there one
/// after the other.
proof fn lemma_item_stands(bytes: Seq<u8>, at: int, w: ItemView)
    ensures
        stands_at(bytes, at, w.wire()) <==> {
            let at_start = at + ArrayLen(2).wire().len();
            let at_second = at_start + w.title.wire().len();
            &&& stands_at(bytes, at, ArrayLen(2).wire())
            &&& stands_at(bytes, at_start, w.title.wire())
            &&& stands_at(bytes, at_second, list_wire(w.urls))
        },
        w.wire().len() == ArrayLen(2).wire().len() + w.title.wire().len() + list_wire(
            w.urls,
        ).len(),
{
    let a = ArrayLen(2).wire();
    let b = w.title.wire();
    let c = list_wire(w.urls);
    lemma_stands_concat(bytes, at, a + b, c);
    lemma_stands_concat(bytes, at, a, b);
}

impl Decode for Item {
    fn take(bytes: &[u8], at: usize) -> (r: Option<(Item, usize)>) {
        let r: Option<(Item, usize)> = match take_array_len(bytes, at) {
            Some((2, at_start)) => match String::take(bytes, at_start) {
                Some((title, at_second)) => match take_list::<String>(bytes, at_second) {
                    Some((urls, at_third)) => {
                        let item = Item::new(title, urls);
                        proof {
                            lemma_item_stands(bytes@, at as int, item@);
                        }
                        Some((item, at_third))
                    },
                    None => None,
                },
                None => None,
            },
            _ => None,
        };
        proof {
            assert forall|w: ItemView|
                w.fits() && stands_at(bytes@, at as int, #[trigger] w.wire()) implies seen(r)
                is Some && seen(r).unwrap().0 == w by {
                lemma_item_stands(bytes@, at as int, w);
            }
        }
        r
    }
}

/// A summary record stands at a position exactly when its parts stand there
/// one after the other.
proof fn lemma_record_stands(bytes: Seq<u8>, at: int, w: SessionSummaryRecordView)
    ensures
        stands_at(bytes, at, w.wire()) <==> {
            let at_start = at + ArrayLen(3).wire().len();
            let at_second = at_start + w.is_current_session.wire().len();
            let at_third = at_second + w.sequence_number.wire().len();
            &&& stands_at(bytes, at, ArrayLen(3).wire())
            &&& stands_at(bytes, at_start, w.is_current_session.wire())
            &&& stands_at(bytes, at_second, w.sequence_number.wire())
            &&& stands_at(bytes, at_third, w.name.wire())
        },
        w.wire().len() == ArrayLen(3).wire().len() + w.is_current_session.wire().len()
            + w.sequence_number.wire().len() + w.name.wire().len(),
{
    let a = ArrayLen(3).wire();
    let b = w.is_current_session.wire();
    let c = w.sequence_number.wire();
    let d = w.name.wire();
    lemma_stands_concat(bytes, at, a + b + c, d);
    lemma_stands_concat(bytes, at, a + b, c);
    lemma_stands_concat(bytes, at, a, b);
}

impl Decode for SessionSummaryRecord {
    fn take(bytes: &[u8], at: usize) -> (r: Option<(SessionSummaryRecord, usize)>) {
        let r: Option<(SessionSummaryRecord, usize)> = match take_array_len(bytes, at) {
            Some((3, at_start)) => match take_bool(bytes, at_start) {
                Some((is_current_session, at_second)) => match take_uint(bytes, at_second) {
                    Some((sequence_number, at_third)) => match String::take(bytes, at_third) {
                        Some((name, at_fourth)) => {
                            let record = SessionSummaryRecord {
                                is_current_session,
                                sequence_number,
                                name,
                            };
                            proof {
                                lemma_record_stands(bytes@, at as int, record@);
                            }
                            Some((record, at_fourth))
                        },
                        None => None,
                    },
                    None => None,
                },
                None => None,
            },
            _ => None,
        };
        proof {
            assert forall|w: SessionSummaryRecordView|
                w.fits() && stands_at(bytes@, at as int, #[trigger] w.wire()) implies seen(r)
                is Some && seen(r).unwrap().0 == w by {
                lemma_record_stands(bytes@, at as int, w);
            }
        }
        r
    }
}

/// A feed state stands at a position exactly when its parts stand there one
/// after the other.
proof fn lemma_feed_state_stands(bytes: Seq<u8>, at: int, w: FeedStateView)
    ensures
        stands_at(bytes, at, w.wire()) <==> {
            let at_start = at + ArrayLen(4).wire().len();
            let at_second = at_start + list_wire(w.entries).len();
            let at_third = at_second + list_wire(w.queue).len();
            let at_fourth = at_third + w.latest_entry_number.wire().len();
            &&& stands_at(bytes, at, ArrayLen(4).wire())
            &&& stands_at(bytes, at_start, list_wire(w.entries))
            &&& stands_at(bytes, at_second, list_wire(w.queue))
            &&& stands_at(bytes, at_third, w.latest_entry_number.wire())
            &&& stands_at(bytes, at_fourth, list_wire(w.summary_queue))
        },
        w.wire().len() == ArrayLen(4).wire().len() + list_wire(w.entries).len() + list_wire(
            w.queue,
        ).len() + w.latest_entry_number.wire().len() + list_wire(w.summary_queue).len(),
{
    let a = ArrayLen(4).wire();
    let b = list_wire(w.entries);
    let c = list_wire(w.queue);
    let d = w.latest_entry_number.wire();
    let e = list_wire(w.summary_queue);
    lemma_stands_concat(bytes, at, a + b + c + d, e);
    lemma_stands_concat(bytes, at, a + b + c, d);
    lemma_stands_concat(bytes, at, a + b, c);
    lemma_stands_concat(bytes, at, a, b);
}

impl Decode for FeedState {
    fn take(bytes: &[u8], at: usize) -> (r: Option<(FeedState, usize)>) {
        let r: Option<(FeedState, usize)> = match take_array_len(bytes, at) {
            Some((4, at_start)) => match take_list::<Item>(bytes, at_start) {
                Some((entries, at_second)) => match take_list::<Item>(bytes, at_second) {
                    Some((queue, at_third)) => match take_uint(bytes, at_third) {
                        Some((latest, at_fourth)) => match take_list::<SessionSummaryRecord>(bytes, at_fourth) {
                            Some((summary_queue, at_fifth)) => {
                                let state = FeedState::from_parts(
                                    entries,
                                    queue,
                                    latest,
                                    summary_queue,
                                );
                                proof {
                                    lemma_feed_state_stands(bytes@, at as int, state@);
                                }
                                Some((state, at_fifth))
                            },
                            None => None,
                        },
                        None => None,
                    },
                    None => None,
                },
                None => None,
            },
            _ => None,
        };
        proof {
            assert forall|w: FeedStateView|
                w.fits() && stands_at(bytes@, at as int, #[trigger] w.wire()) implies seen(r)
                is Some && seen(r).unwrap().0 == w by {
                lemma_feed_state_stands(bytes@, at as int, w);
            }
        }
        r
    }
}

/// The four strings at the head of a subscription.
struct Names {
    url: Seq<char>,
    original_url: Seq<char>,
    name: Seq<char>,
    directory: Seq<char>,
}

/// The four strings one after the other.
impl Wire for Names {
    closed spec fn fits(self) -> bool {
        self.url.fits() && self.original_url.fits() && self.name.fits() && self.directory.fits()
    }

    closed spec fn wire(self) -> Seq<u8> {
        self.url.wire() + self.original_url.wire() + self.name.wire() + self.directory.wire()
    }
}

/// What follows the four strings of a subscription.
struct Rest {
    backlog_limit: Option<u64>,
    use_title_as_filename: Option<bool>,
    feed_state: FeedStateView,
}

/// The two optional values and the state one after the other.
impl Wire for Rest {
    closed spec fn fits(self) -> bool {
        self.feed_state.fits()
    }

    closed spec fn wire(self) -> Seq<u8> {
        self.backlog_limit.wire() + self.use_title_as_filename.wire() + self.feed_state.wire()
    }
}

/// The four strings at the head of `w`.
spec fn names_of(w: SubscriptionView) -> Names {
    Names { url: w.url, original_url: w.original_url, name: w.name, directory: w.directory }
}

/// What follows the four strings of `w`.
spec fn rest_of(w: SubscriptionView) -> Rest {
    Rest {
        backlog_limit: w.backlog_limit,
        use_title_as_filename: w.use_title_as_filename,
        feed_state: w.feed_state,
    }
}

/// Four strings stand at a position exactly when they stand there one after
/// the other.
proof fn lemma_names_stand(bytes: Seq<u8>, at: int, w: Names)
    ensures
        stands_at(bytes, at, w.wire()) <==> {
            let at_second = at + w.url.wire().len();
            let at_third = at_second + w.original_url.wire().len();
            let at_fourth = at_third + w.name.wire().len();
            &&& stands_at(bytes, at, w.url.wire())
            &&& stands_at(bytes, at_second, w.original_url.wire())
            &&& stands_at(bytes, at_third, w.name.wire())
            &&& stands_at(bytes, at_fourth, w.directory.wire())
        },
        w.wire().len() == w.url.wire().len() + w.original_url.wire().len() + w.name.wire().len()
            + w.directory.wire().len(),
{
    let a = w.url.wire();
    let b = w.original_url.wire();
    let c = w.name.wire();
    let d = w.directory.wire();
    lemma_stands_concat(bytes, at, a + b + c, d);
    lemma_stands_concat(bytes, at, a + b, c);
    lemma_stands_concat(bytes, at, a, b);
}

/// The rest of a subscription stands at a position exactly when its parts
/// stand there one after the other.
proof fn lemma_rest_stands(bytes: Seq<u8>, at: int, w: Rest)
    ensures
        stands_at(bytes, at, w.wire()) <==> {
            let at_second = at + w.backlog_limit.wire().len();
            let at_third = at_second + w.use_title_as_filename.wire().len();
            &&& stands_at(bytes, at, w.backlog_limit.wire())
            &&& stands_at(bytes, at_second, w.use_title_as_filename.wire())
            &&& stands_at(bytes, at_third, w.feed_state.wire())
        },
        w.wire().len() == w.backlog_limit.wire().len() + w.use_title_as_filename.wire().len()
            + w.feed_state.wire().len(),
{
    let a = w.backlog_limit.wire();
    let b = w.use_title_as_filename.wire();
    let c = w.feed_state.wire();
    lemma_stands_concat(bytes, at, a + b, c);
    lemma_stands_concat(bytes, at, a, b);
}

/// A subscription is written as the count of its fields, its four strings
/// and the rest.
proof fn lemma_subscription_wire(w: SubscriptionView)
    ensures
        w.wire() == ArrayLen(7).wire() + names_of(w).wire() + rest_of(w).wire(),
        w.fits() == (names_of(w).fits() && rest_of(w).fits()),
{
    let a = ArrayLen(7).wire();
    let b = w.url.wire();
    let c = w.original_url.wire();
    let d = w.name.wire();
    let e = w.directory.wire();
    let f = w.backlog_limit.wire();
    let g = w.use_title_as_filename.wire();
    let h = w.feed_state.wire();
    assert(a + b + c + d + e =~= a + (b + c + d + e));
    assert(a + (b + c + d + e) + f + g + h =~= a + (b + c + d + e) + (f + g + h));
}

/// A subscription stands at a position exactly when the count of its fields,
/// its four strings and the rest stand there one after the other.
proof fn lemma_subscription_stands(bytes: Seq<u8>, at: int, w: SubscriptionView)
    ensures
        stands_at(bytes, at, w.wire()) <==> {
            let at_start = at + ArrayLen(7).wire().len();
            let at_second = at_start + names_of(w).wire().len();
            &&& stands_at(bytes, at, ArrayLen(7).wire())
            &&& stands_at(bytes, at_start, names_of(w).wire())
            &&& stands_at(bytes, at_second, rest_of(w).wire())
        },
        w.wire().len() == ArrayLen(7).wire().len() + names_of(w).wire().len() + rest_of(
            w,
        ).wire().len(),
        w.fits() == (names_of(w).fits() && rest_of(w).fits()),
{
    lemma_subscription_wire(w);
    let a = ArrayLen(7).wire();
    let b = names_of(w).wire();
    let c = rest_of(w).wire();
    lemma_stands_concat(bytes, at, a + b, c);
    lemma_stands_concat(bytes, at, a, b);
}

/// The result of reading four strings, by their mathematical value.
spec fn seen_names(r: Option<(String, String, String, String, usize)>) -> Option<
    (Names, int),
> {
    match r {
        Some((url, original_url, name, directory, next)) => Some(
            (
                Names {
                    url: url@,
                    original_url: original_url@,
                    name: name@,
                    directory: directory@,
                },
                next as int,
            ),
        ),
        None => None,
    }
}

/// The result of reading the rest of a subscription, by its mathematical
/// value.
spec fn seen_rest(r: Option<(Option<u64>, Option<bool>, FeedState, usize)>) -> Option<
    (Rest, int),
> {
    match r {
        Some((backlog_limit, use_title_as_filename, feed_state, next)) => Some(
            (Rest { backlog_limit, use_title_as_filename, feed_state: feed_state@ }, next as int),
        ),
        None => None,
    }
}

/// The four strings that stand one after the other from `at` on, and the
/// position after them.
fn take_names(bytes: &[u8], at: usize) -> (r: Option<(String, String, String, String, usize)>)
    requires
        at <= bytes@.len(),
    ensures
        reads_as::<Names>(bytes@, at as int, seen_names(r)),
{
    let r: Option<(String, String, String, String, usize)> = match String::take(bytes, at) {
        Some((a, at_second)) => match String::take(bytes, at_second) {
            Some((b, at_third)) => match String::take(bytes, at_third) {
                Some((c, at_fourth)) => match String::take(bytes, at_fourth) {
                    Some((d, at_fifth)) => {
                        proof {
                            lemma_names_stand(
                                bytes@,
                                at as int,
                                Names { url: a@, original_url: b@, name: c@, directory: d@ },
                            );
                        }
                        Some((a, b, c, d, at_fifth))
                    },
                    None => None,
                },
                None => None,
            },
            None => None,
        },
        None => None,
    };
    proof {
        assert forall|w: Names|
            w.fits() && stands_at(bytes@, at as int, #[trigger] w.wire()) implies seen_names(r)
            is Some && seen_names(r).unwrap().0 == w by {
            lemma_names_stand(bytes@, at as int, w);
        }
    }
    r
}

/// The two optional values and the state that stand one after the other
/// from `at` on, and the position after them.
fn take_rest(bytes: &[u8], at: usize) -> (r: Option<(Option<u64>, Option<bool>, FeedState, usize)>)
    requires
        at <= bytes@.len(),
    ensures
        reads_as::<Rest>(bytes@, at as int, seen_rest(r)),
{
    let r: Option<(Option<u64>, Option<bool>, FeedState, usize)> = match take_optional_uint(
        bytes,
        at,
    ) {
        Some((a, at_second)) => match take_optional_bool(bytes, at_second) {
            Some((b, at_third)) => match FeedState::take(bytes, at_third) {
                Some((c, at_fourth)) => {
                    proof {
                        lemma_rest_stands(
                            bytes@,
                            at as int,
                            Rest { backlog_limit: a, use_title_as_filename: b, feed_state: c@ },
                        );
                    }
                    Some((a, b, c, at_fourth))
                },
                None => None,
            },
            None => None,
        },
        None => None,
    };
    proof {
        assert forall|w: Rest|
            w.fits() && stands_at(bytes@, at as int, #[trigger] w.wire()) implies seen_rest(r)
            is Some && seen_rest(r).unwrap().0 == w by {
            lemma_rest_stands(bytes@, at as int, w);
        }
    }
    r
}

impl Decode for Subscription {
    fn take(bytes: &[u8], at: usize) -> (r: Option<(Subscription, usize)>) {
        let r: Option<(Subscription, usize)> = match take_array_len(bytes, at) {
            Some((7, at_start)) => match take_names(bytes, at_start) {
                Some((url, original_url, name, directory, at_second)) => match take_rest(bytes, at_second) {
                    Some((backlog_limit, use_title_as_filename, feed_state, at_third)) => {
                        let sub = Subscription::from_parts(
                            url,
                            original_url,
                            name,
                            directory,
                            backlog_limit,
                            use_title_as_filename,
                            feed_state,
                        );
                        proof {
                            lemma_subscription_stands(bytes@, at as int, sub@);
                        }
                        Some((sub, at_third))
                    },
                    None => None,
                },
                None => None,
            },
            _ => None,
        };
        proof {
            assert forall|w: SubscriptionView|
                w.fits() && stands_at(bytes@, at as int, #[trigger] w.wire()) implies seen(r)
                is Some && seen(r).unwrap().0 == w by {
                lemma_subscription_stands(bytes@, at as int, w);
                assert(stands_at(bytes@, at as int, ArrayLen(7).wire()));
                if r is Some {
                    assert(names_of(r.unwrap().0@) == names_of(w));
                    assert(rest_of(r.unwrap().0@) == rest_of(w));
                }
            }
        }
        r
    }
}

/// What decoding a whole byte string gave: the value whose wire form the
/// bytes are, or nothing. It is nothing exactly when the bytes are the wire
/// form of no value of the type.
pub open spec fn decodes_as<V: Wire>(bytes: Seq<u8>, r: Option<V>) -> bool {
    &&& r matches Some(v) ==> v.fits() && bytes == v.wire()
    &&& forall|w: V| w.fits() && bytes == #[trigger] w.wire() ==> r == Some(w)
}

/// What decoding a whole byte string as a list gave: the list whose wire
/// form the bytes are, or nothing. It is nothing exactly when the bytes are
/// the wire form of no list of the element type.
pub open spec fn list_decodes_as<V: Wire>(bytes: Seq<u8>, r: Option<Seq<V>>) -> bool {
    &&& r matches Some(vs) ==> list_fits(vs) && bytes == list_wire(vs)
    &&& forall|ws: Seq<V>| list_fits(ws) && bytes == #[trigger] list_wire(ws) ==> r == Some(ws)
}

/// The mathematical value of what `deserialize` returns.
pub open spec fn decoded(r: Option<Subscription>) -> Option<SubscriptionView> {
    match r {
        Some(sub) => Some(sub@),
        None => None,
    }
}

/// The mathematical value of what `vec_deserialize` returns.
pub open spec fn decoded_list(r: Option<Vec<Subscription>>) -> Option<Seq<SubscriptionView>> {
    match r {
        Some(subs) => Some(subs.deep_view()),
        None => None,
    }
}

/// The subscription that the bytes are the wire form of. There is none
/// where the bytes are cut short, go on after the subscription has ended, or
/// are not what `serialize` writes for any subscription.
pub fn deserialize(sub_vec: &Vec<u8>) -> (r: Option<Subscription>)
    ensures
        decodes_as::<SubscriptionView>(sub_vec@, decoded(r)),
{
    let bytes = sub_vec.as_slice();
    let r: Option<Subscription> = match Subscription::take(bytes, 0) {
        Some((sub, next)) => if next == bytes.len() {
            Some(sub)
        } else {
            None
        },
        None => None,
    };
    proof {
        if r is Some {
            lemma_stands_whole(bytes@, r.unwrap()@.wire());
        }
        assert forall|w: SubscriptionView|
            w.fits() && bytes@ == #[trigger] w.wire() implies decoded(r) == Some(w) by {
            lemma_stands_whole(bytes@, w.wire());
        }
    }
    r
}

/// The list of subscriptions that the bytes are the wire form of. There is
/// none where the bytes are cut short, go on after the list has ended, or
/// are not what `vec_serialize` writes for any list.
pub fn vec_deserialize(sub_vec: &Vec<u8>) -> (r: Option<Vec<Subscription>>)
    ensures
        list_decodes_as::<SubscriptionView>(sub_vec@, decoded_list(r)),
{
    let bytes = sub_vec.as_slice();
    let r: Option<Vec<Subscription>> = match take_list::<Subscription>(bytes, 0) {
        Some((subs, next)) => if next == bytes.len() {
            Some(subs)
        } else {
            None
        },
        None => None,
    };
    proof {
        if r is Some {
            lemma_stands_whole(bytes@, list_wire(r.unwrap().deep_view()));
        }
        assert forall|ws: Seq<SubscriptionView>|
            list_fits(ws) && bytes@ == #[trigger] list_wire(ws) implies decoded_list(r) == Some(
            ws,
        ) by {
            lemma_stands_whole(bytes@, list_wire(ws));
        }
    }
    r
}

} // verus!
