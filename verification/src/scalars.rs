//! Reading numbers, flags and lengths back from their wire form.
//!
//! Every reader accepts exactly the bytes that the writers produce and
//! nothing else: a number or a length in a longer form than it needs is
//! refused.

use vstd::prelude::*;
use crate::wire::{
    be16, be32, be64, lemma_stands_concat, lemma_stands_index, stands_at, ArrayLen, StrLen, Wire,
};

verus! {

/// What a reader found at a position: the value whose wire form stands there
/// and the position after it, or nothing.
///
/// `reads_as(bytes, at, r)` says that `r` is right: what it holds does stand
/// at `at`, and whatever value stands at `at` is the one it holds. So `r` is
/// nothing exactly when no value of the type stands there.
pub open spec fn reads_as<V: Wire>(bytes: Seq<u8>, at: int, r: Option<(V, int)>) -> bool {
    &&& r matches Some((v, next)) ==> v.fits() && stands_at(bytes, at, v.wire()) && next == at
        + v.wire().len()
    &&& forall|w: V|
        w.fits() && stands_at(bytes, at, #[trigger] w.wire()) ==> r is Some && r.unwrap().0 == w
}

/// A reader's result, by the mathematical value of what was read.
pub open spec fn seen<T: DeepView>(r: Option<(T, usize)>) -> Option<(T::V, int)> {
    match r {
        Some((v, next)) => Some((v.deep_view(), next as int)),
        None => None,
    }
}

/// A reader's result, where what was read is the length of a string.
pub open spec fn seen_str_len(r: Option<(u32, usize)>) -> Option<(StrLen, int)> {
    match r {
        Some((n, next)) => Some((StrLen(n), next as int)),
        None => None,
    }
}

/// A reader's result, where what was read is the length of an array.
pub open spec fn seen_array_len(r: Option<(u32, usize)>) -> Option<(ArrayLen, int)> {
    match r {
        Some((n, next)) => Some((ArrayLen(n), next as int)),
        None => None,
    }
}

/// Two numbers below 2^16 with the same two bytes are the same.
proof fn lemma_be16_unique(a: int, b: int)
    requires
        0 <= a < 0x1_0000,
        0 <= b < 0x1_0000,
        be16(a) == be16(b),
    ensures
        a == b,
{
    assert(be16(a)[0] == be16(b)[0]);
    assert(be16(a)[1] == be16(b)[1]);
}

/// Two numbers below 2^32 with the same four bytes are the same.
proof fn lemma_be32_unique(a: int, b: int)
    requires
        0 <= a < 0x1_0000_0000,
        0 <= b < 0x1_0000_0000,
        be32(a) == be32(b),
    ensures
        a == b,
{
    let (ah, al) = (a / 0x1_0000, a % 0x1_0000);
    let (bh, bl) = (b / 0x1_0000, b % 0x1_0000);
    assert(be16(ah) =~= be32(a).subrange(0, 2));
    assert(be16(al) =~= be32(a).subrange(2, 4));
    assert(be16(bh) =~= be32(b).subrange(0, 2));
    assert(be16(bl) =~= be32(b).subrange(2, 4));
    lemma_be16_unique(ah, bh);
    lemma_be16_unique(al, bl);
}

/// Two numbers below 2^64 with the same eight bytes are the same.
proof fn lemma_be64_unique(a: int, b: int)
    requires
        0 <= a < 0x1_0000_0000_0000_0000,
        0 <= b < 0x1_0000_0000_0000_0000,
        be64(a) == be64(b),
    ensures
        a == b,
{
    let (ah, al) = (a / 0x1_0000_0000, a % 0x1_0000_0000);
    let (bh, bl) = (b / 0x1_0000_0000, b % 0x1_0000_0000);
    assert(be32(ah) =~= be64(a).subrange(0, 4));
    assert(be32(al) =~= be64(a).subrange(4, 8));
    assert(be32(bh) =~= be64(b).subrange(0, 4));
    assert(be32(bl) =~= be64(b).subrange(4, 8));
    lemma_be32_unique(ah, bh);
    lemma_be32_unique(al, bl);
}

/// The number that the two bytes at `at` spell, high byte first.
spec fn val16(bytes: Seq<u8>, at: int) -> int {
    bytes[at] * 0x100 + bytes[at + 1]
}

/// The number that the four bytes at `at` spell, highest byte first.
spec fn val32(bytes: Seq<u8>, at: int) -> int {
    val16(bytes, at) * 0x1_0000 + val16(bytes, at + 2)
}

/// The number that the eight bytes at `at` spell, highest byte first.
spec fn val64(bytes: Seq<u8>, at: int) -> int {
    val32(bytes, at) * 0x1_0000_0000 + val32(bytes, at + 4)
}

/// The two bytes at `at` are the two bytes of the number they spell.
proof fn lemma_val16(bytes: Seq<u8>, at: int)
    requires
        0 <= at,
        at + 2 <= bytes.len(),
    ensures
        0 <= val16(bytes, at) < 0x1_0000,
        be16(val16(bytes, at)) == bytes.subrange(at, at + 2),
{
    let v = val16(bytes, at);
    assert(v / 0x100 % 0x100 == bytes[at]);
    assert(v % 0x100 == bytes[at + 1]);
    assert(be16(v) =~= bytes.subrange(at, at + 2));
}

/// The four bytes at `at` are the four bytes of the number they spell.
proof fn lemma_val32(bytes: Seq<u8>, at: int)
    requires
        0 <= at,
        at + 4 <= bytes.len(),
    ensures
        0 <= val32(bytes, at) < 0x1_0000_0000,
        be32(val32(bytes, at)) == bytes.subrange(at, at + 4),
{
    lemma_val16(bytes, at);
    lemma_val16(bytes, at + 2);
    let hi = val16(bytes, at);
    let lo = val16(bytes, at + 2);
    let v = val32(bytes, at);
    assert(v / 0x1_0000 == hi);
    assert(v % 0x1_0000 == lo);
    assert(bytes.subrange(at, at + 2) + bytes.subrange(at + 2, at + 4) =~= bytes.subrange(
        at,
        at + 4,
    ));
}

/// The eight bytes at `at` are the eight bytes of the number they spell.
proof fn lemma_val64(bytes: Seq<u8>, at: int)
    requires
        0 <= at,
        at + 8 <= bytes.len(),
    ensures
        0 <= val64(bytes, at) < 0x1_0000_0000_0000_0000,
        be64(val64(bytes, at)) == bytes.subrange(at, at + 8),
{
    lemma_val32(bytes, at);
    lemma_val32(bytes, at + 4);
    let hi = val32(bytes, at);
    let lo = val32(bytes, at + 4);
    let v = val64(bytes, at);
    assert(v / 0x1_0000_0000 == hi);
    assert(v % 0x1_0000_0000 == lo);
    assert(bytes.subrange(at, at + 4) + bytes.subrange(at + 4, at + 8) =~= bytes.subrange(
        at,
        at + 8,
    ));
}

/// The number that the two bytes at `at` spell.
fn read_be16(bytes: &[u8], at: usize) -> (v: u64)
    requires
        at + 2 <= bytes@.len(),
    ensures
        v == val16(bytes@, at as int),
{
    let hi: u64 = bytes[at] as u64;
    let lo: u64 = bytes[at + 1] as u64;
    hi * 0x100 + lo
}

/// The number that the four bytes at `at` spell.
fn read_be32(bytes: &[u8], at: usize) -> (v: u64)
    requires
        at + 4 <= bytes@.len(),
    ensures
        v == val32(bytes@, at as int),
{
    let total: usize = bytes.len();
    let hi: u64 = read_be16(bytes, at);
    let lo: u64 = read_be16(bytes, at + 2);
    proof {
        lemma_val16(bytes@, at as int);
        lemma_val16(bytes@, at + 2);
    }
    hi * 0x1_0000 + lo
}

/// The number that the eight bytes at `at` spell.
fn read_be64(bytes: &[u8], at: usize) -> (v: u64)
    requires
        at + 8 <= bytes@.len(),
    ensures
        v == val64(bytes@, at as int),
{
    let total: usize = bytes.len();
    let hi: u64 = read_be32(bytes, at);
    let lo: u64 = read_be32(bytes, at + 4);
    proof {
        lemma_val32(bytes@, at as int);
        lemma_val32(bytes@, at + 4);
    }
    hi * 0x1_0000_0000 + lo
}

/// Where the wire form of a number stands, its first byte tells the form
/// and the bytes after it are the number.
proof fn lemma_uint_stands(bytes: Seq<u8>, at: int, w: u64)
    requires
        stands_at(bytes, at, w.wire()),
    ensures
        at < bytes.len(),
        w < 0x80 ==> bytes[at] == w,
        0x80 <= w < 0x100 ==> bytes[at] == 0xcc && at + 2 <= bytes.len() && bytes[at + 1] == w,
        0x100 <= w < 0x1_0000 ==> bytes[at] == 0xcd && at + 3 <= bytes.len() && bytes.subrange(
            at + 1,
            at + 3,
        ) == be16(w as int),
        0x1_0000 <= w < 0x1_0000_0000 ==> bytes[at] == 0xce && at + 5 <= bytes.len()
            && bytes.subrange(at + 1, at + 5) == be32(w as int),
        0x1_0000_0000 <= w ==> bytes[at] == 0xcf && at + 9 <= bytes.len() && bytes.subrange(
            at + 1,
            at + 9,
        ) == be64(w as int),
{
    lemma_stands_index(bytes, at, w.wire(), 0);
    if w < 0x80 {
    } else if w < 0x100 {
        lemma_stands_index(bytes, at, w.wire(), 1);
    } else if w < 0x1_0000 {
        lemma_stands_concat(bytes, at, seq![0xcdu8], be16(w as int));
    } else if w < 0x1_0000_0000 {
        lemma_stands_concat(bytes, at, seq![0xceu8], be32(w as int));
    } else {
        lemma_stands_concat(bytes, at, seq![0xcfu8], be64(w as int));
    }
}

/// The number in its shortest form at `at`, if one stands there, and the
/// position after it.
spec fn uint_at(bytes: Seq<u8>, at: int) -> Option<(u64, int)> {
    if at >= bytes.len() {
        None
    } else if bytes[at] < 0x80 {
        Some((bytes[at] as u64, at + 1))
    } else if bytes[at] == 0xcc && at + 2 <= bytes.len() && bytes[at + 1] >= 0x80 {
        Some((bytes[at + 1] as u64, at + 2))
    } else if bytes[at] == 0xcd && at + 3 <= bytes.len() && val16(bytes, at + 1) >= 0x100 {
        Some((val16(bytes, at + 1) as u64, at + 3))
    } else if bytes[at] == 0xce && at + 5 <= bytes.len() && val32(bytes, at + 1) >= 0x1_0000 {
        Some((val32(bytes, at + 1) as u64, at + 5))
    } else if bytes[at] == 0xcf && at + 9 <= bytes.len() && val64(bytes, at + 1)
        >= 0x1_0000_0000 {
        Some((val64(bytes, at + 1) as u64, at + 9))
    } else {
        None
    }
}

/// What `uint_at` finds does stand there.
proof fn lemma_uint_at_sound(bytes: Seq<u8>, at: int)
    requires
        0 <= at <= bytes.len(),
        uint_at(bytes, at) is Some,
    ensures
        stands_at(bytes, at, uint_at(bytes, at).unwrap().0.wire()),
        uint_at(bytes, at).unwrap().1 == at + uint_at(bytes, at).unwrap().0.wire().len(),
{
    let v = uint_at(bytes, at).unwrap().0;
    if bytes[at] < 0x80 {
        assert(bytes.subrange(at, at + 1) =~= v.wire());
    } else if bytes[at] == 0xcc {
        assert(bytes.subrange(at, at + 2) =~= v.wire());
    } else if bytes[at] == 0xcd {
        lemma_val16(bytes, at + 1);
        assert(bytes.subrange(at, at + 1) =~= seq![0xcdu8]);
        lemma_stands_concat(bytes, at, seq![0xcdu8], be16(v as int));
    } else if bytes[at] == 0xce {
        lemma_val32(bytes, at + 1);
        assert(bytes.subrange(at, at + 1) =~= seq![0xceu8]);
        lemma_stands_concat(bytes, at, seq![0xceu8], be32(v as int));
    } else {
        lemma_val64(bytes, at + 1);
        assert(bytes.subrange(at, at + 1) =~= seq![0xcfu8]);
        lemma_stands_concat(bytes, at, seq![0xcfu8], be64(v as int));
    }
}

/// Whatever number stands at `at` is the one that `uint_at` finds.
proof fn lemma_uint_at_complete(bytes: Seq<u8>, at: int, w: u64)
    requires
        0 <= at <= bytes.len(),
        stands_at(bytes, at, w.wire()),
    ensures
        uint_at(bytes, at) is Some,
        uint_at(bytes, at).unwrap().0 == w,
{
    lemma_uint_stands(bytes, at, w);
    if w < 0x100 {
    } else if w < 0x1_0000 {
        lemma_val16(bytes, at + 1);
        lemma_be16_unique(w as int, val16(bytes, at + 1));
    } else if w < 0x1_0000_0000 {
        lemma_val32(bytes, at + 1);
        lemma_be32_unique(w as int, val32(bytes, at + 1));
    } else {
        lemma_val64(bytes, at + 1);
        lemma_be64_unique(w as int, val64(bytes, at + 1));
    }
}

/// `uint_at` reads numbers.
proof fn lemma_uint_at(bytes: Seq<u8>, at: int)
    requires
        0 <= at <= bytes.len(),
    ensures
        reads_as::<u64>(bytes, at, uint_at(bytes, at)),
{
    if uint_at(bytes, at) is Some {
        lemma_uint_at_sound(bytes, at);
    }
    assert forall|w: u64| stands_at(bytes, at, #[trigger] w.wire()) implies uint_at(bytes, at)
        is Some && uint_at(bytes, at).unwrap().0 == w by {
        lemma_uint_at_complete(bytes, at, w);
    }
}

/// The number that stands at `at`, and the position after it.
pub fn take_uint(bytes: &[u8], at: usize) -> (r: Option<(u64, usize)>)
    requires
        at <= bytes@.len(),
    ensures
        reads_as::<u64>(bytes@, at as int, seen(r)),
{
    proof {
        lemma_uint_at(bytes@, at as int);
    }
    if at >= bytes.len() {
        return None;
    }
    let lead: u8 = bytes[at];
    let left: usize = bytes.len() - at - 1;
    let r: Option<(u64, usize)> = if lead < 0x80 {
        Some((lead as u64, at + 1))
    } else if lead == 0xcc && left >= 1 && bytes[at + 1] >= 0x80 {
        Some((bytes[at + 1] as u64, at + 2))
    } else if lead == 0xcd && left >= 2 {
        let v: u64 = read_be16(bytes, at + 1);
        if v >= 0x100 {
            Some((v, at + 3))
        } else {
            None
        }
    } else if lead == 0xce && left >= 4 {
        let v: u64 = read_be32(bytes, at + 1);
        if v >= 0x1_0000 {
            Some((v, at + 5))
        } else {
            None
        }
    } else if lead == 0xcf && left >= 8 {
        let v: u64 = read_be64(bytes, at + 1);
        proof {
            lemma_val64(bytes@, at + 1);
        }
        if v >= 0x1_0000_0000 {
            Some((v, at + 9))
        } else {
            None
        }
    } else {
        None
    };
    assert(seen(r) == uint_at(bytes@, at as int));
    r
}

/// Where the wire form of a string length stands, its first byte tells the
/// form and the bytes after it are the length.
proof fn lemma_str_len_stands(bytes: Seq<u8>, at: int, n: u32)
    requires
        stands_at(bytes, at, StrLen(n).wire()),
    ensures
        at < bytes.len(),
        n < 32 ==> bytes[at] == 0xa0 + n,
        32 <= n < 0x100 ==> bytes[at] == 0xd9 && at + 2 <= bytes.len() && bytes[at + 1] == n,
        0x100 <= n < 0x1_0000 ==> bytes[at] == 0xda && at + 3 <= bytes.len() && bytes.subrange(
            at + 1,
            at + 3,
        ) == be16(n as int),
        0x1_0000 <= n ==> bytes[at] == 0xdb && at + 5 <= bytes.len() && bytes.subrange(
            at + 1,
            at + 5,
        ) == be32(n as int),
{
    let part = StrLen(n).wire();
    lemma_stands_index(bytes, at, part, 0);
    if n < 32 {
    } else if n < 0x100 {
        lemma_stands_index(bytes, at, part, 1);
    } else if n < 0x1_0000 {
        lemma_stands_concat(bytes, at, seq![0xdau8], be16(n as int));
    } else {
        lemma_stands_concat(bytes, at, seq![0xdbu8], be32(n as int));
    }
}

/// The string length in its shortest form at `at`, if one stands there, and
/// the position after it.
spec fn str_len_at(bytes: Seq<u8>, at: int) -> Option<(StrLen, int)> {
    if at >= bytes.len() {
        None
    } else if 0xa0 <= bytes[at] < 0xc0 {
        Some((StrLen((bytes[at] - 0xa0) as u32), at + 1))
    } else if bytes[at] == 0xd9 && at + 2 <= bytes.len() && bytes[at + 1] >= 32 {
        Some((StrLen(bytes[at + 1] as u32), at + 2))
    } else if bytes[at] == 0xda && at + 3 <= bytes.len() && val16(bytes, at + 1) >= 0x100 {
        Some((StrLen(val16(bytes, at + 1) as u32), at + 3))
    } else if bytes[at] == 0xdb && at + 5 <= bytes.len() && val32(bytes, at + 1) >= 0x1_0000 {
        Some((StrLen(val32(bytes, at + 1) as u32), at + 5))
    } else {
        None
    }
}

/// What `str_len_at` finds does stand there.
proof fn lemma_str_len_at_sound(bytes: Seq<u8>, at: int)
    requires
        0 <= at <= bytes.len(),
        str_len_at(bytes, at) is Some,
    ensures
        stands_at(bytes, at, str_len_at(bytes, at).unwrap().0.wire()),
        str_len_at(bytes, at).unwrap().1 == at + str_len_at(bytes, at).unwrap().0.wire().len(),
{
    let v = str_len_at(bytes, at).unwrap().0;
    let n = v.0;
    if 0xa0 <= bytes[at] < 0xc0 {
        assert(bytes.subrange(at, at + 1) =~= v.wire());
    } else if bytes[at] == 0xd9 {
        assert(bytes.subrange(at, at + 2) =~= v.wire());
    } else if bytes[at] == 0xda {
        lemma_val16(bytes, at + 1);
        assert(bytes.subrange(at, at + 1) =~= seq![0xdau8]);
        lemma_stands_concat(bytes, at, seq![0xdau8], be16(n as int));
    } else {
        lemma_val32(bytes, at + 1);
        assert(bytes.subrange(at, at + 1) =~= seq![0xdbu8]);
        lemma_stands_concat(bytes, at, seq![0xdbu8], be32(n as int));
    }
}

/// Whatever string length stands at `at` is the one that `str_len_at` finds.
proof fn lemma_str_len_at_complete(bytes: Seq<u8>, at: int, w: StrLen)
    requires
        0 <= at <= bytes.len(),
        stands_at(bytes, at, w.wire()),
    ensures
        str_len_at(bytes, at) is Some,
        str_len_at(bytes, at).unwrap().0 == w,
{
    let n = w.0;
    lemma_str_len_stands(bytes, at, n);
    if n < 0x100 {
    } else if n < 0x1_0000 {
        lemma_val16(bytes, at + 1);
        lemma_be16_unique(n as int, val16(bytes, at + 1));
    } else {
        lemma_val32(bytes, at + 1);
        lemma_be32_unique(n as int, val32(bytes, at + 1));
    }
}

/// `str_len_at` reads string lengths.
proof fn lemma_str_len_at(bytes: Seq<u8>, at: int)
    requires
        0 <= at <= bytes.len(),
    ensures
        reads_as::<StrLen>(bytes, at, str_len_at(bytes, at)),
{
    if str_len_at(bytes, at) is Some {
        lemma_str_len_at_sound(bytes, at);
    }
    assert forall|w: StrLen| stands_at(bytes, at, #[trigger] w.wire()) implies str_len_at(
        bytes,
        at,
    ) is Some && str_len_at(bytes, at).unwrap().0 == w by {
        lemma_str_len_at_complete(bytes, at, w);
    }
}

/// The string length that stands at `at`, and the position after it.
pub fn take_str_len(bytes: &[u8], at: usize) -> (r: Option<(u32, usize)>)
    requires
        at <= bytes@.len(),
    ensures
        reads_as::<StrLen>(bytes@, at as int, seen_str_len(r)),
{
    proof {
        lemma_str_len_at(bytes@, at as int);
    }
    if at >= bytes.len() {
        return None;
    }
    let lead: u8 = bytes[at];
    let left: usize = bytes.len() - at - 1;
    let r: Option<(u32, usize)> = if 0xa0 <= lead && lead < 0xc0 {
        Some(((lead - 0xa0) as u32, at + 1))
    } else if lead == 0xd9 && left >= 1 && bytes[at + 1] >= 32 {
        Some((bytes[at + 1] as u32, at + 2))
    } else if lead == 0xda && left >= 2 {
        let v: u64 = read_be16(bytes, at + 1);
        proof {
            lemma_val16(bytes@, at + 1);
        }
        if v >= 0x100 {
            Some((v as u32, at + 3))
        } else {
            None
        }
    } else if lead == 0xdb && left >= 4 {
        let v: u64 = read_be32(bytes, at + 1);
        proof {
            lemma_val32(bytes@, at + 1);
        }
        if v >= 0x1_0000 {
            Some((v as u32, at + 5))
        } else {
            None
        }
    } else {
        None
    };
    assert(seen_str_len(r) == str_len_at(bytes@, at as int));
    r
}

/// Where the wire form of an array length stands, its first byte tells the
/// form and the bytes after it are the length.
proof fn lemma_array_len_stands(bytes: Seq<u8>, at: int, n: u32)
    requires
        stands_at(bytes, at, ArrayLen(n).wire()),
    ensures
        at < bytes.len(),
        n < 16 ==> bytes[at] == 0x90 + n,
        16 <= n < 0x1_0000 ==> bytes[at] == 0xdc && at + 3 <= bytes.len() && bytes.subrange(
            at + 1,
            at + 3,
        ) == be16(n as int),
        0x1_0000 <= n ==> bytes[at] == 0xdd && at + 5 <= bytes.len() && bytes.subrange(
            at + 1,
            at + 5,
        ) == be32(n as int),
{
    let part = ArrayLen(n).wire();
    lemma_stands_index(bytes, at, part, 0);
    if n < 16 {
    } else if n < 0x1_0000 {
        lemma_stands_concat(bytes, at, seq![0xdcu8], be16(n as int));
    } else {
        lemma_stands_concat(bytes, at, seq![0xddu8], be32(n as int));
    }
}

/// The array length in its shortest form at `at`, if one stands there, and
/// the position after it.
spec fn array_len_at(bytes: Seq<u8>, at: int) -> Option<(ArrayLen, int)> {
    if at >= bytes.len() {
        None
    } else if 0x90 <= bytes[at] < 0xa0 {
        Some((ArrayLen((bytes[at] - 0x90) as u32), at + 1))
    } else if bytes[at] == 0xdc && at + 3 <= bytes.len() && val16(bytes, at + 1) >= 16 {
        Some((ArrayLen(val16(bytes, at + 1) as u32), at + 3))
    } else if bytes[at] == 0xdd && at + 5 <= bytes.len() && val32(bytes, at + 1) >= 0x1_0000 {
        Some((ArrayLen(val32(bytes, at + 1) as u32), at + 5))
    } else {
        None
    }
}

/// What `array_len_at` finds does stand there.
proof fn lemma_array_len_at_sound(bytes: Seq<u8>, at: int)
    requires
        0 <= at <= bytes.len(),
        array_len_at(bytes, at) is Some,
    ensures
        stands_at(bytes, at, array_len_at(bytes, at).unwrap().0.wire()),
        array_len_at(bytes, at).unwrap().1 == at + array_len_at(
            bytes,
            at,
        ).unwrap().0.wire().len(),
{
    let v = array_len_at(bytes, at).unwrap().0;
    let n = v.0;
    if 0x90 <= bytes[at] < 0xa0 {
        assert(bytes.subrange(at, at + 1) =~= v.wire());
    } else if bytes[at] == 0xdc {
        lemma_val16(bytes, at + 1);
        assert(bytes.subrange(at, at + 1) =~= seq![0xdcu8]);
        lemma_stands_concat(bytes, at, seq![0xdcu8], be16(n as int));
    } else {
        lemma_val32(bytes, at + 1);
        assert(bytes.subrange(at, at + 1) =~= seq![0xddu8]);
        lemma_stands_concat(bytes, at, seq![0xddu8], be32(n as int));
    }
}

/// Whatever array length stands at `at` is the one that `array_len_at`
/// finds.
proof fn lemma_array_len_at_complete(bytes: Seq<u8>, at: int, w: ArrayLen)
    requires
        0 <= at <= bytes.len(),
        stands_at(bytes, at, w.wire()),
    ensures
        array_len_at(bytes, at) is Some,
        array_len_at(bytes, at).unwrap().0 == w,
{
    let n = w.0;
    lemma_array_len_stands(bytes, at, n);
    if n < 16 {
    } else if n < 0x1_0000 {
        lemma_val16(bytes, at + 1);
        lemma_be16_unique(n as int, val16(bytes, at + 1));
    } else {
        lemma_val32(bytes, at + 1);
        lemma_be32_unique(n as int, val32(bytes, at + 1));
    }
}

/// `array_len_at` reads array lengths.
proof fn lemma_array_len_at(bytes: Seq<u8>, at: int)
    requires
        0 <= at <= bytes.len(),
    ensures
        reads_as::<ArrayLen>(bytes, at, array_len_at(bytes, at)),
{
    if array_len_at(bytes, at) is Some {
        lemma_array_len_at_sound(bytes, at);
    }
    assert forall|w: ArrayLen| stands_at(bytes, at, #[trigger] w.wire()) implies array_len_at(
        bytes,
        at,
    ) is Some && array_len_at(bytes, at).unwrap().0 == w by {
        lemma_array_len_at_complete(bytes, at, w);
    }
}

/// The array length that stands at `at`, and the position after it.
pub fn take_array_len(bytes: &[u8], at: usize) -> (r: Option<(u32, usize)>)
    requires
        at <= bytes@.len(),
    ensures
        reads_as::<ArrayLen>(bytes@, at as int, seen_array_len(r)),
{
    proof {
        lemma_array_len_at(bytes@, at as int);
    }
    if at >= bytes.len() {
        return None;
    }
    let lead: u8 = bytes[at];
    let left: usize = bytes.len() - at - 1;
    let r: Option<(u32, usize)> = if 0x90 <= lead && lead < 0xa0 {
        Some(((lead - 0x90) as u32, at + 1))
    } else if lead == 0xdc && left >= 2 {
        let v: u64 = read_be16(bytes, at + 1);
        proof {
            lemma_val16(bytes@, at + 1);
        }
        if v >= 16 {
            Some((v as u32, at + 3))
        } else {
            None
        }
    } else if lead == 0xdd && left >= 4 {
        let v: u64 = read_be32(bytes, at + 1);
        proof {
            lemma_val32(bytes@, at + 1);
        }
        if v >= 0x1_0000 {
            Some((v as u32, at + 5))
        } else {
            None
        }
    } else {
        None
    };
    assert(seen_array_len(r) == array_len_at(bytes@, at as int));
    r
}

/// The flag that stands at `at`, and the position after it.
pub fn take_bool(bytes: &[u8], at: usize) -> (r: Option<(bool, usize)>)
    requires
        at <= bytes@.len(),
    ensures
        reads_as::<bool>(bytes@, at as int, seen(r)),
{
    let r: Option<(bool, usize)> = if at >= bytes.len() {
        None
    } else if bytes[at] == 0xc3 {
        Some((true, at + 1))
    } else if bytes[at] == 0xc2 {
        Some((false, at + 1))
    } else {
        None
    };
    proof {
        if r is Some {
            assert(bytes@.subrange(at as int, at + 1) =~= r.unwrap().0.wire());
        }
        assert forall|w: bool| stands_at(bytes@, at as int, #[trigger] w.wire()) implies r
            is Some && r.unwrap().0 == w by {
            lemma_stands_index(bytes@, at as int, w.wire(), 0);
        }
    }
    r
}

/// The optional number that stands at `at`, and the position after it.
pub fn take_optional_uint(bytes: &[u8], at: usize) -> (r: Option<(Option<u64>, usize)>)
    requires
        at <= bytes@.len(),
    ensures
        reads_as::<Option<u64>>(bytes@, at as int, seen(r)),
{
    let r: Option<(Option<u64>, usize)> = if at < bytes.len() && bytes[at] == 0xc0 {
        assert(bytes@.subrange(at as int, at + 1) =~= None::<u64>.wire());
        Some((None, at + 1))
    } else {
        match take_uint(bytes, at) {
            Some((v, next)) => Some((Some(v), next)),
            None => None,
        }
    };
    proof {
        assert forall|w: Option<u64>| stands_at(bytes@, at as int, #[trigger] w.wire()) implies r
            is Some && r.unwrap().0 == w by {
            lemma_stands_index(bytes@, at as int, w.wire(), 0);
            if w is Some {
                lemma_uint_stands(bytes@, at as int, w.unwrap());
                assert(stands_at(bytes@, at as int, w.unwrap().wire()));
            }
        }
    }
    r
}

/// The optional flag that stands at `at`, and the position after it.
pub fn take_optional_bool(bytes: &[u8], at: usize) -> (r: Option<(Option<bool>, usize)>)
    requires
        at <= bytes@.len(),
    ensures
        reads_as::<Option<bool>>(bytes@, at as int, seen(r)),
{
    let r: Option<(Option<bool>, usize)> = if at < bytes.len() && bytes[at] == 0xc0 {
        assert(bytes@.subrange(at as int, at + 1) =~= None::<bool>.wire());
        Some((None, at + 1))
    } else {
        match take_bool(bytes, at) {
            Some((v, next)) => Some((Some(v), next)),
            None => None,
        }
    };
    proof {
        assert forall|w: Option<bool>| stands_at(bytes@, at as int, #[trigger] w.wire()) implies r
            is Some && r.unwrap().0 == w by {
            lemma_stands_index(bytes@, at as int, w.wire(), 0);
            if w is Some {
                assert(stands_at(bytes@, at as int, w.unwrap().wire()));
            }
        }
    }
    r
}

} // verus!
