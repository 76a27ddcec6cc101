//! The order in which identity keys are sorted: text by text, each text by
//! the bytes of its UTF-8 encoding, as `String` itself is ordered.

use crate::row::{ConvertedRow, IdentityKey};
use vstd::prelude::*;
use vstd::string::*;
use vstd::utf8::{encode_utf8, encode_utf8_decode_utf8};

verus! {

/// Three-way lexicographic comparison of byte sequences: negative when `a`
/// comes first, zero when they are equal, positive when `b` comes first.
pub open spec fn bytes_order(a: Seq<u8>, b: Seq<u8>) -> int
    decreases a.len(),
{
    if a.len() == 0 {
        if b.len() == 0 {
            0
        } else {
            -1
        }
    } else if b.len() == 0 {
        1
    } else if a[0] < b[0] {
        -1
    } else if a[0] > b[0] {
        1
    } else {
        bytes_order(a.drop_first(), b.drop_first())
    }
}

/// Three-way comparison of two texts by their UTF-8 bytes.
pub open spec fn text_order(a: Seq<char>, b: Seq<char>) -> int {
    bytes_order(encode_utf8(a), encode_utf8(b))
}

/// Three-way comparison of two identity keys: by name, then phone, then
/// address.
pub open spec fn key_order(a: IdentityKey, b: IdentityKey) -> int {
    if text_order(a.name, b.name) != 0 {
        text_order(a.name, b.name)
    } else if text_order(a.phone, b.phone) != 0 {
        text_order(a.phone, b.phone)
    } else {
        text_order(a.address, b.address)
    }
}

/// `a` sorts before `b`, or is `b`.
pub open spec fn key_le(a: IdentityKey, b: IdentityKey) -> bool {
    key_order(a, b) <= 0
}

/// The comparison of bytes gives -1, 0 or 1; 0 for equal sequences only;
/// and the opposite sign when the sides are swapped.
pub proof fn lemma_bytes_order_range(a: Seq<u8>, b: Seq<u8>)
    ensures
        -1 <= bytes_order(a, b) <= 1,
        bytes_order(a, b) == 0 <==> a == b,
        bytes_order(b, a) == -bytes_order(a, b),
    decreases a.len(),
{
    if a.len() == 0 || b.len() == 0 {
        if a.len() == 0 && b.len() == 0 {
            assert(a =~= b);
        }
    } else {
        lemma_bytes_order_range(a.drop_first(), b.drop_first());
        if a[0] == b[0] && a.drop_first() == b.drop_first() {
            assert(a =~= seq![a[0]] + a.drop_first());
            assert(b =~= seq![b[0]] + b.drop_first());
        }
    }
}

/// The order of byte sequences is transitive.
pub proof fn lemma_bytes_order_transitive(a: Seq<u8>, b: Seq<u8>, c: Seq<u8>)
    requires
        bytes_order(a, b) <= 0,
        bytes_order(b, c) <= 0,
    ensures
        bytes_order(a, c) <= 0,
        bytes_order(a, b) < 0 || bytes_order(b, c) < 0 ==> bytes_order(a, c) < 0,
    decreases a.len(),
{
    if a.len() > 0 && b.len() > 0 && c.len() > 0 {
        if a[0] == b[0] && b[0] == c[0] {
            lemma_bytes_order_transitive(a.drop_first(), b.drop_first(), c.drop_first());
        }
    }
}

/// The comparison of texts gives -1, 0 or 1; 0 for equal texts only; and
/// the opposite sign when the sides are swapped.
pub proof fn lemma_text_order(a: Seq<char>, b: Seq<char>)
    ensures
        -1 <= text_order(a, b) <= 1,
        text_order(a, b) == 0 <==> a == b,
        text_order(b, a) == -text_order(a, b),
{
    lemma_bytes_order_range(encode_utf8(a), encode_utf8(b));
    encode_utf8_decode_utf8(a);
    encode_utf8_decode_utf8(b);
}

/// Equal keys compare as equal, and only they; swapping the sides flips the sign.
pub proof fn lemma_key_order(a: IdentityKey, b: IdentityKey)
    ensures
        -1 <= key_order(a, b) <= 1,
        key_order(a, b) == 0 <==> a == b,
        key_order(b, a) == -key_order(a, b),
{
    lemma_text_order(a.name, b.name);
    lemma_text_order(a.phone, b.phone);
    lemma_text_order(a.address, b.address);
}

/// The order of keys is transitive.
pub proof fn lemma_key_order_transitive(a: IdentityKey, b: IdentityKey, c: IdentityKey)
    requires
        key_le(a, b),
        key_le(b, c),
    ensures
        key_le(a, c),
        key_order(a, b) < 0 || key_order(b, c) < 0 ==> key_order(a, c) < 0,
{
    lemma_text_order(a.name, b.name);
    lemma_text_order(b.name, c.name);
    lemma_text_order(a.name, c.name);
    lemma_text_order(a.phone, b.phone);
    lemma_text_order(b.phone, c.phone);
    lemma_text_order(a.phone, c.phone);
    lemma_text_order(a.address, b.address);
    lemma_text_order(b.address, c.address);
    lemma_text_order(a.address, c.address);
    lemma_bytes_order_transitive(encode_utf8(a.name), encode_utf8(b.name), encode_utf8(c.name));
    if a.name == b.name && b.name == c.name {
        lemma_bytes_order_transitive(
            encode_utf8(a.phone),
            encode_utf8(b.phone),
            encode_utf8(c.phone),
        );
        if a.phone == b.phone && b.phone == c.phone {
            lemma_bytes_order_transitive(
                encode_utf8(a.address),
                encode_utf8(b.address),
                encode_utf8(c.address),
            );
        }
    }
}

/// Compares two texts: -1, 0 or 1.
pub fn order_texts(a: &str, b: &str) -> (out: i8)
    ensures
        out == text_order(a@, b@),
{
    let x = a.as_bytes();
    let y = b.as_bytes();
    let mut i: usize = 0;
    proof {
        assert(x@.skip(0) =~= x@);
        assert(y@.skip(0) =~= y@);
    }
    while i < x.len() && i < y.len()
        invariant
            i <= x@.len(),
            i <= y@.len(),
            x@ == encode_utf8(a@),
            y@ == encode_utf8(b@),
            bytes_order(x@, y@) == bytes_order(x@.skip(i as int), y@.skip(i as int)),
        decreases x@.len() - i,
    {
        proof {
            assert(x@.skip(i as int).drop_first() =~= x@.skip(i + 1));
            assert(y@.skip(i as int).drop_first() =~= y@.skip(i + 1));
        }
        if x[i] < y[i] {
            return -1;
        }
        if x[i] > y[i] {
            return 1;
        }
        i += 1;
    }
    if i < y.len() {
        -1
    } else if i < x.len() {
        1
    } else {
        0
    }
}

/// Whether two texts are the same.
pub fn same_text(a: &str, b: &str) -> (same: bool)
    ensures
        same == (a@ == b@),
{
    proof {
        lemma_text_order(a@, b@);
    }
    order_texts(a, b) == 0
}

/// Compares the identity keys of two rows: -1, 0 or 1.
pub fn order_keys(a: &ConvertedRow, b: &ConvertedRow) -> (out: i8)
    ensures
        out == key_order(a@.key(), b@.key()),
{
    let by_name = order_texts(a.recipient_name.as_str(), b.recipient_name.as_str());
    if by_name != 0 {
        return by_name;
    }
    let by_phone = order_texts(a.recipient_phone.as_str(), b.recipient_phone.as_str());
    if by_phone != 0 {
        return by_phone;
    }
    order_texts(a.delivery_address.as_str(), b.delivery_address.as_str())
}

} // verus!
