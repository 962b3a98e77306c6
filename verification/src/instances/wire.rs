//! The postcard encoding of the values that messages are made of.
//!
//! Integers are written as base-128 digits, least significant first, with the
//! high bit set on every byte but the last. Strings and sequences follow their
//! length, written the same way; byte arrays stand as they are.

use vstd::prelude::*;
use vstd::utf8::{decode_utf8, encode_utf8, valid_utf8};

verus! {

/// The digits of `n`.
pub open spec fn varint(n: nat) -> Seq<u8>
    decreases n,
{
    if n < 128 {
        seq![n as u8]
    } else {
        seq![(n % 128 + 128) as u8] + varint(n / 128)
    }
}

/// The number that `buf` starts with, if it ends within `digits` digits, and
/// what follows it. Leading zero digits are accepted.
pub open spec fn leading_digits(buf: Seq<u8>, digits: nat) -> Option<(nat, Seq<u8>)>
    decreases digits,
{
    if digits == 0 || buf.len() == 0 {
        None
    } else if buf[0] < 128 {
        Some((buf[0] as nat, buf.skip(1)))
    } else {
        match leading_digits(buf.skip(1), (digits - 1) as nat) {
            Some((high, rest)) => Some(((buf[0] - 128 + 128 * high) as nat, rest)),
            None => None,
        }
    }
}

/// The number of at most `bits` bits, `max` being the greatest of them, that
/// `buf` starts with, and what follows it.
pub open spec fn take_varint(buf: Seq<u8>, bits: nat, max: nat) -> Option<(nat, Seq<u8>)> {
    match leading_digits(buf, (bits + 6) / 7) {
        Some((n, rest)) => if n <= max {
            Some((n, rest))
        } else {
            None
        },
        None => None,
    }
}

/// The length that `buf` starts with, and what follows it.
pub open spec fn take_len(buf: Seq<u8>) -> Option<(nat, Seq<u8>)> {
    take_varint(buf, usize::BITS as nat, usize::MAX as nat)
}

/// `bytes` behind their number.
pub open spec fn byte_string(bytes: Seq<u8>) -> Seq<u8> {
    varint(bytes.len()) + bytes
}

/// The byte string that `buf` starts with, and what follows it.
pub open spec fn take_byte_string(buf: Seq<u8>) -> Option<(Seq<u8>, Seq<u8>)> {
    match take_len(buf) {
        Some((n, rest)) => if n <= rest.len() {
            Some((rest.take(n as int), rest.skip(n as int)))
        } else {
            None
        },
        None => None,
    }
}

/// The UTF-8 text that `buf` starts with, and what follows it.
pub open spec fn take_text(buf: Seq<u8>) -> Option<(Seq<char>, Seq<u8>)> {
    match take_byte_string(buf) {
        Some((bytes, rest)) => if valid_utf8(bytes) {
            Some((decode_utf8(bytes), rest))
        } else {
            None
        },
        None => None,
    }
}

/// What `v` holds, as sequences.
pub open spec fn hash_views(v: Seq<[u8; 20]>) -> Seq<Seq<u8>> {
    v.map_values(|h: [u8; 20]| h@)
}

/// The hashes one behind the other.
pub open spec fn hash_run(hashes: Seq<Seq<u8>>) -> Seq<u8>
    decreases hashes.len(),
{
    if hashes.len() == 0 {
        seq![]
    } else {
        hash_run(hashes.drop_last()) + hashes.last()
    }
}

/// The hashes behind their number.
pub open spec fn hash_list(hashes: Seq<Seq<u8>>) -> Seq<u8> {
    varint(hashes.len()) + hash_run(hashes)
}

/// `bytes`, of which there are `20 * n`, cut into hashes.
pub open spec fn cut_hashes(bytes: Seq<u8>, n: nat) -> Seq<Seq<u8>> {
    Seq::new(n, |i: int| bytes.subrange(20 * i, 20 * i + 20))
}

/// The list of hashes that `buf` starts with, and what follows it.
pub open spec fn take_hash_list(buf: Seq<u8>) -> Option<(Seq<Seq<u8>>, Seq<u8>)> {
    match take_len(buf) {
        Some((n, rest)) => if 20 * n <= rest.len() {
            Some((cut_hashes(rest, n), rest.skip((20 * n) as int)))
        } else {
            None
        },
        None => None,
    }
}

/// The `n` bytes that `buf` starts with, and what follows them.
pub open spec fn take_array(buf: Seq<u8>, n: int) -> Option<(Seq<u8>, Seq<u8>)> {
    if n <= buf.len() {
        Some((buf.take(n), buf.skip(n)))
    } else {
        None
    }
}

/// The error of the postcard crate, of which only its presence matters.
#[verifier::external_type_specification]
#[verifier::external_body]
pub struct ExPostcardError(postcard::Error);

/// `postcard::to_allocvec` of a `u32`: its digits. Writing to a growing
/// vector does not fail.
#[verifier::external_body]
pub(crate) fn put_u32(value: u32) -> (bytes: Vec<u8>)
    ensures
        bytes@ == varint(value as nat),
{
    postcard::to_allocvec(&value).expect("writing to a vector does not fail")
}

/// `postcard::to_allocvec` of a `u16`: its digits. Writing to a growing
/// vector does not fail.
#[verifier::external_body]
pub(crate) fn put_u16(value: u16) -> (bytes: Vec<u8>)
    ensures
        bytes@ == varint(value as nat),
{
    postcard::to_allocvec(&value).expect("writing to a vector does not fail")
}

/// `postcard::to_allocvec` of a `str`: its UTF-8 bytes behind their number.
/// Writing to a growing vector does not fail.
#[verifier::external_body]
pub(crate) fn put_str(value: &str) -> (bytes: Vec<u8>)
    ensures
        bytes@ == byte_string(encode_utf8(value@)),
{
    postcard::to_allocvec(value).expect("writing to a vector does not fail")
}

/// `postcard::to_allocvec` of a `[u8]`: the bytes behind their number.
/// Writing to a growing vector does not fail.
#[verifier::external_body]
pub(crate) fn put_bytes(value: &[u8]) -> (bytes: Vec<u8>)
    ensures
        bytes@ == byte_string(value@),
{
    postcard::to_allocvec(value).expect("writing to a vector does not fail")
}

/// `postcard::to_allocvec` of a `[[u8; 20]]`: the arrays behind their number.
/// Writing to a growing vector does not fail.
#[verifier::external_body]
pub(crate) fn put_hashes(value: &[[u8; 20]]) -> (bytes: Vec<u8>)
    ensures
        bytes@ == hash_list(hash_views(value@)),
{
    postcard::to_allocvec(value).expect("writing to a vector does not fail")
}

/// `postcard::take_from_bytes` for a `u32`: the number that `buf` starts with,
/// if it has at most five digits and fits in a `u32`.
#[verifier::external_body]
pub(crate) fn get_u32(buf: &[u8]) -> (r: Result<(u32, &[u8]), postcard::Error>)
    ensures
        match take_varint(buf@, 32, u32::MAX as nat) {
            Some((n, rest)) => r matches Ok((value, left)) && value == n && left@ == rest,
            None => r is Err,
        },
{
    postcard::take_from_bytes(buf)
}

/// `postcard::take_from_bytes` for a `u16`: the number that `buf` starts with,
/// if it has at most three digits and fits in a `u16`.
#[verifier::external_body]
pub(crate) fn get_u16(buf: &[u8]) -> (r: Result<(u16, &[u8]), postcard::Error>)
    ensures
        match take_varint(buf@, 16, u16::MAX as nat) {
            Some((n, rest)) => r matches Ok((value, left)) && value == n && left@ == rest,
            None => r is Err,
        },
{
    postcard::take_from_bytes(buf)
}

/// `postcard::take_from_bytes` for a `String`: the text that `buf` starts
/// with, if its length is there in full and its bytes are UTF-8.
#[verifier::external_body]
pub(crate) fn get_string(buf: &[u8]) -> (r: Result<(String, &[u8]), postcard::Error>)
    ensures
        match take_text(buf@) {
            Some((text, rest)) => r matches Ok((value, left)) && value@ == text && left@ == rest,
            None => r is Err,
        },
{
    postcard::take_from_bytes(buf)
}

/// `postcard::take_from_bytes` for a `Vec<u8>`: the byte string that `buf`
/// starts with, if its length is there in full.
#[verifier::external_body]
pub(crate) fn get_bytes(buf: &[u8]) -> (r: Result<(Vec<u8>, &[u8]), postcard::Error>)
    ensures
        match take_byte_string(buf@) {
            Some((bytes, rest)) => r matches Ok((value, left)) && value@ == bytes && left@
                == rest,
            None => r is Err,
        },
{
    postcard::take_from_bytes(buf)
}

/// `postcard::take_from_bytes` for a `Vec<[u8; 20]>`: the arrays that `buf`
/// starts with, if as many as it announces are there.
#[verifier::external_body]
pub(crate) fn get_hashes(buf: &[u8]) -> (r: Result<(Vec<[u8; 20]>, &[u8]), postcard::Error>)
    ensures
        match take_hash_list(buf@) {
            Some((hashes, rest)) => r matches Ok((value, left)) && hash_views(value@) == hashes
                && left@ == rest,
            None => r is Err,
        },
{
    postcard::take_from_bytes(buf)
}

/// The digits of a number below `128^digits` are at most `digits`, and reading
/// them gives the number back.
proof fn lemma_digits_read_back(n: nat, digits: nat, bound: nat, rest: Seq<u8>)
    requires
        digits > 0,
        n < bound,
        bound == vstd::arithmetic::power::pow(128, digits),
    ensures
        leading_digits(varint(n) + rest, digits) == Some((n, rest)),
    decreases digits,
{
    reveal_with_fuel(vstd::arithmetic::power::pow, 2);
    let buf = varint(n) + rest;
    if n < 128 {
        assert(buf.skip(1) == rest);
    } else {
        let low = (digits - 1) as nat;
        vstd::arithmetic::power::lemma_pow_positive(128, low);
        lemma_digits_read_back(n / 128, low, vstd::arithmetic::power::pow(128, low) as nat, rest);
        assert(buf.skip(1) == varint(n / 128) + rest);
    }
}

/// Reading a written `u32` gives it back.
pub proof fn lemma_u32_read_back(n: nat, rest: Seq<u8>)
    requires
        n <= u32::MAX,
    ensures
        take_varint(varint(n) + rest, 32, u32::MAX as nat) == Some((n, rest)),
{
    assert(vstd::arithmetic::power::pow(128, 5) == 0x8_0000_0000) by {
        reveal_with_fuel(vstd::arithmetic::power::pow, 6);
    }
    lemma_digits_read_back(n, 5, 0x8_0000_0000, rest);
}

/// Reading a written `u16` gives it back.
pub proof fn lemma_u16_read_back(n: nat, rest: Seq<u8>)
    requires
        n <= u16::MAX,
    ensures
        take_varint(varint(n) + rest, 16, u16::MAX as nat) == Some((n, rest)),
{
    assert(vstd::arithmetic::power::pow(128, 3) == 0x20_0000) by {
        reveal_with_fuel(vstd::arithmetic::power::pow, 4);
    }
    lemma_digits_read_back(n, 3, 0x20_0000, rest);
}

/// Reading a written length gives it back.
pub proof fn lemma_len_read_back(n: nat, rest: Seq<u8>)
    requires
        n <= usize::MAX,
    ensures
        take_len(varint(n) + rest) == Some((n, rest)),
{
    if usize::BITS == 32 {
        lemma_u32_read_back(n, rest);
    } else {
        assert(vstd::arithmetic::power::pow(128, 10) == 0x40_0000_0000_0000_0000) by {
            reveal_with_fuel(vstd::arithmetic::power::pow, 11);
        }
        lemma_digits_read_back(n, 10, 0x40_0000_0000_0000_0000, rest);
    }
}

/// Reading a written byte string gives it back.
pub proof fn lemma_byte_string_read_back(bytes: Seq<u8>, rest: Seq<u8>)
    requires
        bytes.len() <= usize::MAX,
    ensures
        take_byte_string(byte_string(bytes) + rest) == Some((bytes, rest)),
{
    assert(byte_string(bytes) + rest == varint(bytes.len()) + (bytes + rest));
    lemma_len_read_back(bytes.len(), bytes + rest);
    assert((bytes + rest).take(bytes.len() as int) == bytes);
    assert((bytes + rest).skip(bytes.len() as int) == rest);
}

/// Reading a written text gives it back.
pub proof fn lemma_text_read_back(text: Seq<char>, rest: Seq<u8>)
    requires
        encode_utf8(text).len() <= usize::MAX,
    ensures
        take_text(byte_string(encode_utf8(text)) + rest) == Some((text, rest)),
{
    lemma_byte_string_read_back(encode_utf8(text), rest);
    vstd::utf8::encode_utf8_valid_utf8(text);
    vstd::utf8::encode_utf8_decode_utf8(text);
}

/// The run of `n` hashes is 20 bytes long for each, and hash `i` stands at
/// `20 * i`.
pub proof fn lemma_hash_run(hashes: Seq<Seq<u8>>)
    requires
        forall|i: int| 0 <= i < hashes.len() ==> (#[trigger] hashes[i]).len() == 20,
    ensures
        hash_run(hashes).len() == 20 * hashes.len(),
        forall|i: int|
            0 <= i < hashes.len() ==> hash_run(hashes).subrange(20 * i, 20 * i + 20)
                == #[trigger] hashes[i],
    decreases hashes.len(),
{
    if hashes.len() > 0 {
        let init = hashes.drop_last();
        assert(forall|i: int| 0 <= i < init.len() ==> init[i] == hashes[i]);
        lemma_hash_run(init);
        let run = hash_run(hashes);
        assert forall|i: int| 0 <= i < hashes.len() implies run.subrange(20 * i, 20 * i + 20)
            == #[trigger] hashes[i] by {
            if i < init.len() {
                assert(init[i] == hashes[i]);
                assert(run.subrange(20 * i, 20 * i + 20) == hash_run(init).subrange(
                    20 * i,
                    20 * i + 20,
                ));
            } else {
                assert(run.subrange(20 * i, 20 * i + 20) == hashes.last());
            }
        }
    }
}

/// Reading a written list of hashes gives it back.
pub proof fn lemma_hash_list_read_back(hashes: Seq<Seq<u8>>, rest: Seq<u8>)
    requires
        hashes.len() <= usize::MAX,
        forall|i: int| 0 <= i < hashes.len() ==> (#[trigger] hashes[i]).len() == 20,
    ensures
        take_hash_list(hash_list(hashes) + rest) == Some((hashes, rest)),
{
    let run = hash_run(hashes);
    lemma_hash_run(hashes);
    assert(hash_list(hashes) + rest == varint(hashes.len()) + (run + rest));
    lemma_len_read_back(hashes.len(), run + rest);
    assert((run + rest).skip((20 * hashes.len()) as int) == rest);
    assert forall|i: int| 0 <= i < hashes.len() implies #[trigger] cut_hashes(
        run + rest,
        hashes.len(),
    )[i] == hashes[i] by {
        assert((run + rest).subrange(20 * i, 20 * i + 20) == run.subrange(20 * i, 20 * i + 20));
    }
    assert(cut_hashes(run + rest, hashes.len()) == hashes);
}

// ---------------------------------------------------------------------------
// The encoding, digit by digit
// ---------------------------------------------------------------------------

/// A number below 128 is one digit; another is its last digit, marked, and then
/// the digits of the rest of it.
pub proof fn law_digits_of_a_number(n: nat)
    ensures
        n < 128 ==> varint(n).len() == 1 && varint(n)[0] == n,
        n >= 128 ==> varint(n)[0] == 128 + n % 128 && varint(n).skip(1) == varint(n / 128),
{
    if n >= 128 {
        assert(varint(n).skip(1) =~= varint(n / 128));
    }
}

/// Reading a number stops at the first digit that is not marked; a marked one
/// is the lowest of a number whose other digits follow. Nothing is read of no
/// bytes or where no digit may follow.
pub proof fn law_reading_digits(buf: Seq<u8>, digits: nat)
    ensures
        buf.len() == 0 || digits == 0 ==> leading_digits(buf, digits) is None,
        buf.len() > 0 && digits > 0 && buf[0] < 128 ==> leading_digits(buf, digits) == Some(
            (buf[0] as nat, buf.skip(1)),
        ),
        buf.len() > 0 && digits > 0 && buf[0] >= 128 ==> match leading_digits(
            buf.skip(1),
            (digits - 1) as nat,
        ) {
            Some((high, rest)) => leading_digits(buf, digits) == Some(
                ((buf[0] - 128 + 128 * high) as nat, rest),
            ),
            None => leading_digits(buf, digits) is None,
        },
{
}

/// A number of 32 bits has at most five digits, one of 16 bits at most three,
/// and a length as many as the machine's words need. What is too large is not
/// taken.
pub proof fn law_numbers_that_are_taken(buf: Seq<u8>)
    ensures
        take_varint(buf, 32, u32::MAX as nat) == match leading_digits(buf, 5) {
            Some((n, rest)) => if n < 0x1_0000_0000 {
                Some((n, rest))
            } else {
                None
            },
            None => None,
        },
        take_varint(buf, 16, u16::MAX as nat) == match leading_digits(buf, 3) {
            Some((n, rest)) => if n < 0x1_0000 {
                Some((n, rest))
            } else {
                None
            },
            None => None,
        },
        take_len(buf) == match leading_digits(
            buf,
            if usize::BITS == 64 {
                10
            } else {
                5
            },
        ) {
            Some((n, rest)) => if n <= usize::MAX {
                Some((n, rest))
            } else {
                None
            },
            None => None,
        },
{
}

/// A byte string is its length and its bytes; it is taken exactly if the bytes
/// that its length announces are there, and what follows them is left. A text
/// is one whose bytes are UTF-8.
pub proof fn law_strings_follow_their_length(bytes: Seq<u8>, buf: Seq<u8>)
    ensures
        byte_string(bytes) == varint(bytes.len()) + bytes,
        match take_len(buf) {
            Some((n, rest)) => {
                &&& n <= rest.len() ==> take_byte_string(buf) == Some(
                    (rest.subrange(0, n as int), rest.subrange(n as int, rest.len() as int)),
                )
                &&& n > rest.len() ==> take_byte_string(buf) is None
            },
            None => take_byte_string(buf) is None,
        },
        match take_byte_string(buf) {
            Some((taken, rest)) => {
                &&& valid_utf8(taken) ==> take_text(buf) == Some((decode_utf8(taken), rest))
                &&& !valid_utf8(taken) ==> take_text(buf) is None
            },
            None => take_text(buf) is None,
        },
{
    if let Some((n, rest)) = take_len(buf) {
        if n <= rest.len() {
            assert(rest.take(n as int) =~= rest.subrange(0, n as int));
            assert(rest.skip(n as int) =~= rest.subrange(n as int, rest.len() as int));
        }
    }
}

/// A list of hashes is their number and then the hashes, as they are and in
/// their order: none for an empty list, and one more comes behind the others.
/// A list is taken exactly if as many times 20 bytes as it announces are
/// there, cut every 20 bytes.
pub proof fn law_hashes_follow_their_number(hashes: Seq<Seq<u8>>, h: Seq<u8>, buf: Seq<u8>)
    ensures
        hash_list(hashes) == varint(hashes.len()) + hash_run(hashes),
        hash_run(seq![]).len() == 0,
        hash_run(hashes.push(h)) == hash_run(hashes) + h,
        match take_len(buf) {
            Some((n, rest)) => {
                &&& 20 * n <= rest.len() ==> {
                    &&& take_hash_list(buf) matches Some((taken, left)) && taken.len() == n && left
                        == rest.subrange((20 * n) as int, rest.len() as int)
                    &&& forall|i: int|
                        0 <= i < n ==> #[trigger] take_hash_list(buf).unwrap().0[i]
                            == rest.subrange(20 * i, 20 * i + 20)
                }
                &&& 20 * n > rest.len() ==> take_hash_list(buf) is None
            },
            None => take_hash_list(buf) is None,
        },
{
    assert(hashes.push(h).drop_last() =~= hashes);
    if let Some((n, rest)) = take_len(buf) {
        if 20 * n <= rest.len() {
            assert(rest.skip((20 * n) as int) =~= rest.subrange(
                (20 * n) as int,
                rest.len() as int,
            ));
        }
    }
}

/// An array is taken exactly if its bytes are there.
pub proof fn law_arrays_stand_as_they_are(array: Seq<u8>, rest: Seq<u8>, n: int)
    ensures
        take_array(array + rest, array.len() as int) == Some((array, rest)),
        n > array.len() ==> take_array(array, n) is None,
{
    assert((array + rest).take(array.len() as int) =~= array);
    assert((array + rest).skip(array.len() as int) =~= rest);
}

/// What a list of hashes holds, one by one.
pub proof fn law_hashes_one_by_one(hashes: Seq<[u8; 20]>, i: int)
    ensures
        hash_views(hashes).len() == hashes.len(),
        0 <= i < hashes.len() ==> hash_views(hashes)[i] == hashes[i]@ && hash_views(hashes)[i].len()
            == 20,
{
}

} // verus!
