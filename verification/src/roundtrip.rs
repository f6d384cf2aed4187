//! What the reader gives back of what the writer wrote.

use vstd::prelude::*;
use vstd::utf8::{
    encode_utf8, encode_utf8_decode_utf8, encode_utf8_valid_utf8, is_ascii_chars,
    is_ascii_chars_encode_utf8,
};
use crate::decode::{crlf_at, lemma_digit_run, scan_bulk, scan_int, scan_items, scan_list, scan_resp, Scan};
use crate::digits::{all_digits, decimal, digits_value, is_digit, lemma_decimal};
use crate::encode::{crlf, encoding, items_encoding};
use crate::resp::RespValue;

verus! {

/// A value made of bulk strings and arrays alone, whose string lengths (in
/// bytes) and array lengths a reader's `i64` count can hold.
pub open spec fn bulk_tree(v: RespValue) -> bool
    decreases v,
{
    match v {
        RespValue::BulkStr(s) => encode_utf8(s).len() <= i64::MAX,
        RespValue::Arr(items) => items.len() <= i64::MAX && forall|i: int|
            0 <= i < items.len() ==> bulk_tree(#[trigger] items[i]),
        _ => false,
    }
}

/// A count line: any run of decimal digits, then `"\r\n"`, reads as the
/// number those digits denote (most significant first) and takes the digits
/// and the line end.
pub proof fn lemma_count_line(d: Seq<u8>, tail: Seq<u8>)
    requires
        all_digits(d),
        digits_value(d) <= i64::MAX,
    ensures
        scan_int(d + crlf() + tail) == Scan::Accept(digits_value(d) as i64, d.len() + 2),
{
    let s = d + crlf() + tail;
    let k = d.len() as int;
    assert forall|j: int| 0 <= j < k implies is_digit(#[trigger] s[j]) by {
        assert(s[j] == d[j]);
    }
    assert(s[k] == 13u8);
    lemma_digit_run(s, k);
    assert(s.take(k) =~= d);
}

/// A count written in decimal and ended by `"\r\n"` reads back as itself.
pub proof fn lemma_int_roundtrip(n: nat, tail: Seq<u8>)
    requires
        n <= i64::MAX,
    ensures
        scan_int(decimal(n) + crlf() + tail) == Scan::Accept(n as i64, decimal(n).len() + 2),
{
    lemma_decimal(n);
    lemma_count_line(decimal(n), tail);
}

/// A bulk string on the wire is `$`, the byte length of its UTF-8 body as a
/// run of decimal digits, `"\r\n"`, the body and `"\r\n"`. Whatever digits
/// denote that length, the reader gives the string back and takes exactly
/// those bytes, whatever follows them. The writer writes the length in its
/// shortest digits, which denote it.
pub proof fn lemma_bulk_wire(s: Seq<char>, d: Seq<u8>, tail: Seq<u8>)
    requires
        all_digits(d),
        digits_value(d) == encode_utf8(s).len(),
        encode_utf8(s).len() <= i64::MAX,
    ensures
        scan_resp(seq![36u8] + d + seq![13u8, 10u8] + encode_utf8(s) + seq![13u8, 10u8] + tail)
            == Scan::Accept(RespValue::BulkStr(s), d.len() + encode_utf8(s).len() + 5),
        encoding(RespValue::BulkStr(s)) == Some(
            seq![36u8] + decimal(encode_utf8(s).len()) + seq![13u8, 10u8] + encode_utf8(s) + seq![
                13u8,
                10u8,
            ],
        ),
        decimal(encode_utf8(s).len()).len() >= 1,
        all_digits(decimal(encode_utf8(s).len())),
        digits_value(decimal(encode_utf8(s).len())) == encode_utf8(s).len(),
{
    let e = encode_utf8(s);
    let l = e.len();
    lemma_decimal(l);
    let w = seq![36u8] + d + seq![13u8, 10u8] + e + seq![13u8, 10u8] + tail;
    let rest = w.drop_first();
    let after = e + crlf() + tail;
    assert(rest =~= d + crlf() + after);
    lemma_count_line(d, after);
    let n = d.len() + 2;
    assert(rest.skip(n as int) =~= after);
    assert(after.take(l as int) =~= e);
    encode_utf8_valid_utf8(s);
    encode_utf8_decode_utf8(s);
    assert(crlf_at(after, l as int));
    assert(scan_bulk(rest) == Scan::Accept(s, (n + l + 2) as nat));
}

/// A simple string on the wire is `+`, its own UTF-8 bytes unchanged, and
/// `"\r\n"`. For ASCII text, the byte after the `+` at each position is the
/// character at that position itself, capital letters included.
pub proof fn lemma_simple_wire(s: Seq<char>)
    ensures
        encoding(RespValue::SimpleStr(s)) == Some(seq![43u8] + encode_utf8(s) + seq![13u8, 10u8]),
        is_ascii_chars(s) ==> ({
            let w = encoding(RespValue::SimpleStr(s)).unwrap();
            &&& w.len() == s.len() + 3
            &&& w[0] == 43u8
            &&& forall|i: int| 0 <= i < s.len() ==> #[trigger] w[i + 1] == s[i] as u8
            &&& w[s.len() + 1int] == 13u8
            &&& w[s.len() + 2int] == 10u8
        }),
{
    if is_ascii_chars(s) {
        is_ascii_chars_encode_utf8(s);
        let w = encoding(RespValue::SimpleStr(s)).unwrap();
        assert forall|i: int| 0 <= i < s.len() implies #[trigger] w[i + 1] == s[i] as u8 by {
            assert(w[i + 1] == encode_utf8(s)[i]);
        }
    }
}

/// Encoding a value made of bulk strings and arrays, then reading it back
/// (whatever bytes follow), gives the value and takes exactly its bytes.
pub proof fn lemma_decode_encoded(v: RespValue, tail: Seq<u8>)
    requires
        bulk_tree(v),
    ensures
        encoding(v) is Some,
        scan_resp(encoding(v).unwrap() + tail) == Scan::Accept(v, encoding(v).unwrap().len()),
    decreases v, 1int,
{
    match v {
        RespValue::BulkStr(t) => {
            let e = encode_utf8(t);
            let l = e.len();
            let b = encoding(v).unwrap();
            let s = b + tail;
            let rest = s.drop_first();
            let after = e + crlf() + tail;
            assert(rest =~= decimal(l) + crlf() + after);
            lemma_int_roundtrip(l, after);
            lemma_decimal(l);
            let n = decimal(l).len() + 2;
            assert(rest.skip(n as int) =~= after);
            assert(after.take(l as int) =~= e);
            encode_utf8_valid_utf8(t);
            encode_utf8_decode_utf8(t);
            assert(crlf_at(after, l as int));
            assert(scan_bulk(rest) == Scan::Accept(t, (n + l + 2) as nat));
        },
        RespValue::Arr(items) => {
            let ie = items_encoding(items);
            let b = encoding(v).unwrap();
            let s = b + tail;
            let rest = s.drop_first();
            let after = ie + tail;
            assert(rest =~= decimal(items.len()) + crlf() + after);
            lemma_int_roundtrip(items.len(), after);
            lemma_decimal(items.len());
            let n = decimal(items.len()).len() + 2;
            assert(rest.skip(n as int) =~= after);
            lemma_decode_encoded_items(items, tail);
            assert(scan_list(rest) == Scan::Accept(items, (n + ie.len()) as nat));
        },
        _ => {},
    }
}

/// Reading as many items as were encoded, one after the other, gives the
/// items back and takes exactly their bytes.
pub proof fn lemma_decode_encoded_items(items: Seq<RespValue>, tail: Seq<u8>)
    requires
        forall|i: int| 0 <= i < items.len() ==> bulk_tree(#[trigger] items[i]),
    ensures
        scan_items(items_encoding(items) + tail, items.len() as int) == Scan::Accept(
            items,
            items_encoding(items).len(),
        ),
    decreases items, 0int,
{
    if items.len() == 0 {
        assert(items =~= Seq::<RespValue>::empty());
    } else {
        let first = items[0];
        let others = items.drop_first();
        assert(bulk_tree(first));
        lemma_decode_encoded(first, items_encoding(others) + tail);
        let b = encoding(first).unwrap();
        assert forall|i: int| 0 <= i < others.len() implies bulk_tree(#[trigger] others[i]) by {
            assert(others[i] == items[i + 1]);
        }
        lemma_decode_encoded_items(others, tail);
        let s = items_encoding(items) + tail;
        assert(items_encoding(items) == b + items_encoding(others));
        assert(s =~= b + (items_encoding(others) + tail));
        assert(s.skip(b.len() as int) =~= items_encoding(others) + tail);
        assert(seq![first] + others =~= items);
    }
}

} // verus!
