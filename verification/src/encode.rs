//! Writing RESP values as bytes.

use std::collections::VecDeque;
use vstd::prelude::*;
use vstd::std_specs::vecdeque::VecDequeAdditionalSpecFns;
use vstd::slice::slice_to_vec;
use vstd::utf8::encode_utf8;
use crate::digits::{decimal, decimal_bytes};
use crate::resp::{lemma_arr_value, resp_value, resp_values, Resp, RespValue};

verus! {

broadcast use vstd::std_specs::vecdeque::group_vec_dequeue_axioms;

/// The line end, `"\r\n"`.
pub open spec fn crlf() -> Seq<u8> {
    seq![13u8, 10u8]
}

/// The bytes of a value on the wire; nothing for the values that have no
/// encoding (numbers and file contents).
pub open spec fn encoding(v: RespValue) -> Option<Seq<u8>>
    decreases v,
{
    match v {
        RespValue::BulkStr(s) => Some(
            seq![36u8] + decimal(encode_utf8(s).len()) + crlf() + encode_utf8(s) + crlf(),
        ),
        RespValue::SimpleStr(s) => Some(seq![43u8] + encode_utf8(s) + crlf()),
        RespValue::Nil => Some(seq![36u8, 45u8, 49u8, 13u8, 10u8]),
        RespValue::Arr(items) => Some(
            seq![42u8] + decimal(items.len()) + crlf() + items_encoding(items),
        ),
        _ => None,
    }
}

/// The items of an array one after the other; an item without an encoding
/// adds nothing.
pub open spec fn items_encoding(items: Seq<RespValue>) -> Seq<u8>
    decreases items,
{
    if items.len() == 0 {
        seq![]
    } else {
        match encoding(items[0]) {
            Some(b) => b + items_encoding(items.drop_first()),
            None => items_encoding(items.drop_first()),
        }
    }
}

/// The bytes an item adds to its array.
pub open spec fn item_bytes(v: RespValue) -> Seq<u8> {
    match encoding(v) {
        Some(b) => b,
        None => seq![],
    }
}

/// Encoding two runs of items one after the other.
pub proof fn lemma_items_encoding_concat(a: Seq<RespValue>, b: Seq<RespValue>)
    ensures
        items_encoding(a + b) == items_encoding(a) + items_encoding(b),
    decreases a.len(),
{
    if a.len() == 0 {
        assert(a + b =~= b);
        assert(Seq::<u8>::empty() + items_encoding(b) =~= items_encoding(b));
    } else {
        assert((a + b).drop_first() =~= a.drop_first() + b);
        assert((a + b)[0] == a[0]);
        lemma_items_encoding_concat(a.drop_first(), b);
        match encoding(a[0]) {
            Some(x) => {
                assert(x + (items_encoding(a.drop_first()) + items_encoding(b)) =~= (x
                    + items_encoding(a.drop_first())) + items_encoding(b));
            },
            None => {},
        }
    }
}

/// Encoding one more item.
pub proof fn lemma_items_encoding_push(a: Seq<RespValue>, v: RespValue)
    ensures
        items_encoding(a.push(v)) == items_encoding(a) + item_bytes(v),
{
    lemma_items_encoding_concat(a, seq![v]);
    assert(a + seq![v] =~= a.push(v));
    let single = seq![v];
    assert(single.drop_first() =~= Seq::<RespValue>::empty());
    assert(items_encoding(Seq::<RespValue>::empty()) == Seq::<u8>::empty());
    match encoding(v) {
        Some(x) => {
            assert(x + Seq::<u8>::empty() =~= x);
        },
        None => {},
    }
}

/// What a value encodes to, as a byte vector.
pub open spec fn encodes_to(r: Option<Vec<u8>>, v: RespValue) -> bool {
    match encoding(v) {
        Some(b) => r matches Some(x) && x@ == b,
        None => r is None,
    }
}

impl Resp {
    /// The wire bytes of the value; nothing for numbers and file contents.
    pub fn encoded(&self) -> (r: Option<Vec<u8>>)
        ensures
            encodes_to(r, self@),
            *self matches Resp::SimpleStr(t) ==> r matches Some(x) && x@ == seq![43u8] + encode_utf8(
                t@,
            ) + seq![13u8, 10u8],
            *self matches Resp::BulkStr(t) ==> r matches Some(x) && x@ == seq![36u8] + decimal(
                encode_utf8(t@).len(),
            ) + seq![13u8, 10u8] + encode_utf8(t@) + seq![13u8, 10u8],
        decreases self,
    {
        match self {
            Resp::BulkStr(s) => {
                let bytes = s.as_str().as_bytes();
                let mut out: Vec<u8> = Vec::new();
                out.push(36);
                let mut len = decimal_bytes(bytes.len() as u64);
                out.append(&mut len);
                out.push(13);
                out.push(10);
                let mut body = slice_to_vec(bytes);
                out.append(&mut body);
                out.push(13);
                out.push(10);
                assert(out@ =~= seq![36u8] + decimal(encode_utf8(s@).len()) + crlf()
                    + encode_utf8(s@) + crlf());
                Some(out)
            },
            Resp::SimpleStr(s) => {
                let bytes = s.as_str().as_bytes();
                let mut out: Vec<u8> = Vec::new();
                out.push(43);
                let mut body = slice_to_vec(bytes);
                out.append(&mut body);
                out.push(13);
                out.push(10);
                assert(out@ =~= seq![43u8] + encode_utf8(s@) + crlf());
                Some(out)
            },
            Resp::Nil => {
                let mut out: Vec<u8> = Vec::new();
                out.push(36);
                out.push(45);
                out.push(49);
                out.push(13);
                out.push(10);
                assert(out@ =~= seq![36u8, 45u8, 49u8, 13u8, 10u8]);
                Some(out)
            },
            Resp::Arr(items) => {
                let ghost vals = resp_values(items@);
                proof {
                    lemma_arr_value(*items);
                }
                let mut out: Vec<u8> = Vec::new();
                out.push(42);
                let mut count = decimal_bytes(items.len() as u64);
                out.append(&mut count);
                out.push(13);
                out.push(10);
                let ghost header = out@;
                assert(vals.take(0) =~= Seq::<RespValue>::empty());
                assert(header + Seq::<u8>::empty() =~= header);
                let mut i: usize = 0;
                while i < items.len()
                    invariant
                        *self == Resp::Arr(*items),
                        vals == resp_values(items@),
                        i <= items@.len(),
                        header == seq![42u8] + decimal(items@.len()) + crlf(),
                        out@ == header + items_encoding(vals.take(i as int)),
                    decreases items@.len() - i,
                {
                    proof {
                        vstd::std_specs::vecdeque::axiom_vec_dequeue_index_decreases(*items, i as int);
                        assert(decreases_to!(*self => (*self)->Arr_0));
                        assert(decreases_to!(*self => items[i as int]));
                        lemma_items_encoding_push(vals.take(i as int), vals[i as int]);
                        assert(vals.take(i as int).push(vals[i as int]) =~= vals.take(i + 1));
                    }
                    match items[i].encoded() {
                        Some(mut b) => {
                            out.append(&mut b);
                        },
                        None => {},
                    }
                    assert(out@ =~= header + items_encoding(vals.take(i + 1)));
                    i = i + 1;
                }
                assert(vals.take(items@.len() as int) =~= vals);
                Some(out)
            },
            Resp::Num(_) => None,
            Resp::FileContent(_) => None,
        }
    }
}

/// Turning a value into its wire bytes.
pub trait Encoder {
    type Output;

    fn encode(self) -> Option<Self::Output>;
}

impl Encoder for Resp {
    type Output = Vec<u8>;

    fn encode(self) -> (r: Option<Vec<u8>>)
        ensures
            encodes_to(r, self@),
            self matches Resp::SimpleStr(t) ==> r matches Some(x) && x@ == seq![43u8] + encode_utf8(
                t@,
            ) + seq![13u8, 10u8],
            self matches Resp::BulkStr(t) ==> r matches Some(x) && x@ == seq![36u8] + decimal(
                encode_utf8(t@).len(),
            ) + seq![13u8, 10u8] + encode_utf8(t@) + seq![13u8, 10u8],
    {
        self.encoded()
    }
}

/// The line that announces a file's contents on the wire: `$`, the length,
/// and `"\r\n"` (the contents follow it with no line end).
pub fn file_content_header(len: usize) -> (r: Vec<u8>)
    ensures
        r@ == seq![36u8] + decimal(len as nat) + crlf(),
{
    let mut out: Vec<u8> = Vec::new();
    out.push(36);
    let mut digits = decimal_bytes(len as u64);
    out.append(&mut digits);
    out.push(13);
    out.push(10);
    assert(out@ =~= seq![36u8] + decimal(len as nat) + crlf());
    out
}

} // verus!
