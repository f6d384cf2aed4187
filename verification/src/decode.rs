//! Reading RESP values from bytes.
//!
//! Each reader is stated by a spec function over the bytes that remain.
//! A reader either accepts a value and says how many bytes it took, rejects
//! the input, or meets a fault: an input that the plain readers
//! (`decode_resp`, `decode_int`) are not defined on, such as a run of bytes
//! that ends before a length prefix says it should.

use std::collections::VecDeque;
use vstd::prelude::*;
use vstd::std_specs::vecdeque::VecDequeAdditionalSpecFns;
use vstd::utf8::*;
use crate::digits::{digits_value, is_digit, lemma_digits_value_monotone};
use crate::resp::{lemma_arr_value, resp_values, Resp, RespValue};
use crate::text::string_from_utf8;

verus! {

broadcast use vstd::std_specs::vecdeque::group_vec_dequeue_axioms;

/// What a reader makes of the bytes before it.
pub enum Scan<T> {
    /// The input is one the reader is not defined on.
    Fault,
    /// The input is not a value of this kind.
    Reject,
    /// A value, and the number of bytes it took.
    Accept(T, nat),
}

/// The outcome of a reader.
pub enum Step<T> {
    /// The input is one the plain reader is not defined on.
    Fault,
    /// The input is not a value of this kind.
    Reject,
    /// A value, and the number of bytes it took.
    Accept(T, usize),
}

impl<T: View> View for Step<T> {
    type V = Scan<T::V>;

    open spec fn view(&self) -> Scan<T::V> {
        match self {
            Step::Fault => Scan::Fault,
            Step::Reject => Scan::Reject,
            Step::Accept(v, n) => Scan::Accept(v@, *n as nat),
        }
    }
}

/// The bytes `"\r\n"` stand at position `i`.
pub open spec fn crlf_at(s: Seq<u8>, i: int) -> bool {
    0 <= i && i + 2 <= s.len() && s[i] == 13 && s[i + 1] == 10
}

/// The length of the run of decimal digits at the start of `s`.
pub open spec fn digit_run(s: Seq<u8>) -> nat
    decreases s.len(),
{
    if s.len() > 0 && is_digit(s[0]) {
        1 + digit_run(s.drop_first())
    } else {
        0
    }
}

/// An integer: a run of digits (possibly empty) and `"\r\n"`. A number that
/// does not fit in `i64` is a fault.
pub open spec fn scan_int(s: Seq<u8>) -> Scan<i64> {
    let k = digit_run(s);
    let v = digits_value(s.take(k as int));
    if v > i64::MAX {
        Scan::Fault
    } else if crlf_at(s, k as int) {
        Scan::Accept(v as i64, k + 2)
    } else {
        Scan::Reject
    }
}

/// A bulk string after its `$`: a length, `"\r\n"`, that many bytes of UTF-8
/// and `"\r\n"`. A length beyond the end of the input is a fault.
pub open spec fn scan_bulk(s: Seq<u8>) -> Scan<Seq<char>> {
    match scan_int(s) {
        Scan::Accept(len, n) => {
            let inp = s.skip(n as int);
            if len > inp.len() {
                Scan::Fault
            } else {
                let body = inp.take(len as int);
                if valid_utf8(body) && crlf_at(inp, len as int) {
                    Scan::Accept(decode_utf8(body), (n + len + 2) as nat)
                } else {
                    Scan::Reject
                }
            }
        },
        Scan::Fault => Scan::Fault,
        Scan::Reject => Scan::Reject,
    }
}

/// The position of the first backslash in `s`.
pub open spec fn first_backslash(s: Seq<u8>) -> Option<nat>
    decreases s.len(),
{
    if s.len() == 0 {
        None
    } else if s[0] == 92 {
        Some(0)
    } else {
        match first_backslash(s.drop_first()) {
            Some(j) => Some(j + 1),
            None => None,
        }
    }
}

/// A simple string after its `+`: the text runs up to and including the
/// first backslash, and `"\r\n"` must follow it. Input without a backslash is
/// a fault.
pub open spec fn scan_simple(s: Seq<u8>) -> Scan<Seq<char>> {
    match first_backslash(s) {
        None => Scan::Fault,
        Some(j) => {
            let body = s.take(j + 1int);
            if valid_utf8(body) && crlf_at(s, j + 1int) {
                Scan::Accept(decode_utf8(body), j + 3)
            } else {
                Scan::Reject
            }
        },
    }
}

/// A value: its kind byte, then the value. Empty input is a fault; an unknown
/// kind byte is rejected.
pub open spec fn scan_resp(s: Seq<u8>) -> Scan<RespValue>
    decreases s.len(), 0int,
{
    if s.len() == 0 {
        Scan::Fault
    } else {
        let rest = s.drop_first();
        if s[0] == 42 {
            match scan_list(rest) {
                Scan::Accept(items, n) => Scan::Accept(RespValue::Arr(items), n + 1),
                Scan::Fault => Scan::Fault,
                Scan::Reject => Scan::Reject,
            }
        } else if s[0] == 36 {
            match scan_bulk(rest) {
                Scan::Accept(t, n) => Scan::Accept(RespValue::BulkStr(t), n + 1),
                Scan::Fault => Scan::Fault,
                Scan::Reject => Scan::Reject,
            }
        } else if s[0] == 58 {
            match scan_int(rest) {
                Scan::Accept(v, n) => Scan::Accept(RespValue::Num(v), n + 1),
                Scan::Fault => Scan::Fault,
                Scan::Reject => Scan::Reject,
            }
        } else if s[0] == 43 {
            match scan_simple(rest) {
                Scan::Accept(t, n) => Scan::Accept(RespValue::SimpleStr(t), n + 1),
                Scan::Fault => Scan::Fault,
                Scan::Reject => Scan::Reject,
            }
        } else {
            Scan::Reject
        }
    }
}

/// An array after its `*`: a count and `"\r\n"`, then the items.
pub open spec fn scan_list(s: Seq<u8>) -> Scan<Seq<RespValue>>
    decreases s.len(), 1int,
{
    match scan_int(s) {
        Scan::Accept(count, n) => {
            if 0 < n <= s.len() {
                match scan_items(s.skip(n as int), count as int) {
                    Scan::Accept(vs, m) => Scan::Accept(vs, n + m),
                    Scan::Fault => Scan::Fault,
                    Scan::Reject => Scan::Reject,
                }
            } else {
                Scan::Reject
            }
        },
        Scan::Fault => Scan::Fault,
        Scan::Reject => Scan::Reject,
    }
}

/// Up to `count` items, one after the other. The first item that is rejected
/// ends the array early; the items before it stand. (An accepted item always
/// takes at least one byte and no more than there are, as the bound in
/// `try_decode_resp` shows, so the test on `k` never fails.)
pub open spec fn scan_items(s: Seq<u8>, count: int) -> Scan<Seq<RespValue>>
    decreases s.len(), 2int,
{
    if count <= 0 {
        Scan::Accept(seq![], 0)
    } else {
        match scan_resp(s) {
            Scan::Fault => Scan::Fault,
            Scan::Reject => Scan::Accept(seq![], 0),
            Scan::Accept(v, k) => {
                if 0 < k <= s.len() {
                    match scan_items(s.skip(k as int), count - 1) {
                        Scan::Accept(vs, m) => Scan::Accept(seq![v] + vs, k + m),
                        Scan::Fault => Scan::Fault,
                        Scan::Reject => Scan::Reject,
                    }
                } else {
                    Scan::Reject
                }
            },
        }
    }
}

/// A run of `k` digits followed by a non-digit (or the end) is the digit run.
pub proof fn lemma_digit_run(s: Seq<u8>, k: int)
    requires
        0 <= k <= s.len(),
        forall|j: int| 0 <= j < k ==> is_digit(#[trigger] s[j]),
        k == s.len() || !is_digit(s[k]),
    ensures
        digit_run(s) == k,
    decreases k,
{
    if k > 0 {
        let t = s.drop_first();
        assert forall|j: int| 0 <= j < k - 1 implies is_digit(#[trigger] t[j]) by {
            assert(t[j] == s[j + 1]);
        }
        if k < s.len() {
            assert(t[k - 1] == s[k]);
        }
        lemma_digit_run(t, k - 1);
    }
}

/// A run of `k` digits at the start is part of the digit run.
proof fn lemma_digit_run_at_least(s: Seq<u8>, k: int)
    requires
        0 <= k <= s.len(),
        forall|j: int| 0 <= j < k ==> is_digit(#[trigger] s[j]),
    ensures
        k <= digit_run(s) <= s.len(),
    decreases s.len(),
{
    if s.len() > 0 && is_digit(s[0]) {
        let t = s.drop_first();
        assert forall|j: int| 0 <= j < k - 1 implies is_digit(#[trigger] t[j]) by {
            assert(t[j] == s[j + 1]);
        }
        if k > 0 {
            lemma_digit_run_at_least(t, k - 1);
        } else {
            lemma_digit_run_at_least(t, 0);
        }
    }
}

/// No backslash among the first `k` bytes, and one (or the end) at `k`.
proof fn lemma_first_backslash(s: Seq<u8>, k: int)
    requires
        0 <= k <= s.len(),
        forall|j: int| 0 <= j < k ==> #[trigger] s[j] != 92,
    ensures
        k == s.len() ==> first_backslash(s) is None,
        k < s.len() && s[k] == 92 ==> first_backslash(s) == Some(k as nat),
    decreases k,
{
    if k > 0 {
        let t = s.drop_first();
        assert forall|j: int| 0 <= j < k - 1 implies #[trigger] t[j] != 92 by {
            assert(t[j] == s[j + 1]);
        }
        if k < s.len() {
            assert(t[k - 1] == s[k]);
        }
        lemma_first_backslash(t, k - 1);
    }
}

/// Reads an integer at `pos`.
fn decode_int_at(input: &[u8], pos: usize) -> (r: Step<i64>)
    requires
        pos <= input.len(),
    ensures
        r@ == scan_int(input@.skip(pos as int)),
        r matches Step::Accept(_, k) ==> 2 <= k <= input.len() - pos,
{
    let ghost s = input@.skip(pos as int);
    let mut n: i64 = 0;
    let mut p: usize = pos;
    while p < input.len() && input[p] >= 48 && input[p] <= 57
        invariant
            pos <= p <= input.len(),
            s == input@.skip(pos as int),
            forall|j: int| 0 <= j < p - pos ==> is_digit(#[trigger] s[j]),
            n >= 0,
            n as nat == digits_value(s.take(p - pos)),
        decreases input.len() - p,
    {
        let d = (input[p] - 48) as i64;
        assert(s[p - pos] == input[p as int]);
        assert(s.take(p - pos + 1).drop_last() =~= s.take(p - pos));
        assert(digits_value(s.take(p - pos + 1)) == n * 10 + d);
        if n > (i64::MAX - d) / 10 {
            proof {
                assert(n * 10 + d > i64::MAX) by (nonlinear_arith)
                    requires
                        n > (i64::MAX - d) / 10,
                        0 <= d <= 9,
                ;
                assert forall|j: int| 0 <= j < p - pos + 1 implies is_digit(#[trigger] s[j]) by {}
                lemma_digit_run_at_least(s, p - pos + 1);
                lemma_digits_value_monotone(s, p - pos + 1, digit_run(s) as int);
            }
            return Step::Fault;
        }
        n = n * 10 + d;
        p = p + 1;
    }
    proof {
        if p < input.len() {
            assert(s[p - pos] == input[p as int]);
        }
        lemma_digit_run(s, p - pos);
    }
    if p < input.len() && input.len() - p >= 2 && input[p] == 13 && input[p + 1] == 10 {
        Step::Accept(n, p - pos + 2)
    } else {
        Step::Reject
    }
}

/// Reads a bulk string at `pos` (after its `$`).
fn decode_string(input: &[u8], pos: usize) -> (r: Step<String>)
    requires
        pos <= input.len(),
    ensures
        r@ == scan_bulk(input@.skip(pos as int)),
        r matches Step::Accept(_, k) ==> 0 < k <= input.len() - pos,
{
    let ghost s = input@.skip(pos as int);
    match decode_int_at(input, pos) {
        Step::Fault => Step::Fault,
        Step::Reject => Step::Reject,
        Step::Accept(len, n) => {
            let start = pos + n;
            assert(s.skip(n as int) =~= input@.skip(start as int));
            if len as u64 > (input.len() - start) as u64 {
                return Step::Fault;
            }
            let l = len as usize;
            let body = &input[start..start + l];
            assert(body@ =~= s.skip(n as int).take(l as int));
            match string_from_utf8(body) {
                None => Step::Reject,
                Some(text) => {
                    if input.len() - (start + l) >= 2 && input[start + l] == 13 && input[start + l + 1] == 10 {
                        Step::Accept(text, n + l + 2)
                    } else {
                        Step::Reject
                    }
                },
            }
        },
    }
}

/// Reads a simple string at `pos` (after its `+`).
fn decode_simple_string(input: &[u8], pos: usize) -> (r: Step<String>)
    requires
        pos <= input.len(),
    ensures
        r@ == scan_simple(input@.skip(pos as int)),
        r matches Step::Accept(_, k) ==> 0 < k <= input.len() - pos,
{
    let ghost s = input@.skip(pos as int);
    let mut i: usize = pos;
    while i < input.len() && input[i] != 92
        invariant
            pos <= i <= input.len(),
            s == input@.skip(pos as int),
            forall|j: int| 0 <= j < i - pos ==> #[trigger] s[j] != 92,
        decreases input.len() - i,
    {
        assert(s[i - pos] == input[i as int]);
        i = i + 1;
    }
    proof {
        if i < input.len() {
            assert(s[i - pos] == input[i as int]);
        }
        lemma_first_backslash(s, i - pos);
    }
    if i == input.len() {
        return Step::Fault;
    }
    let body = &input[pos..i + 1];
    assert(body@ =~= s.take(i - pos + 1));
    match string_from_utf8(body) {
        None => Step::Reject,
        Some(text) => {
            if input.len() - i >= 3 && input[i + 1] == 13 && input[i + 2] == 10 {
                Step::Accept(text, i - pos + 3)
            } else {
                Step::Reject
            }
        },
    }
}

/// The outcome of reading array items, taken by the models of the items.
pub open spec fn items_scan(r: Step<VecDeque<Resp>>) -> Scan<Seq<RespValue>> {
    match r {
        Step::Fault => Scan::Fault,
        Step::Reject => Scan::Reject,
        Step::Accept(items, n) => Scan::Accept(resp_values(items@), n as nat),
    }
}

/// Items already read, in front of what reading the rest gives.
spec fn after_items(done: Seq<RespValue>, used: nat, rest: Scan<Seq<RespValue>>) -> Scan<Seq<RespValue>> {
    match rest {
        Scan::Accept(vs, m) => Scan::Accept(done + vs, used + m),
        Scan::Fault => Scan::Fault,
        Scan::Reject => Scan::Reject,
    }
}

/// Reads an array at `pos` (after its `*`).
fn decode_list(input: &[u8], pos: usize) -> (r: Step<VecDeque<Resp>>)
    requires
        pos <= input.len(),
    ensures
        items_scan(r) == scan_list(input@.skip(pos as int)),
        r matches Step::Accept(_, k) ==> 0 < k <= input.len() - pos,
    decreases input.len() - pos, 1int,
{
    let ghost s = input@.skip(pos as int);
    match decode_int_at(input, pos) {
        Step::Fault => Step::Fault,
        Step::Reject => Step::Reject,
        Step::Accept(count, n) => {
            let start = pos + n;
            assert(s.skip(n as int) =~= input@.skip(start as int));
            // Room for the announced items, but never for more than the
            // bytes that are left could hold.
            let room = if count as u64 <= (input.len() - start) as u64 {
                count as usize
            } else {
                input.len() - start
            };
            let mut items: VecDeque<Resp> = VecDeque::with_capacity(room);
            let mut p: usize = start;
            let mut i: i64 = 0;
            assert(resp_values(items@) =~= Seq::<RespValue>::empty());
            assert forall|vs: Seq<RespValue>| #![auto] Seq::<RespValue>::empty() + vs =~= vs by {}
            while i < count
                invariant
                    pos < start <= p <= input.len(),
                    0 <= i <= count,
                    scan_list(input@.skip(pos as int)) == after_items(
                        resp_values(items@),
                        (p - pos) as nat,
                        scan_items(input@.skip(p as int), count - i),
                    ),
                ensures
                    pos < p <= input.len(),
                    scan_list(input@.skip(pos as int)) == after_items(
                        resp_values(items@),
                        (p - pos) as nat,
                        scan_items(input@.skip(p as int), count - i),
                    ),
                    scan_items(input@.skip(p as int), count - i) == Scan::Accept(Seq::<RespValue>::empty(), 0),
                decreases count - i,
            {
                let ghost here = input@.skip(p as int);
                match decode_resp_at(input, p) {
                    Step::Fault => {
                        assert(scan_items(here, count - i) == Scan::<Seq<RespValue>>::Fault);
                        return Step::Fault;
                    },
                    Step::Reject => {
                        assert(resp_values(items@) + Seq::<RespValue>::empty() =~= resp_values(items@));
                        assert(scan_items(here, count - i) == Scan::Accept(Seq::<RespValue>::empty(), 0));
                        break;
                    },
                    Step::Accept(item, k) => {
                        let ghost before = resp_values(items@);
                        let ghost v = item@;
                        assert(here.skip(k as int) =~= input@.skip(p + k));
                        items.push_back(item);
                        assert(resp_values(items@) =~= before.push(v));
                        p = p + k;
                        i = i + 1;
                        assert forall|vs: Seq<RespValue>| #![auto] before + (seq![v] + vs) =~= resp_values(items@) + vs by {}
                    },
                }
            }
            assert(resp_values(items@) + Seq::<RespValue>::empty() =~= resp_values(items@));
            Step::Accept(items, p - pos)
        },
    }
}

/// Reads a value at `pos`.
fn decode_resp_at(input: &[u8], pos: usize) -> (r: Step<Resp>)
    requires
        pos <= input.len(),
    ensures
        r@ == scan_resp(input@.skip(pos as int)),
        r matches Step::Accept(_, k) ==> 0 < k <= input.len() - pos,
    decreases input.len() - pos, 0int,
{
    let ghost s = input@.skip(pos as int);
    if pos == input.len() {
        return Step::Fault;
    }
    let kind = input[pos];
    assert(s.drop_first() =~= input@.skip(pos + 1));
    if kind == 42 {
        match decode_list(input, pos + 1) {
            Step::Accept(items, n) => {
                proof {
                    lemma_arr_value(items);
                }
                Step::Accept(Resp::Arr(items), n + 1)
            },
            Step::Fault => Step::Fault,
            Step::Reject => Step::Reject,
        }
    } else if kind == 36 {
        match decode_string(input, pos + 1) {
            Step::Accept(t, n) => Step::Accept(Resp::BulkStr(t), n + 1),
            Step::Fault => Step::Fault,
            Step::Reject => Step::Reject,
        }
    } else if kind == 58 {
        match decode_int_at(input, pos + 1) {
            Step::Accept(v, n) => Step::Accept(Resp::Num(v), n + 1),
            Step::Fault => Step::Fault,
            Step::Reject => Step::Reject,
        }
    } else if kind == 43 {
        match decode_simple_string(input, pos + 1) {
            Step::Accept(t, n) => Step::Accept(Resp::SimpleStr(t), n + 1),
            Step::Fault => Step::Fault,
            Step::Reject => Step::Reject,
        }
    } else {
        Step::Reject
    }
}

/// Reads one value from the start of `input`, on every input: a fault is
/// reported as such rather than met.
pub fn try_decode_resp(input: &[u8]) -> (r: Step<Resp>)
    ensures
        r@ == scan_resp(input@),
        r matches Step::Accept(_, k) ==> 0 < k <= input.len(),
{
    assert(input@.skip(0) =~= input@);
    decode_resp_at(input, 0)
}

/// Reads one value from the start of `input` and returns it with the bytes
/// that follow it, or nothing where the input is not a value.
pub fn decode_resp(input: &[u8]) -> (r: Option<(Resp, &[u8])>)
    requires
        !(scan_resp(input@) is Fault),
    ensures
        match scan_resp(input@) {
            Scan::Accept(v, n) => r matches Some((x, rest)) && x@ == v && rest@ == input@.skip(n as int),
            _ => r is None,
        },
{
    match try_decode_resp(input) {
        Step::Accept(x, n) => {
            let (_, rest) = input.split_at(n);
            Some((x, rest))
        },
        _ => None,
    }
}

/// Reads an integer (a run of digits and `"\r\n"`) from the start of `input`
/// and returns it with the bytes that follow.
pub fn decode_int(input: &[u8]) -> (r: Option<(i64, &[u8])>)
    requires
        !(scan_int(input@) is Fault),
    ensures
        match scan_int(input@) {
            Scan::Accept(v, n) => r matches Some((x, rest)) && x == v && rest@ == input@.skip(n as int),
            _ => r is None,
        },
{
    assert(input@.skip(0) =~= input@);
    match decode_int_at(input, 0) {
        Step::Accept(x, n) => {
            let (_, rest) = input.split_at(n);
            Some((x, rest))
        },
        _ => None,
    }
}

/// The error of the readers' helpers: a message.
pub type InputError = String;

/// Takes a leading `"\r\n"` off the input.
pub fn check_clrf(input: &[u8]) -> (r: Result<&[u8], InputError>)
    ensures
        crlf_at(input@, 0) ==> (r matches Ok(rest) && rest@ == input@.skip(2)),
        !crlf_at(input@, 0) ==> (r matches Err(e) && e@ == "clrf not found"@),
{
    if input.len() >= 2 && input[0] == 13 && input[1] == 10 {
        let (_, rest) = input.split_at(2);
        Ok(rest)
    } else {
        Err("clrf not found".to_owned())
    }
}

} // verus!
