//! How a replica finds its master and introduces itself.
//!
//! A replica is given its master as text such as `"localhost 6379"`: the
//! port is the last space-separated field and the host the one before it.

use vstd::prelude::*;
use vstd::slice::slice_to_vec;
use vstd::utf8::*;
use crate::digits::{decimal, decimal_bytes, parse_u32, parse_unsigned};
use crate::encode::crlf;
use crate::text::string_from_utf8;

verus! {

/// The position of the last space in `b`.
pub open spec fn last_space(b: Seq<u8>) -> Option<nat>
    decreases b.len(),
{
    if b.len() == 0 {
        None
    } else if b.last() == 32 {
        Some((b.len() - 1) as nat)
    } else {
        last_space(b.drop_last())
    }
}

/// The last space-separated field of `b`.
pub open spec fn last_field(b: Seq<u8>) -> Seq<u8> {
    match last_space(b) {
        Some(i) => b.skip(i + 1int),
        None => b,
    }
}

/// The port the text names: its last field read as a `u32`, or 6379.
pub open spec fn replica_port(b: Seq<u8>) -> u32 {
    match parse_unsigned(last_field(b), u32::MAX as nat) {
        Some(p) => p as u32,
        None => 6379,
    }
}

/// The host the text names: the field before the last one, or `localhost`
/// where there is a single field.
pub open spec fn replica_host(b: Seq<u8>) -> Seq<char> {
    match last_space(b) {
        Some(i) => decode_utf8(last_field(b.take(i as int))),
        None => "localhost"@,
    }
}

/// No space after position `k` up to `end`, and a space at `k - 1` or
/// nothing before: that decides the last space.
proof fn lemma_last_space(b: Seq<u8>, k: int)
    requires
        0 <= k <= b.len(),
        forall|j: int| k <= j < b.len() ==> #[trigger] b[j] != 32,
        k == 0 || b[k - 1] == 32,
    ensures
        k == 0 ==> last_space(b) is None,
        k > 0 ==> last_space(b) == Some((k - 1) as nat),
    decreases b.len(),
{
    if b.len() > 0 && b.len() > k {
        let t = b.drop_last();
        assert forall|j: int| k <= j < t.len() implies #[trigger] t[j] != 32 by {
            assert(t[j] == b[j]);
        }
        if k > 0 {
            assert(t[k - 1] == b[k - 1]);
        }
        lemma_last_space(t, k);
    }
}

/// Finds the last space among the first `end` bytes.
fn find_last_space(b: &[u8], end: usize) -> (r: Option<usize>)
    requires
        end <= b@.len(),
    ensures
        r is None <==> last_space(b@.take(end as int)) is None,
        r matches Some(i) ==> last_space(b@.take(end as int)) == Some(i as nat),
        r matches Some(i) ==> i < end && b@[i as int] == 32,
{
    let ghost t = b@.take(end as int);
    let mut k: usize = end;
    while k > 0 && b[k - 1] != 32
        invariant
            k <= end <= b@.len(),
            t == b@.take(end as int),
            forall|j: int| k <= j < end ==> #[trigger] t[j] != 32,
        decreases k,
    {
        assert(t[k - 1] == b@[k - 1]);
        k = k - 1;
    }
    proof {
        if k > 0 {
            assert(t[k - 1] == b@[k - 1]);
        }
        lemma_last_space(t, k as int);
    }
    if k == 0 {
        None
    } else {
        Some(k - 1)
    }
}

/// A field between spaces (or the ends) of valid UTF-8 is valid UTF-8.
proof fn lemma_field_utf8(b: Seq<u8>, lo: int, hi: int)
    requires
        valid_utf8(b),
        0 <= lo <= hi <= b.len(),
        lo == 0 || b[lo - 1] == 32,
        hi == b.len() || b[hi] == 32,
    ensures
        valid_utf8(b.subrange(lo, hi)),
{
    if hi == b.len() {
        is_char_boundary_start_end_of_seq(b);
    } else {
        is_char_boundary_iff_not_is_continuation_byte(b, hi);
    }
    valid_utf8_split(b, hi);
    let p = b.subrange(0, hi);
    if lo == 0 {
        assert(p =~= b.subrange(lo, hi));
    } else {
        assert(p[lo - 1] == 32);
        is_char_boundary_iff_not_is_continuation_byte(p, lo - 1);
        valid_utf8_split(p, lo - 1);
        let q = p.subrange(lo - 1, p.len() as int);
        assert(q[0] == 32);
        assert(valid_utf8(pop_first_scalar(q)));
        assert(pop_first_scalar(q) =~= b.subrange(lo, hi));
    }
}

/// Reads a master's host and port from text such as `"localhost 6379"`.
pub fn parse_replicaof(text: &str) -> (r: (String, u32))
    ensures
        r.0@ == replica_host(encode_utf8(text@)),
        r.1 == replica_port(encode_utf8(text@)),
{
    let b = text.as_bytes();
    let n = b.len();
    proof {
        encode_utf8_valid_utf8(text@);
        assert(b@.take(n as int) =~= b@);
    }
    match find_last_space(b, n) {
        None => {
            let port = match parse_u32(b) {
                Some(p) => p,
                None => 6379,
            };
            ("localhost".to_owned(), port)
        },
        Some(i) => {
            let field = &b[i + 1..n];
            assert(last_space(b@) == Some(i as nat));
            assert(field@ =~= last_field(b@));
            let port = match parse_u32(field) {
                Some(p) => p,
                None => 6379,
            };
            let before = find_last_space(b, i);
            let lo = match before {
                Some(j) => j + 1,
                None => 0,
            };
            proof {
                let t = b@.take(i as int);
                match before {
                    Some(j) => {
                        assert(last_space(t) == Some(j as nat));
                        assert(last_field(t) == t.skip(j + 1));
                    },
                    None => {
                        assert(last_space(t) is None);
                    },
                }
            }
            let host_bytes = &b[lo..i];
            proof {
                let t = b@.take(i as int);
                assert(host_bytes@ =~= last_field(t));
                if lo > 0 {
                    assert(t[lo - 1] == b@[lo - 1]);
                }
                lemma_field_utf8(b@, lo as int, i as int);
            }
            let host = match string_from_utf8(host_bytes) {
                Some(h) => h,
                None => {
                    assert(false);
                    String::new()
                },
            };
            (host, port)
        },
    }
}

/// The messages a replica sends its master, in order, reading a reply after
/// each: `PING`, `REPLCONF listening-port <port>`, `REPLCONF capa psync2` and
/// `PSYNC ? -1`. The port's bulk string is always announced as four bytes
/// long, whatever its length.
pub fn replica_handshake(current_port: u32) -> (r: Vec<Vec<u8>>)
    ensures
        r@.len() == 4,
        r@[0]@ == encode_utf8("*1\r\n$4\r\nping\r\n"@),
        r@[1]@ == encode_utf8("*3\r\n$8\r\nREPLCONF\r\n$14\r\nlistening-port\r\n$4\r\n"@) + decimal(
            current_port as nat,
        ) + crlf(),
        r@[2]@ == encode_utf8("*3\r\n$8\r\nREPLCONF\r\n$4\r\ncapa\r\n$6\r\npsync2\r\n"@),
        r@[3]@ == encode_utf8("*3\r\n$5\r\nPSYNC\r\n$1\r\n?\r\n$2\r\n-1\r\n"@),
{
    let mut r: Vec<Vec<u8>> = Vec::new();
    r.push(slice_to_vec("*1\r\n$4\r\nping\r\n".as_bytes()));
    let mut port_msg = slice_to_vec(
        "*3\r\n$8\r\nREPLCONF\r\n$14\r\nlistening-port\r\n$4\r\n".as_bytes(),
    );
    let mut digits = decimal_bytes(current_port as u64);
    port_msg.append(&mut digits);
    port_msg.push(13);
    port_msg.push(10);
    r.push(port_msg);
    r.push(slice_to_vec("*3\r\n$8\r\nREPLCONF\r\n$4\r\ncapa\r\n$6\r\npsync2\r\n".as_bytes()));
    r.push(slice_to_vec("*3\r\n$5\r\nPSYNC\r\n$1\r\n?\r\n$2\r\n-1\r\n".as_bytes()));
    assert(r@[1]@ =~= encode_utf8("*3\r\n$8\r\nREPLCONF\r\n$14\r\nlistening-port\r\n$4\r\n"@)
        + decimal(current_port as nat) + crlf());
    r
}

} // verus!
