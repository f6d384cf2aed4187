use redis_lite::decode::{check_clrf, decode_int, decode_resp, try_decode_resp, Step};
use redis_lite::digits::{decimal_bytes, parse_u128, parse_u32};
use redis_lite::encode::{file_content_header, Encoder};
use redis_lite::resp::Resp;
use std::collections::VecDeque;

fn bulk(s: &str) -> Resp {
    Resp::BulkStr(s.to_string())
}

#[test]
pub fn test_1() {
    let input = "*1\r\n$4\r\nping\r\n".as_bytes();
    let (_res, _) = decode_resp(input).unwrap();
}

#[test]
pub fn test_clrf() {
    let input = "\r\n".as_bytes();
    let rest = check_clrf(input).unwrap();
    assert!(rest.is_empty());
}

#[test]
pub fn test_int() {
    let input = "10\r\nasd".as_bytes();
    let (r, _) = decode_int(input).unwrap();
    println!(" int is {}", r);
    assert_eq!(r, 10);
}

#[test]
pub fn test_list() {
    let input = "*2\r\n$4\r\necho\r\n$3\r\nhey\r\n".as_bytes();
    let (_r, _) = decode_resp(&input).unwrap();
}

#[test]
pub fn encode_list() {
    let input = VecDeque::from([
        Resp::BulkStr("set".to_string()),
        Resp::BulkStr("foo".to_string()),
        Resp::BulkStr("bar".to_string()),
        Resp::BulkStr("px".to_string()),
        Resp::Num(100),
    ]);
    println!("{:?}", Encoder::encode(Resp::Arr(input)));
}

#[test]
pub fn encode_int() {
    let input = Resp::SimpleStr("hello".to_owned());
    println!("{:?}", Encoder::encode(input));
}

#[test]
pub fn decode_entry() {
    let input = "*5\r\n$3\r\nSET\r\n$6\r\nbanana\r\n$9\r\nraspberry\r\n$2\r\npx\r\n$3\r\n100\r\n".as_bytes();
    println!("{:?}", decode_resp(input));
}

#[test]
pub fn decode_test() {
    let input = "*5\r\n$3\r\nSET\r\n$9\r\npineapple\r\n$10\r\nstrawberry\r\n$2\r\npx\r\n$3\r\n100\r\n".as_bytes();
    println!("{:?}", decode_resp(input));
}

#[test]
fn decode_list_values() {
    let input = "*2\r\n$4\r\necho\r\n$3\r\nhey\r\n".as_bytes();
    let (r, rest) = decode_resp(input).unwrap();
    assert_eq!(r, Resp::Arr(VecDeque::from([bulk("echo"), bulk("hey")])));
    assert!(rest.is_empty());
}

#[test]
fn decode_leaves_trailing_bytes() {
    let input = "$3\r\nfoo\r\n:7\r\n".as_bytes();
    let (r, rest) = decode_resp(input).unwrap();
    assert_eq!(r, bulk("foo"));
    assert_eq!(rest, ":7\r\n".as_bytes());
    let (n, rest) = decode_resp(rest).unwrap();
    assert_eq!(n, Resp::Num(7));
    assert!(rest.is_empty());
}

#[test]
fn decode_set_with_expiry() {
    let input = "*5\r\n$3\r\nSET\r\n$6\r\nbanana\r\n$9\r\nraspberry\r\n$2\r\npx\r\n$3\r\n100\r\n".as_bytes();
    let (r, rest) = decode_resp(input).unwrap();
    assert_eq!(
        r,
        Resp::Arr(VecDeque::from([bulk("SET"), bulk("banana"), bulk("raspberry"), bulk("px"), bulk("100")]))
    );
    assert!(rest.is_empty());
}

#[test]
fn decode_unknown_kind_is_none() {
    assert_eq!(decode_resp("-ERR\r\n".as_bytes()), None);
    assert_eq!(decode_resp("$-1\r\n".as_bytes()), None);
}

#[test]
fn decode_list_stops_at_rejected_item() {
    let input = "*3\r\n$1\r\na\r\nXYZ".as_bytes();
    let (r, rest) = decode_resp(input).unwrap();
    assert_eq!(r, Resp::Arr(VecDeque::from([bulk("a")])));
    assert_eq!(rest, "XYZ".as_bytes());
}

#[test]
fn empty_list() {
    let (r, rest) = decode_resp("*0\r\nrest".as_bytes()).unwrap();
    assert_eq!(r, Resp::Arr(VecDeque::new()));
    assert_eq!(rest, "rest".as_bytes());
}

#[test]
fn simple_string_runs_to_backslash() {
    let (r, rest) = decode_resp("+OK\\\r\n".as_bytes()).unwrap();
    assert_eq!(r, Resp::SimpleStr("OK\\".to_string()));
    assert!(rest.is_empty());
}

#[test]
fn faults_are_reported() {
    assert!(matches!(try_decode_resp("".as_bytes()), Step::Fault));
    assert!(matches!(try_decode_resp("+OK\r\n".as_bytes()), Step::Fault));
    assert!(matches!(try_decode_resp("$10\r\nabc\r\n".as_bytes()), Step::Fault));
    assert!(matches!(try_decode_resp(":99999999999999999999\r\n".as_bytes()), Step::Fault));
    assert!(matches!(try_decode_resp("*2\r\n$1\r\na\r\n".as_bytes()), Step::Fault));
    assert!(matches!(try_decode_resp("?".as_bytes()), Step::Reject));
    match try_decode_resp(":9223372036854775807\r\n".as_bytes()) {
        Step::Accept(Resp::Num(n), k) => {
            assert_eq!(n, i64::MAX);
            assert_eq!(k, 22);
        }
        _ => panic!("largest i64 should be read"),
    }
}

#[test]
fn bulk_string_needs_utf8_and_line_end() {
    assert_eq!(decode_resp(&[36, 49, 13, 10, 0xff, 13, 10]), None);
    assert_eq!(decode_resp("$1\r\naXY".as_bytes()), None);
    let (r, _) = decode_resp("$2\r\n\u{e9}\r\n".as_bytes()).unwrap();
    assert_eq!(r, bulk("\u{e9}"));
}

#[test]
fn int_without_line_end() {
    assert_eq!(decode_int("12x".as_bytes()), None);
    let (n, rest) = decode_int("\r\n".as_bytes()).unwrap();
    assert_eq!(n, 0);
    assert!(rest.is_empty());
}

#[test]
fn check_clrf_error() {
    assert_eq!(check_clrf("x\r\n".as_bytes()), Err("clrf not found".to_string()));
    assert_eq!(check_clrf("\r\nab".as_bytes()), Ok("ab".as_bytes()));
}

#[test]
fn encode_values() {
    assert_eq!(bulk("foo").encode(), Some("$3\r\nfoo\r\n".as_bytes().to_vec()));
    assert_eq!(bulk("\u{e9}").encode(), Some("$2\r\n\u{e9}\r\n".as_bytes().to_vec()));
    assert_eq!(Resp::SimpleStr("hello".to_string()).encode(), Some("+hello\r\n".as_bytes().to_vec()));
    assert_eq!(Resp::Nil.encode(), Some("$-1\r\n".as_bytes().to_vec()));
    assert_eq!(Resp::Num(3).encode(), None);
    assert_eq!(Resp::FileContent(vec![1, 2]).encode(), None);
}

#[test]
fn encode_list_skips_numbers() {
    let input = VecDeque::from([bulk("set"), bulk("foo"), bulk("bar"), bulk("px"), Resp::Num(100)]);
    assert_eq!(
        Resp::Arr(input).encode(),
        Some("*5\r\n$3\r\nset\r\n$3\r\nfoo\r\n$3\r\nbar\r\n$2\r\npx\r\n".as_bytes().to_vec())
    );
}

#[test]
fn roundtrip_nested_bulk() {
    let v = Resp::Arr(VecDeque::from([
        bulk("SET"),
        Resp::Arr(VecDeque::from([bulk(""), bulk("x y")])),
        bulk("\u{1F600}"),
    ]));
    let mut bytes = v.clone().encode().unwrap();
    bytes.extend_from_slice(b"tail");
    let (back, rest) = decode_resp(&bytes).unwrap();
    assert_eq!(back, v);
    assert_eq!(rest, b"tail");
}

#[test]
fn clone_and_text() {
    let v = Resp::Arr(VecDeque::from([bulk("a"), Resp::Nil]));
    assert_eq!(v.clone(), v);
    assert!(bulk("x").if_str());
    assert!(Resp::SimpleStr("y".to_string()).if_str());
    assert!(!Resp::Num(1).if_str());
    assert_eq!(bulk("x").get_str(), Some("x".to_string()));
    assert_eq!(Resp::Nil.get_str(), None);
}

#[test]
fn numbers_in_decimal() {
    assert_eq!(decimal_bytes(0), b"0".to_vec());
    assert_eq!(decimal_bytes(1234), b"1234".to_vec());
    assert_eq!(decimal_bytes(u64::MAX), b"18446744073709551615".to_vec());
    assert_eq!(file_content_header(88), b"$88\r\n".to_vec());
    assert_eq!(parse_u128(b"+5"), Some(5));
    assert_eq!(parse_u128(b"100"), Some(100));
    assert_eq!(parse_u128(b""), None);
    assert_eq!(parse_u128(b"+"), None);
    assert_eq!(parse_u128(b"-1"), None);
    assert_eq!(parse_u128(b"1a"), None);
    assert_eq!(parse_u128(b"340282366920938463463374607431768211455"), Some(u128::MAX));
    assert_eq!(parse_u128(b"340282366920938463463374607431768211456"), None);
    assert_eq!(parse_u32(b"4294967295"), Some(u32::MAX));
    assert_eq!(parse_u32(b"4294967296"), None);
}
