use resp_kv::dispatch::{respond, Ending, ProtocolError};
use resp_kv::parser::{parse, DecodeError};
use resp_kv::reply::encode;
use resp_kv::store::Store;

/// Decodes every request in `input`, answers each at the instant `now`, and
/// returns the bytes sent back together with what stopped the exchange.
fn exchange(store: &mut Store, input: &[u8], now: u128) -> (Vec<u8>, Stop) {
    let mut output = Vec::new();
    let mut pos = 0;
    loop {
        let (request, used) = match parse(input, pos) {
            Ok(decoded) => decoded,
            Err(DecodeError::EndOfStream) => return (output, Stop::Closed),
            Err(e) => return (output, Stop::Decode(e)),
        };
        pos += used;
        let outcome = respond(&request, store, now);
        for reply in &outcome.replies {
            output.extend_from_slice(&encode(reply));
        }
        if let Ending::Violation(e) = outcome.ending {
            return (output, Stop::Protocol(e));
        }
    }
}

#[derive(PartialEq, Debug)]
enum Stop {
    Closed,
    Decode(DecodeError),
    Protocol(ProtocolError),
}

#[test]
fn ping_works() {
    let mut store = Store::new();
    let (output, stop) = exchange(&mut store, b"*1\r\n$4\r\nPING\r\n", 0);
    assert_eq!(output, b"+PONG\r\n".to_vec());
    assert_eq!(stop, Stop::Closed);
}

#[test]
fn echo_works() {
    let mut store = Store::new();
    let (output, stop) = exchange(&mut store, b"*2\r\n$4\r\nECHO\r\n$4\r\nHIHI\r\n", 0);
    assert_eq!(output, b"$4\r\nHIHI\r\n".to_vec());
    assert_eq!(stop, Stop::Closed);
}

#[test]
fn get_set_works() {
    let mut store = Store::new();
    let (output, _) = exchange(&mut store, b"*3\r\n$3\r\nSET\r\n$2\r\nHI\r\n$3\r\nBYE\r\n", 0);
    assert_eq!(output, b"+OK\r\n".to_vec());

    let (output, _) = exchange(&mut store, b"*2\r\n$3\r\nGET\r\n$2\r\nHI\r\n", 0);
    assert_eq!(output, b"$3\r\nBYE\r\n".to_vec());

    let (output, _) = exchange(&mut store, b"*2\r\n$3\r\nGET\r\n$2\r\nBYE\r\n", 0);
    assert_eq!(output, b"$-1\r\n".to_vec());
}

#[test]
fn get_of_a_key_never_set_over_the_wire() {
    let mut store = Store::new();
    let (output, stop) = exchange(&mut store, b"*2\r\n$3\r\nGET\r\n$3\r\nBYE\r\n", 0);
    assert_eq!(output, b"$-1\r\n".to_vec());
    assert_eq!(stop, Stop::Closed);
    assert!(!store.contains_key(b"BYE"));
}

#[test]
fn set_with_ttl_expires_over_the_wire() {
    let mut store = Store::new();
    let set = b"*5\r\n$3\r\nSET\r\n$1\r\nK\r\n$1\r\nV\r\n$2\r\nPX\r\n$2\r\n50\r\n";
    let get = b"*2\r\n$3\r\nGET\r\n$1\r\nK\r\n";
    let (output, _) = exchange(&mut store, set, 1_000_000);
    assert_eq!(output, b"+OK\r\n".to_vec());

    let (output, _) = exchange(&mut store, get, 1_000_049);
    assert_eq!(output, b"$1\r\nV\r\n".to_vec());
    assert!(store.contains_key(b"K"));

    let (output, _) = exchange(&mut store, get, 1_000_051);
    assert_eq!(output, b"$-1\r\n".to_vec());
    assert!(!store.contains_key(b"K"));

    let (output, _) = exchange(&mut store, get, 1_000_052);
    assert_eq!(output, b"$-1\r\n".to_vec());
}

#[test]
fn malformed_length_ends_the_exchange_without_a_reply() {
    let mut store = Store::new();
    let (output, stop) = exchange(&mut store, b"$abc\r\n", 0);
    assert_eq!(output, Vec::<u8>::new());
    assert_eq!(stop, Stop::Decode(DecodeError::BadLength));
}

#[test]
fn three_commands_in_one_array_give_three_replies() {
    let mut store = Store::new();
    let input = b"*4\r\n$4\r\nPING\r\n$4\r\nECHO\r\n$1\r\nx\r\n$4\r\nPING\r\n";
    let (output, stop) = exchange(&mut store, input, 0);
    assert_eq!(output, b"+PONG\r\n$1\r\nx\r\n+PONG\r\n".to_vec());
    assert_eq!(stop, Stop::Closed);
}

#[test]
fn requests_back_to_back_are_answered_in_order() {
    let mut store = Store::new();
    let input = b"*3\r\n$3\r\nSET\r\n$1\r\na\r\n$1\r\n1\r\n*2\r\n$3\r\nGET\r\n$1\r\na\r\n*1\r\n$4\r\nPING\r\n";
    let (output, stop) = exchange(&mut store, input, 0);
    assert_eq!(output, b"+OK\r\n$1\r\n1\r\n+PONG\r\n".to_vec());
    assert_eq!(stop, Stop::Closed);
}

#[test]
fn bulk_string_as_a_request_is_a_violation() {
    let mut store = Store::new();
    let (output, stop) = exchange(&mut store, b"$4\r\nPING\r\n", 0);
    assert_eq!(output, Vec::<u8>::new());
    assert_eq!(stop, Stop::Protocol(ProtocolError::NotAnArray));
}

#[test]
fn unknown_command_keeps_the_exchange_open() {
    let mut store = Store::new();
    let input = b"*2\r\n$5\r\nFLUSH\r\n$4\r\nPING\r\n*1\r\n$4\r\nPING\r\n";
    let (output, stop) = exchange(&mut store, input, 0);
    assert_eq!(output, b"+PONG\r\n".to_vec());
    assert_eq!(stop, Stop::Closed);
}

#[test]
fn request_cut_short_is_told_from_a_closed_stream() {
    let mut store = Store::new();
    let (output, stop) = exchange(&mut store, b"*1\r\n$4\r\nPING\r\n*1\r\n$4\r\nPI", 0);
    assert_eq!(output, b"+PONG\r\n".to_vec());
    assert_eq!(stop, Stop::Decode(DecodeError::Truncated));
}

#[test]
fn value_that_is_not_text_goes_through_unchanged() {
    let mut store = Store::new();
    let mut input = b"*3\r\n$3\r\nSET\r\n$2\r\n".to_vec();
    input.extend_from_slice(&[0xff, 0x00]);
    input.extend_from_slice(b"\r\n$3\r\n");
    input.extend_from_slice(&[0x80, 0x0a, 0xfe]);
    input.extend_from_slice(b"\r\n*2\r\n$3\r\nGET\r\n$2\r\n");
    input.extend_from_slice(&[0xff, 0x00]);
    input.extend_from_slice(b"\r\n");
    let (output, stop) = exchange(&mut store, &input, 0);
    let mut expected = b"+OK\r\n$3\r\n".to_vec();
    expected.extend_from_slice(&[0x80, 0x0a, 0xfe]);
    expected.extend_from_slice(b"\r\n");
    assert_eq!(output, expected);
    assert_eq!(stop, Stop::Closed);
}
