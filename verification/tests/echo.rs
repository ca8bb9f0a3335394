use pong::icmp::icmp_sys::{HEADER_SIZE, OFF_DATA_SIZE, OFF_OPTIONS, OFF_RTT, OFF_STATUS, REPLY_GAP};
use pong::icmp::{decode_reply, EchoError, Request, Session};
use pong::ipv4::Addr;

/// A reply buffer as the fake native layer writes it: the header fields
/// given here, the reserved gap, then the echoed payload, then `extra`
/// bytes of slack.
fn fake_reply_buf(
    addr: [u8; 4],
    status: u32,
    rtt: u32,
    data_size: u16,
    reply_ttl: u8,
    payload: &[u8],
    extra: usize,
) -> Vec<u8> {
    let mut b = vec![0u8; HEADER_SIZE + REPLY_GAP];
    b[0..4].copy_from_slice(&addr);
    b[OFF_STATUS..OFF_STATUS + 4].copy_from_slice(&status.to_le_bytes());
    b[OFF_RTT..OFF_RTT + 4].copy_from_slice(&rtt.to_le_bytes());
    b[OFF_DATA_SIZE..OFF_DATA_SIZE + 2].copy_from_slice(&data_size.to_le_bytes());
    b[OFF_OPTIONS] = reply_ttl;
    b.extend_from_slice(payload);
    b.resize(b.len() + extra, 0);
    b
}

/// Drive one session against a fake native layer, counting the close calls.
/// `ret` is what the fake send returns; `reply` is what it wrote into the
/// buffer (ignored by the session when `ret` is 0).
fn drive(req: Request, handle: u64, ret: u32, reply: &[u8]) -> (Result<pong::icmp::Reply, EchoError>, usize) {
    let mut closes = 0usize;
    let mut session = Session::new(req);
    assert!(session.payload.len() <= 0xFFFF);
    match session.on_handle(handle) {
        None => (),
        Some(call) => {
            // The fake send: the reply bytes stand for what the native
            // layer wrote into the zeroed buffer the caller allocated.
            assert_eq!(call.reply_buf_size, HEADER_SIZE + REPLY_GAP + session.payload.len());
            let h = session.on_send_result(ret, reply);
            assert_eq!(h, handle);
            closes += 1; // the fake close-handle call
            session.on_closed();
        },
    }
    (session.result(), closes)
}

#[test]
fn reply_buffer_size_payload_0() {
    let mut s = Session::new(Request::new(Addr([1, 2, 3, 4])));
    let call = s.on_handle(7).unwrap();
    assert_eq!(call.reply_buf_size, HEADER_SIZE + 8);
}

#[test]
fn reply_buffer_size_payload_1() {
    let mut s = Session::new(Request::new(Addr([1, 2, 3, 4])).data(vec![0xAB]));
    let call = s.on_handle(7).unwrap();
    assert_eq!(call.reply_buf_size, HEADER_SIZE + 8 + 1);
}

#[test]
fn reply_buffer_size_payload_n() {
    let payload = vec![7u8; 23];
    let mut s = Session::new(Request::new(Addr([1, 2, 3, 4])).data(payload));
    let call = s.on_handle(7).unwrap();
    assert_eq!(call.reply_buf_size, HEADER_SIZE + 8 + 23);
}

#[test]
fn end_to_end_success() {
    let dest = Addr::from_str("8.8.8.8").unwrap();
    let req = Request::new(dest).ttl(128).timeout(4000).data(b"ping".to_vec());
    let reply = fake_reply_buf([8, 8, 8, 8], 1, 23, 4, 55, b"ping", 0);
    assert_eq!(reply.len(), HEADER_SIZE + 8 + 4);
    let (res, closes) = drive(req, 7, 1, &reply);
    let rep = res.unwrap();
    assert_eq!(rep.addr.0, [8, 8, 8, 8]);
    assert_eq!(rep.rtt, 23);
    assert_eq!(rep.ttl, 55);
    assert_eq!(rep.data, b"ping".to_vec());
    assert_eq!(closes, 1);
}

#[test]
fn end_to_end_failure_still_closes() {
    let dest = Addr::from_str("8.8.8.8").unwrap();
    let req = Request::new(dest).ttl(128).timeout(4000).data(b"ping".to_vec());
    let reply = vec![0u8; HEADER_SIZE + 8 + 4];
    let (res, closes) = drive(req, 7, 0, &reply);
    assert_eq!(res.unwrap_err(), EchoError::EchoFailed);
    assert_eq!(closes, 1);
}

#[test]
fn success_closes_once_too() {
    let req = Request::new(Addr([127, 0, 0, 1]));
    let reply = fake_reply_buf([127, 0, 0, 1], 0, 1, 0, 64, b"", 0);
    let (res, closes) = drive(req, 9, 12345, &reply);
    assert!(res.is_ok());
    assert_eq!(closes, 1);
}

#[test]
fn null_handle_fails_without_close() {
    let req = Request::new(Addr([10, 0, 0, 1]));
    let (res, closes) = drive(req, 0, 0, &[]);
    assert_eq!(res.unwrap_err(), EchoError::HandleCreationFailed);
    assert_eq!(closes, 0);
}

#[test]
fn builder_defaults() {
    let dest = Addr([9, 9, 9, 9]);
    let req = Request::new(dest);
    assert_eq!(req.ttl, 128);
    assert_eq!(req.timeout, 4000);
    assert!(req.data.is_none());
    let mut s = Session::new(req);
    let call = s.on_handle(3).unwrap();
    assert_eq!(call.options.ttl, 128);
    assert_eq!(call.options.tos, 0);
    assert_eq!(call.options.flags, 0);
    assert_eq!(call.options.options_size, 0);
    assert_eq!(call.options.options_data, 0);
    assert_eq!(call.timeout, 4000);
    assert_eq!(call.request_size, 0);
    assert_eq!(call.reply_buf_size, HEADER_SIZE + 8);
    assert_eq!(call.dest.0, [9, 9, 9, 9]);
    assert_eq!(call.handle, 3);
}

#[test]
fn builder_overrides() {
    let req = Request::new(Addr([1, 1, 1, 1])).ttl(7).timeout(250).data(vec![1, 2, 3]);
    assert_eq!(req.ttl, 7);
    assert_eq!(req.timeout, 250);
    assert_eq!(req.data, Some(vec![1, 2, 3]));
}

#[test]
fn decode_copies_declared_bytes() {
    // Six payload bytes declared, two bytes of slack behind them: exactly
    // the six are copied.
    let reply = fake_reply_buf([1, 2, 3, 4], 0, 9, 6, 31, b"abcdef", 2);
    let rep = decode_reply(&reply).unwrap();
    assert_eq!(rep.data, b"abcdef".to_vec());
    assert_eq!(rep.addr.0, [1, 2, 3, 4]);
    assert_eq!(rep.rtt, 9);
    assert_eq!(rep.ttl, 31);
}

#[test]
fn decode_rejects_oversized_declaration() {
    // The header declares five payload bytes but only four are there.
    let reply = fake_reply_buf([1, 2, 3, 4], 0, 9, 5, 31, b"abcd", 0);
    assert!(decode_reply(&reply).is_none());
}

#[test]
fn decode_rejects_short_buffer() {
    let reply = vec![0u8; HEADER_SIZE + REPLY_GAP - 1];
    assert!(decode_reply(&reply).is_none());
}

#[test]
fn oversized_declaration_is_malformed_reply() {
    let req = Request::new(Addr([1, 2, 3, 4]));
    let reply = fake_reply_buf([1, 2, 3, 4], 0, 9, 200, 31, b"", 0);
    let (res, closes) = drive(req, 5, 1, &reply);
    assert_eq!(res.unwrap_err(), EchoError::MalformedReply);
    assert_eq!(closes, 1);
}

#[test]
fn run_with_counts_closes() {
    let reply = fake_reply_buf([4, 3, 2, 1], 1, 7, 2, 9, b"hi", 0);
    // Success: one close.
    let (res, closes) = Session::run_with(Request::new(Addr([4, 3, 2, 1])), 11, 1, &reply);
    assert_eq!(res.unwrap().data, b"hi".to_vec());
    assert_eq!(closes, 1);
    // Send failed: still one close.
    let (res, closes) = Session::run_with(Request::new(Addr([4, 3, 2, 1])), 11, 0, &reply);
    assert_eq!(res.unwrap_err(), EchoError::EchoFailed);
    assert_eq!(closes, 1);
    // No handle: nothing to close.
    let (res, closes) = Session::run_with(Request::new(Addr([4, 3, 2, 1])), 0, 0, &reply);
    assert_eq!(res.unwrap_err(), EchoError::HandleCreationFailed);
    assert_eq!(closes, 0);
}

#[test]
fn zero_rtt_and_empty_payload_decode() {
    let reply = fake_reply_buf([0, 0, 0, 0], 0, 0, 0, 0, b"", 0);
    let rep = decode_reply(&reply).unwrap();
    assert_eq!(rep.data.len(), 0);
    assert_eq!(rep.rtt, 0);
    assert_eq!(rep.ttl, 0);
}
