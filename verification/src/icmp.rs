//! One ICMP echo exchange: the request's parameters, the session that
//! walks it through the native call sequence, and the decoded reply.
//!
//! The native facility is driven from outside: the session never calls it.
//! Each of its three operations (create-handle, send-echo, close-handle) is
//! performed by the caller, who feeds the session what came back and obeys
//! the call description the session hands out. The session decides every
//! step, so the whole decision logic sits here, whatever the native layer is.

pub mod icmp_sys;

use crate::ipv4::Addr;
use icmp_sys::{header_spec, IpOptionInformation, HEADER_SIZE, REPLY_GAP};
use vstd::prelude::*;

verus! {

/// A decoded echo reply: who answered, the echoed payload (an owned copy,
/// detached from the reply buffer), the round-trip time in milliseconds,
/// and the hop limit the answer came back with.
#[derive(Debug)]
pub struct Reply {
    pub addr: Addr,
    pub data: Vec<u8>,
    pub rtt: u32,
    pub ttl: u8,
}

/// The parameters of one echo request, accumulated by the builder methods.
#[derive(Debug)]
pub struct Request {
    pub dest: Addr,
    pub ttl: u8,
    pub timeout: u32,
    pub data: Option<Vec<u8>>,
}

/// Why an echo exchange yielded no reply.
#[derive(Debug, Clone, Copy, PartialEq, Eq)]
pub enum EchoError {
    /// The create call returned a null handle.
    HandleCreationFailed,
    /// The send call returned zero; the native layer offers no more detail.
    EchoFailed,
    /// The reply buffer declares more payload than it holds.
    MalformedReply,
}

impl Request {
    /// A request to `dest` with the default hop limit (128), the default
    /// timeout (4000 ms) and no payload.
    pub fn new(dest: Addr) -> (r: Request)
        ensures
            r.dest == dest,
            r.ttl == 128,
            r.timeout == 4000,
            r.data is None,
    {
        Request { dest, ttl: 128, timeout: 4000, data: None }
    }

    /// The same request with the hop limit replaced.
    pub fn ttl(self, ttl: u8) -> (r: Request)
        ensures
            r.dest == self.dest,
            r.ttl == ttl,
            r.timeout == self.timeout,
            r.data == self.data,
    {
        Request { ttl, ..self }
    }

    /// The same request with the timeout (in milliseconds) replaced.
    pub fn timeout(self, timeout: u32) -> (r: Request)
        ensures
            r.dest == self.dest,
            r.ttl == self.ttl,
            r.timeout == timeout,
            r.data == self.data,
    {
        Request { timeout, ..self }
    }

    /// The same request with the payload replaced.
    pub fn data(self, data: Vec<u8>) -> (r: Request)
        ensures
            r.dest == self.dest,
            r.ttl == self.ttl,
            r.timeout == self.timeout,
            r.data == Some(data),
    {
        Request { data: Some(data), ..self }
    }
}

/// The payload a request carries: its data, or nothing.
pub open spec fn payload_of(d: Option<Vec<u8>>) -> Seq<u8> {
    match d {
        Some(v) => v@,
        None => Seq::empty(),
    }
}

/// The bytes a well-formed reply buffer echoes back: as many as the header
/// declares, starting right after the header and the reserved gap.
pub open spec fn reply_payload(b: Seq<u8>) -> Seq<u8> {
    b.subrange(
        HEADER_SIZE as int + REPLY_GAP as int,
        HEADER_SIZE as int + REPLY_GAP as int + header_spec(b).data_size as int,
    )
}

/// A reply buffer is well formed when it holds the full header, the
/// reserved gap, and at least as many payload bytes as the header declares.
pub open spec fn reply_well_formed(b: Seq<u8>) -> bool {
    b.len() >= HEADER_SIZE + REPLY_GAP && header_spec(b).data_size as int + HEADER_SIZE as int
        + REPLY_GAP as int <= b.len()
}

/// Decode a reply buffer: reinterpret its head as the reply header, then
/// copy out exactly the declared number of payload bytes. A buffer that
/// declares more payload than it holds is rejected, never read past its end.
pub fn decode_reply(buf: &[u8]) -> (r: Option<Reply>)
    ensures
        match r {
            Some(rep) => reply_well_formed(buf@) && rep.addr == header_spec(buf@).address
                && rep.rtt == header_spec(buf@).rtt && rep.ttl == header_spec(
                buf@,
            ).options.ttl && rep.data@ == reply_payload(buf@),
            None => !reply_well_formed(buf@),
        },
{
    if buf.len() < HEADER_SIZE + REPLY_GAP {
        return None;
    }
    let header = icmp_sys::decode_header(buf);
    let ds = header.data_size as usize;
    if ds > buf.len() - (HEADER_SIZE + REPLY_GAP) {
        return None;
    }
    let mut data: Vec<u8> = Vec::new();
    let mut i: usize = 0;
    while i < ds
        invariant
            i <= ds,
            HEADER_SIZE + REPLY_GAP + ds <= buf@.len(),
            buf@.len() <= usize::MAX,
            data@ =~= buf@.subrange(
                HEADER_SIZE as int + REPLY_GAP as int,
                HEADER_SIZE as int + REPLY_GAP as int + i as int,
            ),
        decreases ds - i,
    {
        data.push(buf[HEADER_SIZE + REPLY_GAP + i]);
        i += 1;
    }
    proof {
        assert(data@ =~= reply_payload(buf@));
    }
    Some(Reply { addr: header.address, data, rtt: header.rtt, ttl: header.options.ttl })
}

/// What the caller must hand to the native send-echo call.
pub struct SendCall {
    /// The handle the create call returned.
    pub handle: u64,
    /// The destination address.
    pub dest: Addr,
    /// The length of the payload to send.
    pub request_size: u16,
    /// The options block: the request's hop limit, everything else zero.
    pub options: IpOptionInformation,
    /// How many bytes the caller must allocate (zeroed) for the reply:
    /// header, reserved gap, and room to echo the payload.
    pub reply_buf_size: usize,
    /// The timeout in milliseconds.
    pub timeout: u32,
}

/// Where a session stands. Each handle obtained is closed exactly once:
/// `CloseDue` is the only way from `HandleOpen` to `Done`, and a session
/// whose create call failed never holds a handle at all.
pub enum SessionState {
    /// No native call made yet.
    Created,
    /// The create call returned this handle; send-echo is next.
    HandleOpen { handle: u64 },
    /// Send-echo came back and its outcome is decided, but the handle is
    /// still open: it must be closed before the session can finish.
    CloseDue { handle: u64, outcome: Result<Reply, EchoError> },
    /// The exchange is over and the outcome may be taken.
    Done { outcome: Result<Reply, EchoError> },
}

/// How the session judges one send attempt: a zero return value is failure,
/// anything else means the reply buffer holds a reply, which must decode.
pub open spec fn outcome_matches(ret: u32, b: Seq<u8>, outcome: Result<Reply, EchoError>) -> bool {
    if ret == 0 {
        outcome == Err::<Reply, EchoError>(EchoError::EchoFailed)
    } else if !reply_well_formed(b) {
        outcome == Err::<Reply, EchoError>(EchoError::MalformedReply)
    } else {
        outcome matches Ok(rep) && rep.addr == header_spec(b).address && rep.rtt == header_spec(
            b,
        ).rtt && rep.ttl == header_spec(b).options.ttl && rep.data@ == reply_payload(b)
    }
}

/// One echo exchange in progress. The caller performs each native call and
/// feeds back what it returned; the session decides what follows.
pub struct Session {
    pub dest: Addr,
    pub ttl: u8,
    pub timeout: u32,
    pub payload: Vec<u8>,
    pub state: SessionState,
}

/// The request's parameters never change once a session holds them; only
/// the state advances.
pub open spec fn same_request(a: Session, b: Session) -> bool {
    a.dest == b.dest && a.ttl == b.ttl && a.timeout == b.timeout && a.payload == b.payload
}

impl Session {
    /// Open a session for `req`. A request without a payload sends nothing.
    pub fn new(req: Request) -> (s: Session)
        ensures
            s.dest == req.dest,
            s.ttl == req.ttl,
            s.timeout == req.timeout,
            s.payload@ == payload_of(req.data),
            s.state is Created,
    {
        let payload = match req.data {
            Some(d) => d,
            None => Vec::new(),
        };
        Session { dest: req.dest, ttl: req.ttl, timeout: req.timeout, payload, state: SessionState::Created }
    }

    /// Feed the session the handle the create call returned. A null handle
    /// means creation failed and the session is over, with nothing to close.
    /// Otherwise the returned description says how to invoke send-echo: the
    /// reply buffer to allocate is exactly the header, the reserved gap, and
    /// room for the payload to come back.
    pub fn on_handle(&mut self, handle: u64) -> (call: Option<SendCall>)
        requires
            old(self).state is Created,
            old(self).payload@.len() <= 0xFFFF,
        ensures
            same_request(*old(self), *final(self)),
            handle == 0 ==> final(self).state == (SessionState::Done {
                outcome: Err::<Reply, EchoError>(EchoError::HandleCreationFailed),
            }) && call is None,
            handle != 0 ==> final(self).state == (SessionState::HandleOpen { handle }) && call
                == Some(
                SendCall {
                    handle,
                    dest: old(self).dest,
                    request_size: old(self).payload@.len() as u16,
                    options: (IpOptionInformation {
                        ttl: old(self).ttl,
                        tos: 0,
                        flags: 0,
                        options_size: 0,
                        options_data: 0,
                    }),
                    reply_buf_size: (HEADER_SIZE + REPLY_GAP + old(self).payload@.len()) as usize,
                    timeout: old(self).timeout,
                },
            ),
    {
        if handle == 0 {
            self.state = SessionState::Done {
                outcome: Err(EchoError::HandleCreationFailed),
            };
            None
        } else {
            let call = SendCall {
                handle,
                dest: self.dest,
                request_size: self.payload.len() as u16,
                options: IpOptionInformation {
                    ttl: self.ttl,
                    tos: 0,
                    flags: 0,
                    options_size: 0,
                    options_data: 0,
                },
                reply_buf_size: HEADER_SIZE + REPLY_GAP + self.payload.len(),
                timeout: self.timeout,
            };
            self.state = SessionState::HandleOpen { handle };
            Some(call)
        }
    }

    /// Feed the session the send call's return value and the reply buffer it
    /// was given. The outcome is decided here, but whether the send worked
    /// or not, the handle must now be closed: it is returned for exactly
    /// that, and the session waits for the close before it can finish.
    pub fn on_send_result(&mut self, ret: u32, reply_buf: &[u8]) -> (handle: u64)
        requires
            old(self).state is HandleOpen,
        ensures
            same_request(*old(self), *final(self)),
            old(self).state == (SessionState::HandleOpen { handle }),
            final(self).state matches SessionState::CloseDue { handle: h, outcome } && h == handle
                && outcome_matches(ret, reply_buf@, outcome),
    {
        let handle = match &self.state {
            SessionState::HandleOpen { handle } => *handle,
            _ => vstd::pervasive::unreached(),
        };
        let outcome = if ret == 0 {
            Err(EchoError::EchoFailed)
        } else {
            match decode_reply(reply_buf) {
                Some(rep) => Ok(rep),
                None => Err(EchoError::MalformedReply),
            }
        };
        self.state = SessionState::CloseDue { handle, outcome };
        handle
    }

    /// Record that the handle was closed. Only now is the session done.
    pub fn on_closed(&mut self)
        requires
            old(self).state is CloseDue,
        ensures
            same_request(*old(self), *final(self)),
            old(self).state matches SessionState::CloseDue { handle, outcome } && final(self).state
                == (SessionState::Done { outcome }),
    {
        let mut taken = SessionState::Created;
        core::mem::swap(&mut taken, &mut self.state);
        match taken {
            SessionState::CloseDue { handle: _, outcome } => {
                self.state = SessionState::Done { outcome };
            },
            _ => {
                vstd::pervasive::unreached()
            },
        }
    }

    /// One whole exchange against a native layer whose answers are already
    /// known: the handle its create call returned, then its send call's
    /// return value and the reply buffer it filled. The second component
    /// counts the close calls the session demanded of its driver: exactly
    /// one whenever a handle was obtained, whether the send succeeded or
    /// failed, and none when creation failed — a session cannot finish any
    /// other way.
    pub fn run_with(req: Request, handle: u64, ret: u32, reply_buf: &[u8]) -> (r: (
        Result<Reply, EchoError>,
        u32,
    ))
        requires
            payload_of(req.data).len() <= 0xFFFF,
        ensures
            handle == 0 ==> r.0 == Err::<Reply, EchoError>(EchoError::HandleCreationFailed) && r.1
                == 0,
            handle != 0 ==> outcome_matches(ret, reply_buf@, r.0) && r.1 == 1,
    {
        let mut session = Session::new(req);
        match session.on_handle(handle) {
            None => (session.result(), 0),
            Some(_call) => {
                let h = session.on_send_result(ret, reply_buf);
                // Here a real driver closes the handle `h`; that done, and
                // only then, the session finishes.
                let closes: u32 = 1;
                session.on_closed();
                (session.result(), closes)
            },
        }
    }

    /// Take the finished session's outcome.
    pub fn result(self) -> (r: Result<Reply, EchoError>)
        requires
            self.state is Done,
        ensures
            self.state == (SessionState::Done { outcome: r }),
    {
        match self.state {
            SessionState::Done { outcome } => outcome,
            _ => vstd::pervasive::unreached(),
        }
    }
}

} // verus!
