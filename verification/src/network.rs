//! The per-connection decision logic: pull one frame out of the read
//! buffer, turn it into a command, execute it, and encode the reply.
//!
//! The socket loop around this lives outside the library; it appends
//! received bytes to the buffer, runs `server_step` until it reports
//! that more data is needed, writes the reply bytes out, and closes the
//! connection when a malformed frame was answered.

use vstd::prelude::*;

verus! {

use crate::backend::Backend;
use crate::cmd::{
    command_acceptable, command_parsed, command_reply_ok, Command, CommandError, CommandExecuter,
};
use crate::resp::frame::RespFrame;
use crate::resp::model::{decode_spec, encode_spec, FrameVal, SpecParse};
use crate::resp::simple_error::SimpleError;
use crate::resp::{RespEncode, RespError};

/// Whether a decoded frame parses as some command: it must be a
/// non-null array that `command_acceptable` admits.
pub open spec fn frame_acceptable(v: FrameVal) -> bool {
    match v {
        FrameVal::Arr(a) => command_acceptable(a),
        _ => false,
    }
}

/// The frame is an array that parses exactly as the command `c`.
pub open spec fn frame_parsed(v: FrameVal, c: Command) -> bool {
    match v {
        FrameVal::Arr(a) => command_parsed(a, c),
        _ => false,
    }
}

/// The reply a request frame is owed: an error frame where the frame
/// parses as no command, and otherwise the reply of the command the
/// frame parses as.
pub open spec fn reply_frame_ok(v: FrameVal, rv: FrameVal) -> bool {
    &&& !frame_acceptable(v) ==> (rv matches FrameVal::Error(_))
    &&& frame_acceptable(v) ==> exists|c: Command|
        #[trigger] frame_parsed(v, c) && command_reply_ok(c, rv)
}

/// What the driver should do after one step.
pub enum StepOutcome {
    /// The buffer holds no complete frame yet: read more bytes.
    NeedMore,
    /// One frame was consumed; send these reply bytes and step again.
    Reply(Vec<u8>),
    /// The buffer was malformed; send these error reply bytes, then
    /// close the connection.
    Close(Vec<u8>),
}

impl RespError {
    /// A short reply text naming the decode error.
    pub fn message(&self) -> (r: Vec<u8>)
    {
        let mut m: Vec<u8> = Vec::new();
        // "ERR "
        m.push(69);
        m.push(82);
        m.push(82);
        m.push(32);
        match self {
            RespError::InvalidFrame(t) => {
                crate::resp::encode::push_slice(&mut m, t.as_slice());
            },
            RespError::InvalidFrameType(t) => {
                crate::resp::encode::push_slice(&mut m, t.as_slice());
            },
            RespError::InvalidFrameLength(l) => {
                // "length " and the value
                m.push(108);
                m.push(101);
                m.push(110);
                m.push(103);
                m.push(116);
                m.push(104);
                m.push(32);
                crate::resp::digits::push_int_text(*l, &mut m);
            },
            RespError::NotCompleteFrame => {
                // "incomplete"
                m.push(105);
                m.push(110);
                m.push(99);
                m.push(111);
                m.push(109);
                m.push(112);
                m.push(108);
                m.push(101);
                m.push(116);
                m.push(101);
            },
            RespError::ParseIntError => {
                // "bad integer"
                m.push(98);
                m.push(97);
                m.push(100);
                m.push(32);
                m.push(105);
                m.push(110);
                m.push(116);
            },
            RespError::ParseFloatError => {
                // "bad float"
                m.push(98);
                m.push(97);
                m.push(100);
                m.push(32);
                m.push(102);
                m.push(108);
                m.push(111);
                m.push(97);
                m.push(116);
            },
        }
        m
    }
}

impl CommandError {
    /// A short reply text naming the command error.
    pub fn message(&self) -> (r: Vec<u8>)
    {
        match self {
            CommandError::InvalidCommand(t) => {
                let mut m: Vec<u8> = Vec::new();
                m.push(69);
                m.push(82);
                m.push(82);
                m.push(32);
                crate::resp::encode::push_slice(&mut m, t.as_slice());
                m
            },
            CommandError::InvalidArgument(t) => {
                let mut m: Vec<u8> = Vec::new();
                m.push(69);
                m.push(82);
                m.push(82);
                m.push(32);
                crate::resp::encode::push_slice(&mut m, t.as_slice());
                m
            },
            CommandError::RespError(e) => e.message(),
            CommandError::Utf8Error => {
                let mut m: Vec<u8> = Vec::new();
                // "ERR bad utf8"
                m.push(69);
                m.push(82);
                m.push(82);
                m.push(32);
                m.push(98);
                m.push(97);
                m.push(100);
                m.push(32);
                m.push(117);
                m.push(116);
                m.push(102);
                m.push(56);
                m
            },
        }
    }
}

/// One request, one reply: parse the decoded frame into a command and
/// execute it; a parse error becomes a simple-error reply and the
/// connection stays open.
pub fn request_handler(frame: RespFrame, backend: Backend) -> (r: RespFrame)
    ensures
        reply_frame_ok(frame@, r@),
{
    let ghost fv = frame@;
    match Command::try_from(frame) {
        Ok(cmd) => {
            let ghost gc = cmd;
            let r = cmd.execute(backend);
            proof {
                assert(frame_parsed(fv, gc) && command_reply_ok(gc, r@));
            }
            r
        },
        Err(e) => RespFrame::SimpleError(SimpleError(e.message())),
    }
}

/// One driver step over the read buffer.
///
/// Exactly one of three things happens, decided by the decode of the
/// buffer's front: no complete frame and the buffer is untouched; one
/// frame consumed and its reply encoded; or malformed input, the buffer
/// untouched, and a final error reply encoded before closing.
pub fn server_step(buf: &mut Vec<u8>, backend: Backend) -> (r: StepOutcome)
    ensures
        ({
            let d = decode_spec(old(buf)@, 0);
            match r {
                StepOutcome::NeedMore => d is Incomplete && final(buf)@ == old(buf)@,
                StepOutcome::Reply(bytes) => d matches SpecParse::Parsed(v, n) && final(buf)@
                    == old(buf)@.skip(n) && exists|rv: FrameVal|
                    bytes@ == #[trigger] encode_spec(rv) && reply_frame_ok(v, rv),
                StepOutcome::Close(bytes) => d matches SpecParse::Fail(k) && final(buf)@ == old(
                    buf,
                )@ && exists|m: Seq<u8>| bytes@ == encode_spec(FrameVal::Error(m)),
            }
        }),
{
    match RespFrame::decode(buf) {
        Ok(frame) => {
            let ghost fv = frame@;
            let reply = request_handler(frame, backend);
            let ghost rv = reply@;
            let bytes = reply.encode();
            proof {
                assert(bytes@ == encode_spec(rv));
                if !frame_acceptable(fv) {
                    assert(rv matches FrameVal::Error(_));
                }
            }
            StepOutcome::Reply(bytes)
        },
        Err(e) => {
            match e {
                RespError::NotCompleteFrame => StepOutcome::NeedMore,
                other => {
                    let msg = other.message();
                    let ghost mv = msg@;
                    let reply = RespFrame::SimpleError(SimpleError(msg));
                    let ghost rv = reply@;
                    let bytes = reply.encode();
                    proof {
                        assert(rv == FrameVal::Error(mv));
                        assert(bytes@ == encode_spec(FrameVal::Error(mv)));
                    }
                    StepOutcome::Close(bytes)
                },
            }
        },
    }
}

} // verus!
