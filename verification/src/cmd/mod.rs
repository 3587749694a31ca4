//! Typed commands: parsing from a RESP array and execution against the
//! store.

use vstd::prelude::*;

pub mod echo;
pub mod hmap;
pub mod hmget;
pub mod map;
pub mod set;

verus! {

use crate::backend::Backend;
use crate::resp::array::RespArray;
use crate::resp::frame::{frames_view, lemma_frames_view, RespFrame};
use crate::resp::model::{lower_byte, FrameVal};
use crate::resp::simple_string::SimpleString;
use crate::resp::RespError;
use crate::utf8::is_utf8;
use crate::cmd::echo::Echo;
use crate::cmd::hmget::HmGet;
use crate::cmd::set::{SAdd, SisMember};

/// Execute a parsed command against the store, producing the reply
/// frame.
pub trait CommandExecuter: Sized {
    fn execute(self, backend: Backend) -> RespFrame;
}

/// One parsed client command.
#[derive(Debug)]
pub enum Command {
    Get(Get),
    SetCmd(SetCmd),
    HSet(HSet),
    HGet(HGet),
    HGetAll(HGetAll),
    Echo(Echo),
    HmGet(HmGet),
    SAdd(SAdd),
    SisMember(SisMember),
    Unrecongnized(Unrecongnized),
}

/// An unrecognized verb; executing it replies `OK` rather than an
/// error, preserving the permissive treatment of unknown commands.
#[derive(Debug)]
pub struct Unrecongnized;

#[derive(Debug)]
pub struct Get {
    pub key: Vec<u8>,
}

#[derive(Debug)]
pub struct SetCmd {
    pub key: Vec<u8>,
    pub value: RespFrame,
}

/// Set one hash field; creates the hash on first use.
#[derive(Debug)]
pub struct HSet {
    pub key: Vec<u8>,
    pub field: Vec<u8>,
    pub value: RespFrame,
}

#[derive(Debug)]
pub struct HGet {
    pub key: Vec<u8>,
    pub field: Vec<u8>,
}

#[derive(Debug)]
pub struct HGetAll {
    pub key: Vec<u8>,
}

/// Errors from turning a frame into a typed command.
#[derive(Debug, Clone, PartialEq, Eq)]
pub enum CommandError {
    InvalidCommand(Vec<u8>),
    InvalidArgument(Vec<u8>),
    RespError(RespError),
    Utf8Error,
}

/// ASCII-lowercased image of a byte string.
pub open spec fn lower_seq(s: Seq<u8>) -> Seq<u8> {
    Seq::new(s.len(), |i: int| lower_byte(s[i]))
}

/// The first element is a non-null bulk string whose lowercased bytes
/// are `name`.
pub open spec fn verb_is(items: Seq<FrameVal>, name: Seq<u8>) -> bool {
    items.len() > 0 && match items[0] {
        FrameVal::Bulk(d) => match d {
            Some(v) => lower_seq(v) == name,
            None => false,
        },
        _ => false,
    }
}

/// A non-null bulk string holding valid UTF-8: the shape every key and
/// field argument must have.
pub open spec fn is_utf8_bulk(v: FrameVal) -> bool {
    match v {
        FrameVal::Bulk(d) => match d {
            Some(b) => is_utf8(b),
            None => false,
        },
        _ => false,
    }
}

/// The payload of a non-null bulk string.
pub open spec fn bulk_bytes(v: FrameVal) -> Seq<u8> {
    match v {
        FrameVal::Bulk(d) => match d {
            Some(b) => b,
            None => Seq::empty(),
        },
        _ => Seq::empty(),
    }
}

/// The reply `+OK`.
pub fn resp_ok() -> (r: RespFrame)
    ensures
        r@ == FrameVal::Simple(seq![79u8, 75u8]),
{
    let mut v: Vec<u8> = Vec::new();
    v.push(79);
    v.push(75);
    proof {
        assert(v@ =~= seq![79u8, 75u8]);
    }
    RespFrame::SimpleString(SimpleString(v))
}

/// ASCII-lowercase a byte string.
pub fn bytes_lower(s: &[u8]) -> (r: Vec<u8>)
    ensures
        r@ == lower_seq(s@),
{
    let mut out: Vec<u8> = Vec::new();
    let mut i: usize = 0;
    while i < s.len()
        invariant
            0 <= i <= s@.len(),
            out@.len() == i,
            forall|j: int| 0 <= j < i ==> out@[j] == lower_byte(#[trigger] s@[j]),
        decreases s@.len() - i,
    {
        let c = s[i];
        if c >= 65 && c <= 90 {
            out.push(c + 32);
        } else {
            out.push(c);
        }
        i = i + 1;
    }
    proof {
        assert(out@ =~= lower_seq(s@));
    }
    out
}

/// Whether the array's first element is a non-null bulk string whose
/// lowercased bytes equal `name`.
pub fn first_verb_is(value: &RespArray, name: &[u8]) -> (r: bool)
    ensures
        r == match value@ {
            Some(items) => verb_is(items, name@),
            None => false,
        },
{
    match &value.0 {
        Some(v) => {
            proof {
                lemma_frames_view(v@);
            }
            if v.len() == 0 {
                return false;
            }
            match &v[0] {
                RespFrame::BulkString(b) => match &b.0 {
                    Some(bytes) => {
                        let low = bytes_lower(bytes.as_slice());
                        crate::resp::order::bytes_eq(low.as_slice(), name)
                    },
                    None => false,
                },
                _ => false,
            }
        },
        None => false,
    }
}

/// Check the common command shape: a non-null array of exactly
/// `n_args + 1` elements whose first element is the bulk string `name`.
/// A null array or a wrong verb is an invalid command; a wrong arity or
/// an unusable first element is an invalid argument.
pub fn validate_command(value: &RespArray, name: &[u8], n_args: usize) -> (r: Result<
    (),
    CommandError,
>)
    requires
        n_args < usize::MAX,
    ensures
        match r {
            Ok(_) => value@ matches Some(items) && items.len() == n_args + 1 && verb_is(
                items,
                name@,
            ),
            Err(e) => match value@ {
                Some(items) => !(items.len() == n_args + 1 && verb_is(items, name@)) && (
                if items.len() != n_args + 1 {
                    e is InvalidArgument
                } else if !(items[0] matches FrameVal::Bulk(Some(_))) {
                    e is InvalidArgument
                } else {
                    e is InvalidCommand
                }),
                None => e is InvalidCommand,
            },
        },
{
    let v = match &value.0 {
        Some(v) => v,
        None => {
            return Err(CommandError::InvalidCommand(arg_err_msg()));
        },
    };
    proof {
        lemma_frames_view(v@);
    }
    if v.len() != n_args + 1 {
        return Err(CommandError::InvalidArgument(arg_err_msg()));
    }
    match &v[0] {
        RespFrame::BulkString(b) => match &b.0 {
            Some(bytes) => {
                let low = bytes_lower(bytes.as_slice());
                if crate::resp::order::bytes_eq(low.as_slice(), name) {
                    Ok(())
                } else {
                    Err(CommandError::InvalidCommand(arg_err_msg()))
                }
            },
            None => Err(CommandError::InvalidArgument(arg_err_msg())),
        },
        _ => Err(CommandError::InvalidArgument(arg_err_msg())),
    }
}

/// The arguments after position `start`, taken out of the array; a
/// start past the end yields the empty tail.  Only a null array is an
/// error.
pub fn extract_args(value: RespArray, start: usize) -> (r: Result<Vec<RespFrame>, CommandError>)
    ensures
        match r {
            Ok(args) => value@ matches Some(items) && (if start <= items.len() {
                frames_view(args@) == items.skip(start as int)
            } else {
                args@.len() == 0
            }),
            Err(e) => value@ is None && e is InvalidCommand,
        },
{
    match value.0 {
        Some(mut v) => {
            let ghost orig = v@;
            proof {
                lemma_frames_view(orig);
            }
            let at = if start <= v.len() {
                start
            } else {
                v.len()
            };
            let tail = v.split_off(at);
            proof {
                lemma_frames_view(orig);
                lemma_frames_view(tail@);
                assert(tail@ =~= orig.subrange(at as int, orig.len() as int));
                if start <= orig.len() {
                    let fv = frames_view(orig).skip(start as int);
                    assert forall|j: int| 0 <= j < frames_view(tail@).len() implies frames_view(
                        tail@,
                    )[j] == fv[j] by {
                        assert(tail@[j] == orig[start + j]);
                        assert(fv[j] == frames_view(orig)[start + j]);
                    }
                    assert(frames_view(tail@) =~= fv);
                }
            }
            Ok(tail)
        },
        None => Err(CommandError::InvalidCommand(arg_err_msg())),
    }
}

/// A short message naming a bad key argument.
pub(crate) fn key_err_msg() -> Vec<u8>
{
    let mut m: Vec<u8> = Vec::new();
    // "bad key"
    m.push(98);
    m.push(97);
    m.push(100);
    m.push(32);
    m.push(107);
    m.push(101);
    m.push(121);
    m
}

/// A short message for argument errors.
pub(crate) fn arg_err_msg() -> Vec<u8>
{
    let mut m: Vec<u8> = Vec::new();
    // "bad command shape"
    m.push(98);
    m.push(97);
    m.push(100);
    m.push(32);
    m.push(99);
    m.push(111);
    m.push(109);
    m.push(109);
    m.push(97);
    m.push(110);
    m.push(100);
    m.push(32);
    m.push(115);
    m.push(104);
    m.push(97);
    m.push(112);
    m.push(101);
    m
}

impl CommandExecuter for Unrecongnized {
    fn execute(self, _backend: Backend) -> (r: RespFrame)
        ensures
            r@ == FrameVal::Simple(seq![79u8, 75u8]),
    {
        resp_ok()
    }
}

/// Whether an array parses as some command at all: a non-null array
/// whose first element is a non-null bulk string, and whose matched
/// verb (if any) accepts the arity and the UTF-8 key and field
/// arguments.  An unmatched verb always parses, as `Unrecongnized`.
pub open spec fn command_acceptable(a: Option<Seq<FrameVal>>) -> bool {
    match a {
        Some(items) => items.len() > 0 && (items[0] matches FrameVal::Bulk(Some(_))) && (
        if verb_is(items, seq![103u8, 101u8, 116u8]) {
            items.len() == 2 && is_utf8_bulk(items[1])
        } else if verb_is(items, seq![115u8, 101u8, 116u8]) {
            items.len() == 3 && is_utf8_bulk(items[1])
        } else if verb_is(items, seq![104u8, 115u8, 101u8, 116u8]) {
            items.len() == 4 && is_utf8_bulk(items[1]) && is_utf8_bulk(items[2])
        } else if verb_is(items, seq![104u8, 103u8, 101u8, 116u8]) {
            items.len() == 3 && is_utf8_bulk(items[1]) && is_utf8_bulk(items[2])
        } else if verb_is(items, seq![104u8, 103u8, 101u8, 116u8, 97u8, 108u8, 108u8]) {
            items.len() == 2 && is_utf8_bulk(items[1])
        } else if verb_is(items, seq![101u8, 99u8, 104u8, 111u8]) {
            items.len() == 2 && is_utf8_bulk(items[1])
        } else if verb_is(items, seq![104u8, 109u8, 103u8, 101u8, 116u8]) {
            items.len() >= 3 && is_utf8_bulk(items[1]) && forall|j: int|
                2 <= j < items.len() ==> is_utf8_bulk(#[trigger] items[j])
        } else if verb_is(items, seq![115u8, 97u8, 100u8, 100u8]) {
            items.len() >= 3 && is_utf8_bulk(items[1])
        } else if verb_is(items, seq![115u8, 105u8, 115u8, 109u8, 101u8, 109u8, 98u8, 101u8, 114u8]) {
            items.len() == 3 && is_utf8_bulk(items[1])
        } else {
            true
        }),
        None => false,
    }
}

/// What each command's reply is bound to: the exact frame where the
/// command never consults the store, and the exact shape where the
/// shared store's answer picks among the allowed replies.
pub open spec fn command_reply_ok(c: Command, rv: FrameVal) -> bool {
    match c {
        Command::SetCmd(_) => rv == FrameVal::Simple(seq![79u8, 75u8]),
        Command::HSet(_) => rv == FrameVal::Simple(seq![79u8, 75u8]),
        Command::Echo(e) => rv == FrameVal::Simple(e.0@),
        Command::HmGet(h) => rv matches FrameVal::Arr(x) && x matches Some(vs) && vs.len()
            == h.fields@.len(),
        Command::SAdd(a2) => rv == FrameVal::Int(
            if crate::cmd::set::has_double(frames_view(a2.members@)) {
                0
            } else {
                1
            },
        ),
        Command::SisMember(_) => rv == FrameVal::Int(0) || rv == FrameVal::Int(1),
        Command::HGetAll(_) => exists|q: Seq<(Seq<u8>, FrameVal)>|
            crate::resp::model::pairs_sorted(q) && rv == FrameVal::Arr(
                Some(#[trigger] crate::cmd::hmap::flat_pairs(q, 0)),
            ),
        Command::Unrecongnized(_) => rv == FrameVal::Simple(seq![79u8, 75u8]),
        Command::Get(_) => true,
        Command::HGet(_) => true,
    }
}

/// What a successfully parsed command says about the array it came
/// from: the verb matched, the arity fit, and the typed fields carry
/// exactly the argument payloads.
pub open spec fn command_parsed(a: Option<Seq<FrameVal>>, c: Command) -> bool {
    match a {
        Some(items) => match c {
            Command::Get(g) => items.len() == 2 && verb_is(items, seq![103u8, 101u8, 116u8])
                && is_utf8_bulk(items[1]) && g.key@ == bulk_bytes(items[1]),
            Command::SetCmd(s) => items.len() == 3 && verb_is(items, seq![115u8, 101u8, 116u8])
                && is_utf8_bulk(items[1]) && s.key@ == bulk_bytes(items[1]) && s.value@
                == items[2],
            Command::HSet(s) => items.len() == 4 && verb_is(
                items,
                seq![104u8, 115u8, 101u8, 116u8],
            ) && is_utf8_bulk(items[1]) && is_utf8_bulk(items[2]) && s.key@ == bulk_bytes(items[1])
                && s.field@ == bulk_bytes(items[2]) && s.value@ == items[3],
            Command::HGet(g) => items.len() == 3 && verb_is(
                items,
                seq![104u8, 103u8, 101u8, 116u8],
            ) && is_utf8_bulk(items[1]) && is_utf8_bulk(items[2]) && g.key@ == bulk_bytes(items[1])
                && g.field@ == bulk_bytes(items[2]),
            Command::HGetAll(g) => items.len() == 2 && verb_is(
                items,
                seq![104u8, 103u8, 101u8, 116u8, 97u8, 108u8, 108u8],
            ) && is_utf8_bulk(items[1]) && g.key@ == bulk_bytes(items[1]),
            Command::Echo(e) => items.len() == 2 && verb_is(
                items,
                seq![101u8, 99u8, 104u8, 111u8],
            ) && is_utf8_bulk(items[1]) && e.0@ == bulk_bytes(items[1]),
            Command::HmGet(h) => items.len() >= 3 && verb_is(
                items,
                seq![104u8, 109u8, 103u8, 101u8, 116u8],
            ) && is_utf8_bulk(items[1]) && h.key@ == bulk_bytes(items[1]) && h.fields@.len()
                == items.len() - 2 && forall|j: int|
                0 <= j < h.fields@.len() ==> is_utf8_bulk(#[trigger] items[j + 2]) && h.fields@[j]@
                    == bulk_bytes(items[j + 2]),
            Command::SAdd(a2) => items.len() >= 3 && verb_is(
                items,
                seq![115u8, 97u8, 100u8, 100u8],
            ) && is_utf8_bulk(items[1]) && a2.key@ == bulk_bytes(items[1]) && frames_view(
                a2.members@,
            ) == items.skip(2),
            Command::SisMember(m) => items.len() == 3 && verb_is(
                items,
                seq![115u8, 105u8, 115u8, 109u8, 101u8, 109u8, 98u8, 101u8, 114u8],
            ) && is_utf8_bulk(items[1]) && m.key@ == bulk_bytes(items[1]) && m.member@
                == items[2],
            Command::Unrecongnized(_) => items.len() > 0 && !verb_is(
                items,
                seq![103u8, 101u8, 116u8],
            ) && !verb_is(items, seq![115u8, 101u8, 116u8]) && !verb_is(
                items,
                seq![104u8, 115u8, 101u8, 116u8],
            ) && !verb_is(items, seq![104u8, 103u8, 101u8, 116u8]) && !verb_is(
                items,
                seq![104u8, 103u8, 101u8, 116u8, 97u8, 108u8, 108u8],
            ) && !verb_is(items, seq![101u8, 99u8, 104u8, 111u8]) && !verb_is(
                items,
                seq![104u8, 109u8, 103u8, 101u8, 116u8],
            ) && !verb_is(items, seq![115u8, 97u8, 100u8, 100u8]) && !verb_is(
                items,
                seq![115u8, 105u8, 115u8, 109u8, 101u8, 109u8, 98u8, 101u8, 114u8],
            ),
        },
        None => false,
    }
}

impl Command {
    /// Turn a decoded frame into a typed command: the frame must be a
    /// non-null array whose first element is a non-null bulk string;
    /// the verb picks the parser, and anything unknown parses as
    /// `Unrecongnized`.
    pub fn try_from(value: RespFrame) -> (r: Result<Command, CommandError>)
        ensures
            r matches Ok(c) ==> value@ matches FrameVal::Arr(a) && command_parsed(a, c),
            r is Ok <==> (value@ matches FrameVal::Arr(a) && command_acceptable(a)),
    {
        match value {
            RespFrame::Array(frames) => Command::try_from_array(frames),
            _ => Err(CommandError::InvalidArgument(arg_err_msg())),
        }
    }

    /// Dispatch on the lowercased first element.
    pub fn try_from_array(frames: RespArray) -> (r: Result<Command, CommandError>)
        ensures
            r matches Ok(c) ==> command_parsed(frames@, c),
            r is Ok <==> command_acceptable(frames@),
    {
        let is_first_bulk = match &frames.0 {
            Some(v) => if v.len() == 0 {
                proof {
                    lemma_frames_view(v@);
                    assert(frames@ matches Some(items) && items.len() == 0);
                }
                false
            } else {
                proof {
                    lemma_frames_view(v@);
                }
                match &v[0] {
                    RespFrame::BulkString(b) => match &b.0 {
                        Some(_) => {
                            proof {
                                assert(frames@ matches Some(items) && items.len() > 0 && (
                                items[0] matches FrameVal::Bulk(Some(_))));
                            }
                            true
                        },
                        None => {
                            proof {
                                assert(frames@ matches Some(items) && !(
                                items[0] matches FrameVal::Bulk(Some(_))));
                            }
                            false
                        },
                    },
                    _ => {
                        proof {
                            assert(frames@ matches Some(items) && !(
                            items[0] matches FrameVal::Bulk(Some(_))));
                        }
                        false
                    },
                }
            },
            None => false,
        };
        if !is_first_bulk {
            return Err(CommandError::InvalidCommand(arg_err_msg()));
        }
        if first_verb_is(&frames, verb_get().as_slice()) {
            match Get::try_from(frames) {
                Ok(c) => return Ok(Command::Get(c)),
                Err(e) => return Err(e),
            }
        } else if first_verb_is(&frames, verb_set().as_slice()) {
            match SetCmd::try_from(frames) {
                Ok(c) => return Ok(Command::SetCmd(c)),
                Err(e) => return Err(e),
            }
        } else if first_verb_is(&frames, verb_hset().as_slice()) {
            match HSet::try_from(frames) {
                Ok(c) => return Ok(Command::HSet(c)),
                Err(e) => return Err(e),
            }
        } else if first_verb_is(&frames, verb_hget().as_slice()) {
            match HGet::try_from(frames) {
                Ok(c) => return Ok(Command::HGet(c)),
                Err(e) => return Err(e),
            }
        } else if first_verb_is(&frames, verb_hgetall().as_slice()) {
            match HGetAll::try_from(frames) {
                Ok(c) => return Ok(Command::HGetAll(c)),
                Err(e) => return Err(e),
            }
        } else if first_verb_is(&frames, verb_echo().as_slice()) {
            match Echo::try_from(frames) {
                Ok(c) => return Ok(Command::Echo(c)),
                Err(e) => return Err(CommandError::RespError(e)),
            }
        } else if first_verb_is(&frames, verb_hmget().as_slice()) {
            match HmGet::try_from(frames) {
                Ok(c) => {
                    proof {
                        match frames@ {
                            Some(items) => {
                                assert forall|j: int|
                                    2 <= j < items.len() implies is_utf8_bulk(
                                    #[trigger] items[j],
                                ) by {
                                    let t = j - 2;
                                    assert(is_utf8_bulk(items[t + 2]));
                                }
                            },
                            None => {},
                        }
                    }
                    return Ok(Command::HmGet(c));
                },
                Err(e) => return Err(CommandError::RespError(e)),
            }
        } else if first_verb_is(&frames, verb_sadd().as_slice()) {
            match SAdd::try_from(frames) {
                Ok(c) => return Ok(Command::SAdd(c)),
                Err(e) => return Err(CommandError::RespError(e)),
            }
        } else if first_verb_is(&frames, verb_sismember().as_slice()) {
            match SisMember::try_from(frames) {
                Ok(c) => return Ok(Command::SisMember(c)),
                Err(e) => return Err(CommandError::RespError(e)),
            }
        } else {
            proof {
                assert(frames@ matches Some(items) && items.len() > 0 && (
                items[0] matches FrameVal::Bulk(Some(_))));
                assert(command_acceptable(frames@));
            }
            Ok(Command::Unrecongnized(Unrecongnized))
        }
    }
}

impl CommandExecuter for Command {
    /// Dispatch to the variant's execute; the reply is bound by
    /// `command_reply_ok`.
    fn execute(self, backend: Backend) -> (r: RespFrame)
        ensures
            command_reply_ok(self, r@),
    {
        match self {
            Command::Get(c) => c.execute(backend),
            Command::SetCmd(c) => c.execute(backend),
            Command::HSet(c) => c.execute(backend),
            Command::HGet(c) => c.execute(backend),
            Command::HGetAll(c) => c.execute(backend),
            Command::Echo(c) => c.execute(backend),
            Command::HmGet(c) => c.execute(backend),
            Command::SAdd(c) => c.execute(backend),
            Command::SisMember(c) => c.execute(backend),
            Command::Unrecongnized(c) => c.execute(backend),
        }
    }
}

pub(crate) fn verb_get() -> (r: Vec<u8>)
    ensures
        r@ == seq![103u8, 101u8, 116u8],
{
    let mut v: Vec<u8> = Vec::new();
    v.push(103);
    v.push(101);
    v.push(116);
    proof {
        assert(v@ =~= seq![103u8, 101u8, 116u8]);
    }
    v
}

pub(crate) fn verb_set() -> (r: Vec<u8>)
    ensures
        r@ == seq![115u8, 101u8, 116u8],
{
    let mut v: Vec<u8> = Vec::new();
    v.push(115);
    v.push(101);
    v.push(116);
    proof {
        assert(v@ =~= seq![115u8, 101u8, 116u8]);
    }
    v
}

pub(crate) fn verb_hset() -> (r: Vec<u8>)
    ensures
        r@ == seq![104u8, 115u8, 101u8, 116u8],
{
    let mut v: Vec<u8> = Vec::new();
    v.push(104);
    v.push(115);
    v.push(101);
    v.push(116);
    proof {
        assert(v@ =~= seq![104u8, 115u8, 101u8, 116u8]);
    }
    v
}

pub(crate) fn verb_hget() -> (r: Vec<u8>)
    ensures
        r@ == seq![104u8, 103u8, 101u8, 116u8],
{
    let mut v: Vec<u8> = Vec::new();
    v.push(104);
    v.push(103);
    v.push(101);
    v.push(116);
    proof {
        assert(v@ =~= seq![104u8, 103u8, 101u8, 116u8]);
    }
    v
}

pub(crate) fn verb_hgetall() -> (r: Vec<u8>)
    ensures
        r@ == seq![104u8, 103u8, 101u8, 116u8, 97u8, 108u8, 108u8],
{
    let mut v: Vec<u8> = Vec::new();
    v.push(104);
    v.push(103);
    v.push(101);
    v.push(116);
    v.push(97);
    v.push(108);
    v.push(108);
    proof {
        assert(v@ =~= seq![104u8, 103u8, 101u8, 116u8, 97u8, 108u8, 108u8]);
    }
    v
}

pub(crate) fn verb_echo() -> (r: Vec<u8>)
    ensures
        r@ == seq![101u8, 99u8, 104u8, 111u8],
{
    let mut v: Vec<u8> = Vec::new();
    v.push(101);
    v.push(99);
    v.push(104);
    v.push(111);
    proof {
        assert(v@ =~= seq![101u8, 99u8, 104u8, 111u8]);
    }
    v
}

pub(crate) fn verb_hmget() -> (r: Vec<u8>)
    ensures
        r@ == seq![104u8, 109u8, 103u8, 101u8, 116u8],
{
    let mut v: Vec<u8> = Vec::new();
    v.push(104);
    v.push(109);
    v.push(103);
    v.push(101);
    v.push(116);
    proof {
        assert(v@ =~= seq![104u8, 109u8, 103u8, 101u8, 116u8]);
    }
    v
}

pub(crate) fn verb_sadd() -> (r: Vec<u8>)
    ensures
        r@ == seq![115u8, 97u8, 100u8, 100u8],
{
    let mut v: Vec<u8> = Vec::new();
    v.push(115);
    v.push(97);
    v.push(100);
    v.push(100);
    proof {
        assert(v@ =~= seq![115u8, 97u8, 100u8, 100u8]);
    }
    v
}

pub(crate) fn verb_sismember() -> (r: Vec<u8>)
    ensures
        r@ == seq![115u8, 105u8, 115u8, 109u8, 101u8, 109u8, 98u8, 101u8, 114u8],
{
    let mut v: Vec<u8> = Vec::new();
    v.push(115);
    v.push(105);
    v.push(115);
    v.push(109);
    v.push(101);
    v.push(109);
    v.push(98);
    v.push(101);
    v.push(114);
    proof {
        assert(v@ =~= seq![115u8, 105u8, 115u8, 109u8, 101u8, 109u8, 98u8, 101u8, 114u8]);
    }
    v
}

} // verus!
