//! The frames that the bridge and the service exchange over their pipe: a
//! length in four bytes, little endian, and that many bytes of payload.

use crate::text::{chars_of, occurs_at, occurs_at_exec, string_of};
use vstd::bytes::{
    lemma_auto_spec_u32_to_from_le_bytes, spec_u32_from_le_bytes, spec_u32_to_le_bytes,
    u32_from_le_bytes, u32_to_le_bytes,
};
use vstd::prelude::*;
use vstd::slice::{slice_subrange, slice_to_vec};
use vstd::string::StringExecFns;

verus! {

/// The number of bytes that hold the length of a frame.
pub const FRAME_HEADER_LEN: usize = 4;

/// What a request asks the service for.
#[derive(Debug, Clone, Copy, PartialEq, Eq, Structural)]
pub enum Opcode {
    /// Run a search.
    Search,
    /// Report the statistics.
    Stats,
}

/// The byte that stands for an operation on the wire.
pub open spec fn opcode_byte(op: Opcode) -> u8 {
    match op {
        Opcode::Search => 1,
        Opcode::Stats => 2,
    }
}

impl Opcode {
    /// The byte that stands for this operation on the wire.
    pub fn to_byte(&self) -> (r: u8)
        ensures
            r == opcode_byte(*self),
    {
        match self {
            Opcode::Search => 1,
            Opcode::Stats => 2,
        }
    }

    /// The operation that a byte stands for, if any.
    pub fn from_byte(b: u8) -> (r: Option<Opcode>)
        ensures
            match r {
                Some(op) => opcode_byte(op) == b,
                None => b != 1 && b != 2,
            },
    {
        if b == 1 {
            Some(Opcode::Search)
        } else if b == 2 {
            Some(Opcode::Stats)
        } else {
            None
        }
    }
}

/// The frame that carries `payload`.
pub open spec fn frame_bytes(payload: Seq<u8>) -> Seq<u8> {
    spec_u32_to_le_bytes(payload.len() as u32) + payload
}

/// The payload of the frame at the head of `bytes`, where a whole frame
/// stands there.
pub open spec fn first_frame(bytes: Seq<u8>) -> Option<Seq<u8>> {
    if bytes.len() < FRAME_HEADER_LEN {
        None
    } else {
        let len = spec_u32_from_le_bytes(bytes.subrange(0, 4)) as int;
        if bytes.len() - 4 < len {
            None
        } else {
            Some(bytes.subrange(4, 4 + len))
        }
    }
}

/// Puts a payload into a frame. `None` where the payload is longer than the
/// four bytes of the length can say.
pub fn frame(payload: &[u8]) -> (r: Option<Vec<u8>>)
    ensures
        match r {
            Some(bytes) => payload@.len() <= u32::MAX && bytes@ == frame_bytes(payload@),
            None => payload@.len() > u32::MAX,
        },
{
    if payload.len() > 0xffff_ffff {
        return None;
    }
    let mut out = u32_to_le_bytes(payload.len() as u32);
    let mut i: usize = 0;
    while i < payload.len()
        invariant
            i <= payload@.len(),
            payload@.len() <= u32::MAX,
            out@ == spec_u32_to_le_bytes(payload@.len() as u32) + payload@.take(i as int),
        decreases payload@.len() - i,
    {
        out.push(payload[i]);
        assert(payload@.take(i + 1) == payload@.take(i as int).push(payload@[i as int]));
        i += 1;
    }
    assert(payload@.take(payload@.len() as int) == payload@);
    Some(out)
}

/// Takes the first frame off `bytes`. Returns its payload and the number of
/// bytes that the frame took, or `None` while the frame is not complete.
pub fn unframe(bytes: &[u8]) -> (r: Option<(Vec<u8>, usize)>)
    ensures
        match r {
            Some((payload, used)) => first_frame(bytes@) == Some(payload@) && used == 4
                + payload@.len() && used <= bytes@.len(),
            None => first_frame(bytes@) is None,
        },
{
    if bytes.len() < FRAME_HEADER_LEN {
        return None;
    }
    let len = u32_from_le_bytes(slice_subrange(bytes, 0, 4)) as usize;
    if bytes.len() - 4 < len {
        return None;
    }
    let payload = slice_to_vec(slice_subrange(bytes, 4, 4 + len));
    Some((payload, 4 + len))
}

/// A payload that was framed is what is taken off the frame, whatever
/// follows it.
pub proof fn lemma_frame_roundtrip(payload: Seq<u8>, rest: Seq<u8>)
    requires
        payload.len() <= u32::MAX,
    ensures
        first_frame(frame_bytes(payload) + rest) == Some(payload),
{
    lemma_auto_spec_u32_to_from_le_bytes();
    let bytes = frame_bytes(payload) + rest;
    assert(bytes.subrange(0, 4) == spec_u32_to_le_bytes(payload.len() as u32));
    assert(bytes.subrange(4, 4 + payload.len() as int) == payload);
}

/// What every pipe path starts with.
pub open spec fn pipe_prefix() -> Seq<char> {
    "\\\\.\\pipe\\"@
}

/// `name` without the pipe prefixes in front of it.
pub open spec fn bare_pipe_name(name: Seq<char>) -> Seq<char>
    decreases name.len(),
{
    if occurs_at(name, pipe_prefix(), 0) && pipe_prefix().len() > 0 {
        bare_pipe_name(name.skip(pipe_prefix().len() as int))
    } else {
        name
    }
}

/// The path of the pipe with the given name: the name, without any pipe
/// prefix that it came with, behind one pipe prefix.
pub fn pipe_path(name: &str) -> (r: String)
    ensures
        r@ == pipe_prefix() + bare_pipe_name(name@),
{
    proof {
        reveal_strlit("\\\\.\\pipe\\");
    }
    let prefix = chars_of("\\\\.\\pipe\\");
    let s = chars_of(name);
    let mut start: usize = 0;
    assert(s@.skip(0) == s@);
    while s.len() - start >= prefix.len() && occurs_at_exec(&s, &prefix, start)
        invariant
            start <= s@.len(),
            prefix@ == pipe_prefix(),
            prefix@.len() == 9,
            bare_pipe_name(s@) == bare_pipe_name(s@.skip(start as int)),
        decreases s@.len() - start,
    {
        proof {
            let rest = s@.skip(start as int);
            assert(rest.subrange(0, 9) == s@.subrange(start as int, start + 9));
            assert(rest.skip(9) == s@.skip(start + 9));
        }
        start += prefix.len();
    }
    proof {
        let rest = s@.skip(start as int);
        if rest.len() >= 9 {
            assert(rest.subrange(0, 9) == s@.subrange(start as int, start + 9));
        }
        assert(!occurs_at(rest, pipe_prefix(), 0));
    }
    let mut out = prefix;
    let mut i: usize = start;
    while i < s.len()
        invariant
            start <= i <= s@.len(),
            out@ == pipe_prefix() + s@.subrange(start as int, i as int),
        decreases s@.len() - i,
    {
        out.push(s[i]);
        assert(s@.subrange(start as int, i + 1) == s@.subrange(start as int, i as int).push(
            s@[i as int],
        ));
        i += 1;
    }
    assert(s@.subrange(start as int, s@.len() as int) == s@.skip(start as int));
    string_of(&out)
}

/// The service's end of the pipe.
pub struct PipeServer {
    /// The path of the pipe that the server listens on.
    pub pipe_name: String,
}

impl PipeServer {
    /// A server for the service's pipe, `\\.\pipe\fastsearch-service`.
    pub fn new() -> (r: Self)
        ensures
            r.pipe_name@ == "\\\\.\\pipe\\fastsearch-service"@,
    {
        PipeServer { pipe_name: String::from_str("\\\\.\\pipe\\fastsearch-service") }
    }
}

} // verus!
