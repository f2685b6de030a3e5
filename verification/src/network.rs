//! The stream framer and the handling of one request.
//!
//! The framer takes frames from a buffer of received bytes and puts frames
//! into a buffer of bytes to send. What reads from a connection and writes to
//! it is not here: it hands the buffers over and does as it is told.

use vstd::prelude::*;
use bytes::BytesMut;
use crate::backend::Backend;
use crate::cmd::{
    command_of_frame, fault_words, lemma_command_fault, Command, CommandError, CommandExecutor,
    Fault,
};
use crate::cmd::reply::{reply_of, store_after};
use crate::resp::RespError;
use crate::resp::buffer::{buffer_advance, buffer_bytes, buffer_put, buffered};
use crate::resp::frame::{push_frame, RespFrame};
use crate::resp::grammar::{decode_frame, Failure};
use crate::resp::model::{well_formed, wire, Value};
use crate::resp::simple_error::SimpleError;
use crate::respv2::parser::parse_frame;

verus! {

/// The framer of a connection. It keeps nothing between calls: all that is
/// pending lies in the buffers.
#[derive(Debug)]
pub struct RespFrameCodec;

/// What the framer does with the bytes `before` at the front of a buffer:
/// a whole frame is taken out, bytes that end within a frame stay and give
/// nothing yet, and bytes that are wrong stay and give the error.
pub open spec fn framed(
    r: Result<Option<RespFrame>, RespError>,
    before: Seq<u8>,
    after: Seq<u8>,
) -> bool {
    match decode_frame(before) {
        Ok((v, n)) => r is Ok && r->Ok_0 is Some && r->Ok_0->0@ == v && well_formed(v) && n
            <= before.len() && after == before.skip(n as int),
        Err(Failure::NotComplete) => r is Ok && r->Ok_0 is None && after == before,
        Err(kind) => r is Err && r->Err_0.reports(kind) && after == before,
    }
}

impl RespFrameCodec {
    /// Puts the wire form of `item` behind the bytes that `dst` holds.
    pub fn encode(&mut self, item: RespFrame, dst: &mut BytesMut) -> (r: Result<(), RespError>)
        ensures
            r is Ok,
            buffered(*final(dst)) == buffered(*old(dst)) + wire(item@),
    {
        let mut encoded: Vec<u8> = Vec::new();
        push_frame(&item, &mut encoded);
        assert(encoded@ =~= wire(item@));
        buffer_put(dst, encoded.as_slice());
        Ok(())
    }

    /// Takes one frame from the front of `src` if a whole frame is there.
    /// Bytes that end within a frame are left for the next call, when more
    /// have come.
    pub fn decode(&mut self, src: &mut BytesMut) -> (r: Result<Option<RespFrame>, RespError>)
        ensures
            framed(r, buffered(*old(src)), buffered(*final(src))),
    {
        match parse_frame(buffer_bytes(src)) {
            Ok((frame, n)) => {
                buffer_advance(src, n);
                Ok(Some(frame))
            },
            Err(RespError::NotComplete) => Ok(None),
            Err(e) => Err(e),
        }
    }
}

/// Runs the command that a request frame says against the store.
pub fn request_handler(frame: RespFrame, backend: &mut Backend) -> (r: Result<
    RespFrame,
    CommandError,
>)
    ensures
        match r {
            Ok(reply) => command_of_frame(frame@) is Ok && reply@ == reply_of(
                command_of_frame(frame@)->Ok_0,
                old(backend)@,
            ) && final(backend)@ == store_after(command_of_frame(frame@)->Ok_0, old(backend)@),
            Err(e) => command_of_frame(frame@) == Err::<crate::cmd::CommandModel, Fault>(e@)
                && final(backend)@ == old(backend)@,
        },
{
    let cmd = match Command::try_from(frame) {
        Ok(cmd) => cmd,
        Err(e) => {
            return Err(e);
        },
    };
    Ok(cmd.execute(backend))
}

/// The frame that reports an error to the client: a simple error with the
/// words of the error.
pub fn error_reply(e: &CommandError) -> (reply: RespFrame)
    ensures
        reply@ is Error,
        !(e is FromUtf8Error) ==> reply@ == Value::Error(e.text()),
        e is FromUtf8Error ==> e.text().is_prefix_of(reply@->Error_0),
{
    RespFrame::Error(SimpleError(e.to_text()))
}

/// The frame that reports a failure of the store to the client.
pub fn internal_error_reply() -> (reply: RespFrame)
    ensures
        reply@ == Value::Error(RespError::InternalServerError.text()),
{
    RespFrame::Error(SimpleError(RespError::InternalServerError.to_text()))
}

/// Answers one request: the reply of its command, or the frame that
/// reports why it is no command. An error leaves the store as it is.
pub fn respond(frame: RespFrame, backend: &mut Backend) -> (reply: RespFrame)
    ensures
        match command_of_frame(frame@) {
            Ok(cmd) => reply@ == reply_of(cmd, old(backend)@) && final(backend)@ == store_after(
                cmd,
                old(backend)@,
            ),
            Err(fault) => final(backend)@ == old(backend)@ && reply@ is Error && (match fault {
                Fault::Utf8 => fault_words(fault).is_prefix_of(reply@->Error_0),
                _ => reply@ == Value::Error(fault_words(fault)),
            }),
        },
{
    proof {
        lemma_command_fault(frame@);
    }
    match request_handler(frame, backend) {
        Ok(reply) => reply,
        Err(e) => error_reply(&e),
    }
}

} // verus!
