use vstd::prelude::*;

use vstd::utf8::valid_utf8;
use crate::frame::{append_bytes, is_control, is_control_opcode, Frame, Opcode, ProtocolError};

verus! {

/// A complete message, or a control frame's opcode and payload passed
/// through on its own.
#[derive(Clone, Debug, PartialEq, Eq)]
pub struct Message {
    pub opcode: Opcode,
    pub payload: Vec<u8>,
}

/// Relies on std::str::from_utf8, which succeeds exactly on well-formed
/// UTF-8: no overlong encodings, no surrogates, nothing past U+10FFFF.
#[verifier::external_body]
fn is_utf8(b: &Vec<u8>) -> (r: bool)
    ensures
        r == valid_utf8(b@),
{
    std::str::from_utf8(b.as_slice()).is_ok()
}

/// The opcode of the message a data frame belongs to.
pub open spec fn message_kind(current: Option<Opcode>, op: Opcode) -> Opcode {
    if op is Continuation {
        current->0
    } else {
        op
    }
}

/// Why a data frame cannot join the message in progress, checked in this
/// order; `None` when it can.
pub open spec fn data_error(
    current: Option<Opcode>,
    buffered: Seq<u8>,
    max_size: nat,
    fin: bool,
    op: Opcode,
    payload: Seq<u8>,
) -> Option<ProtocolError> {
    if op is Continuation && current is None {
        Some(ProtocolError::UnexpectedContinuation)
    } else if !(op is Continuation) && current is Some {
        Some(ProtocolError::UnexpectedDataFrame)
    } else if buffered.len() + payload.len() > max_size {
        Some(ProtocolError::MessageTooLarge)
    } else if fin && message_kind(current, op) is Text && !valid_utf8(buffered + payload) {
        Some(ProtocolError::InvalidUtf8)
    } else {
        None
    }
}

/// Joins data frames into messages; at most one message is in progress.
pub struct Reassembler {
    pub current: Option<Opcode>,
    pub buffer: Vec<u8>,
    pub max_size: usize,
}

impl Reassembler {
    pub open spec fn wf(&self) -> bool {
        &&& self.current is None ==> self.buffer@.len() == 0
        &&& self.current matches Some(op) ==> (op is Text || op is Binary)
        &&& self.buffer@.len() <= self.max_size
    }

    pub open spec fn is_idle(&self) -> bool {
        self.current is None && self.buffer@.len() == 0
    }

    /// A reassembler with no message in progress that accepts messages of up
    /// to `max_size` bytes.
    pub fn new(max_size: usize) -> (r: Reassembler)
        ensures
            r.wf(),
            r.is_idle(),
            r.max_size == max_size,
    {
        Reassembler { current: None, buffer: Vec::new(), max_size }
    }

    /// Takes one frame. A control frame comes straight back as its own message
    /// and leaves the state alone. A data frame starts, extends or completes
    /// the message in progress; on an error the message in progress is dropped.
    pub fn feed(&mut self, frame: Frame) -> (r: Result<Option<Message>, ProtocolError>)
        requires
            old(self).wf(),
        ensures
            final(self).wf(),
            final(self).max_size == old(self).max_size,
            is_control(frame.opcode) ==> {
                &&& r == Ok::<Option<Message>, ProtocolError>(
                    Some(Message { opcode: frame.opcode, payload: frame.payload }),
                )
                &&& final(self).current == old(self).current
                &&& final(self).buffer@ == old(self).buffer@
            },
            !is_control(frame.opcode) ==> {
                let err = data_error(
                    old(self).current,
                    old(self).buffer@,
                    old(self).max_size as nat,
                    frame.fin,
                    frame.opcode,
                    frame.payload@,
                );
                let kind = message_kind(old(self).current, frame.opcode);
                match r {
                    Err(e) => err == Some(e) && final(self).is_idle(),
                    Ok(None) => {
                        &&& err is None
                        &&& !frame.fin
                        &&& final(self).current == Some(kind)
                        &&& final(self).buffer@ == old(self).buffer@ + frame.payload@
                    },
                    Ok(Some(m)) => {
                        &&& err is None
                        &&& frame.fin
                        &&& m.opcode == kind
                        &&& m.payload@ == old(self).buffer@ + frame.payload@
                        &&& final(self).is_idle()
                    },
                }
            },
    {
        if is_control_opcode(frame.opcode) {
            return Ok(Some(Message { opcode: frame.opcode, payload: frame.payload }));
        }
        let kind = match frame.opcode {
            Opcode::Continuation => match self.current {
                Some(op) => op,
                None => {
                    return Err(ProtocolError::UnexpectedContinuation);
                },
            },
            op => {
                if self.current.is_some() {
                    self.current = None;
                    self.buffer = Vec::new();
                    return Err(ProtocolError::UnexpectedDataFrame);
                }
                op
            },
        };
        if frame.payload.len() > self.max_size - self.buffer.len() {
            self.current = None;
            self.buffer = Vec::new();
            return Err(ProtocolError::MessageTooLarge);
        }
        append_bytes(&mut self.buffer, &frame.payload);
        if !frame.fin {
            self.current = Some(kind);
            return Ok(None);
        }
        let mut assembled: Vec<u8> = Vec::new();
        std::mem::swap(&mut assembled, &mut self.buffer);
        self.current = None;
        let is_text = match kind {
            Opcode::Text => true,
            _ => false,
        };
        if is_text && !is_utf8(&assembled) {
            return Err(ProtocolError::InvalidUtf8);
        }
        Ok(Some(Message { opcode: kind, payload: assembled }))
    }
}

} // verus!
