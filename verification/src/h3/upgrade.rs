//! HTTP/3 request-stream upgrade to raw bidirectional I/O (CONNECT /
//! WebTransport-style handoff).
//!
//! After the server sends its final response, the application may take the
//! underlying request stream over as raw I/O. What it reads is what the stream
//! still holds and goes on to receive ([`ReadBuffer`]); what it writes is
//! forwarded to the stream by a task that finishes the stream when the
//! application closes its side ([`SendTask`]).

use crate::octets;
use bytes::Bytes;
use vstd::prelude::*;

verus! {

/// What the read half of an upgraded stream does with what the stream had.
#[derive(Debug, Clone, Copy, PartialEq, Eq, Structural)]
pub enum ReadAction {
    /// Receive again: the chunk was empty.
    Receive,
    /// Hand out what is buffered.
    Deliver,
    /// The stream has ended.
    End,
}

/// The read half of an upgraded stream: what was received and is not read yet.
#[derive(Debug)]
pub struct ReadBuffer {
    buf: Bytes,
}

impl View for ReadBuffer {
    type V = Seq<u8>;

    closed spec fn view(&self) -> Seq<u8> {
        octets::content(self.buf)
    }
}

impl ReadBuffer {
    /// An empty buffer.
    pub fn new() -> (r: Self)
        ensures
            r@ == Seq::<u8>::empty(),
    {
        ReadBuffer { buf: Bytes::new() }
    }

    /// Whether the stream has to be received from before anything can be read.
    pub fn is_empty(&self) -> (r: bool)
        ensures
            r == (self@.len() == 0),
    {
        self.buf.len() == 0
    }

    /// Takes the next chunk of the stream, or its end. Empty chunks are passed
    /// over.
    pub fn fill(&mut self, chunk: Option<Bytes>) -> (r: ReadAction)
        requires
            old(self)@.len() == 0,
        ensures
            match chunk {
                None => r == ReadAction::End && final(self)@ == old(self)@,
                Some(b) => {
                    &&& final(self)@ == octets::content(b)
                    &&& r == if octets::content(b).len() == 0 {
                        ReadAction::Receive
                    } else {
                        ReadAction::Deliver
                    }
                },
            },
    {
        match chunk {
            None => ReadAction::End,
            Some(b) => {
                let empty: bool = b.len() == 0;
                self.buf = b;
                if empty {
                    ReadAction::Receive
                } else {
                    ReadAction::Deliver
                }
            },
        }
    }

    /// Reads as much as is buffered and there is room for.
    pub fn read(&mut self, room: usize) -> (r: Bytes)
        ensures
            ({
                let n = if old(self)@.len() <= room {
                    old(self)@.len() as int
                } else {
                    room as int
                };
                &&& octets::content(r) == old(self)@.take(n)
                &&& final(self)@ == old(self)@.skip(n)
            }),
    {
        let held: usize = self.buf.len();
        let n: usize = if held <= room {
            held
        } else {
            room
        };
        self.buf.split_to(n)
    }
}

/// What the send task of an upgraded stream is doing.
#[derive(Debug, Clone, Copy, PartialEq, Eq, Structural)]
pub enum SendTask {
    /// Waiting for the application to write.
    Waiting,
    /// Sending what the application wrote.
    Sending,
    /// Finishing the stream, since the application closed its side.
    Finishing,
    /// Nothing any more: the stream is finished, or failed.
    Over { failed: bool },
}

impl SendTask {
    /// The task once the application wrote something, or closed its side.
    pub open spec fn received(self, open: bool) -> SendTask {
        match self {
            SendTask::Waiting => if open {
                SendTask::Sending
            } else {
                SendTask::Finishing
            },
            _ => self,
        }
    }

    /// The task once what it was sending, or the end of the stream, is out, or
    /// failed.
    pub open spec fn done(self, ok: bool) -> SendTask {
        match self {
            SendTask::Sending => if ok {
                SendTask::Waiting
            } else {
                SendTask::Over { failed: true }
            },
            SendTask::Finishing => SendTask::Over { failed: !ok },
            _ => self,
        }
    }

    /// The application wrote something, or closed its side.
    pub fn on_received(&mut self, open: bool)
        ensures
            *final(self) == old(self).received(open),
    {
        if *self == SendTask::Waiting {
            *self = if open {
                SendTask::Sending
            } else {
                SendTask::Finishing
            };
        }
    }

    /// What was being sent, or the end of the stream, is out, or failed.
    pub fn on_done(&mut self, ok: bool)
        ensures
            *final(self) == old(self).done(ok),
    {
        match *self {
            SendTask::Sending => {
                *self = if ok {
                    SendTask::Waiting
                } else {
                    SendTask::Over { failed: true }
                };
            },
            SendTask::Finishing => {
                *self = SendTask::Over { failed: !ok };
            },
            _ => {},
        }
    }
}

/// Reading loses nothing: what is handed out and what stays buffered is what
/// was there.
pub proof fn lemma_read_keeps_octets(buf: Seq<u8>, n: int)
    requires
        0 <= n <= buf.len(),
    ensures
        buf.take(n) + buf.skip(n) == buf,
{
    assert(buf.take(n) + buf.skip(n) =~= buf);
}

/// The task ends once the application closed its side and the stream is
/// finished, and stays ended.
pub proof fn lemma_send_task_ends(ok: bool, open: bool)
    ensures
        SendTask::Waiting.received(false).done(ok) == (SendTask::Over { failed: !ok }),
        SendTask::Waiting.received(true).done(true) == SendTask::Waiting,
        (SendTask::Over { failed: !ok }).received(open) == (SendTask::Over { failed: !ok }),
        (SendTask::Over { failed: !ok }).done(open) == (SendTask::Over { failed: !ok }),
{
}

/// Everything that the application writes is sent: a task that waits sends what
/// comes, and waits again once it is out; it finishes the stream when the
/// application is done, and is over, failed or not, only once the stream is
/// finished or something could not be sent. Nothing else moves it.
pub proof fn lemma_send_task_sends(t: SendTask, ok: bool, open: bool)
    ensures
        SendTask::Waiting.received(true) == SendTask::Sending,
        SendTask::Waiting.received(false) == SendTask::Finishing,
        SendTask::Sending.done(true) == SendTask::Waiting,
        SendTask::Sending.done(false) == (SendTask::Over { failed: true }),
        SendTask::Finishing.done(ok) == (SendTask::Over { failed: !ok }),
        t != SendTask::Waiting ==> t.received(open) == t,
        t == SendTask::Waiting || t is Over ==> t.done(ok) == t,
{
}

/// How often a run of writes, each of which goes out, makes a task send.
pub open spec fn sends(n: nat) -> nat
    decreases n,
{
    if n == 0 {
        0
    } else {
        sends((n - 1) as nat) + if after_writes((n - 1) as nat).received(true) is Sending {
            1nat
        } else {
            0nat
        }
    }
}

/// A task after `n` writes that went out.
pub open spec fn after_writes(n: nat) -> SendTask
    decreases n,
{
    if n == 0 {
        SendTask::Waiting
    } else {
        after_writes((n - 1) as nat).received(true).done(true)
    }
}

/// However much the application writes, all of it is sent.
pub proof fn lemma_every_write_is_sent(n: nat)
    ensures
        after_writes(n) == SendTask::Waiting,
        sends(n) == n,
    decreases n,
{
    if n > 0 {
        lemma_every_write_is_sent((n - 1) as nat);
    }
}

} // verus!
