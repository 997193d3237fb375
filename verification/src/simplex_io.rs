//! The byte stream a simplex tunnel carries over WebSocket messages: each
//! binary message is a chunk of the stream, and each side ends its half of
//! the stream with a text message `EOF` instead of a close frame, so that
//! the other side can go on sending. The socket is closed once both halves
//! have ended. This module holds the decisions of that adapter; the driver
//! does the sending and receiving.
use vstd::prelude::*;
use vstd::utf8::encode_utf8;

verus! {

/// A WebSocket message as the stream adapter reads it: a text message with
/// its text, any other message with its payload (`Message::into_data`),
/// an error of the socket, or the end of the message stream.
#[derive(Debug, Clone)]
pub enum Incoming {
    Text(String),
    Data(Vec<u8>),
    Failed,
    Ended,
}

/// The text a side sends to end its half of the stream.
pub open spec fn eof_text() -> Seq<char> {
    "EOF"@
}

/// What a received message did to the read side.
#[derive(Debug, Clone, Copy, PartialEq, Eq, Structural)]
pub enum ReadOutcome {
    /// A chunk of data is now buffered.
    Data,
    /// The read half ended; `wake` says whether a shutdown waiting for it
    /// is to be woken.
    Eof { wake: bool },
    /// The socket failed.
    Error,
}

/// The next step of shutting down the write half.
#[derive(Debug, Clone, Copy, PartialEq, Eq, Structural)]
pub enum ShutdownStep {
    /// Send the `EOF` text message, then call `eof_sent`.
    SendEof,
    /// Both halves ended: close the socket.
    Close,
    /// Wait until the read half ends.
    Wait,
}

/// The state of the adapter: whether each half has ended, and the part of
/// the last data message not read yet.
pub struct SimplexStream {
    read_closed: bool,
    write_closed: bool,
    chunk: Option<Vec<u8>>,
}

pub struct SimplexStreamView {
    pub read_closed: bool,
    pub write_closed: bool,
    pub chunk: Option<Seq<u8>>,
}

impl View for SimplexStream {
    type V = SimplexStreamView;

    closed spec fn view(&self) -> SimplexStreamView {
        SimplexStreamView {
            read_closed: self.read_closed,
            write_closed: self.write_closed,
            chunk: match self.chunk {
                Some(c) => Some(c@),
                None => None,
            },
        }
    }
}

/// The bytes `n` on of `v`, as a new vector.
fn tail(v: &Vec<u8>, n: usize) -> (res: Vec<u8>)
    requires
        n <= v@.len(),
    ensures
        res@ == v@.skip(n as int),
{
    let mut res: Vec<u8> = Vec::new();
    let mut i: usize = n;
    while i < v.len()
        invariant
            n <= i <= v@.len(),
            res@ == v@.subrange(n as int, i as int),
        decreases v.len() - i,
    {
        res.push(v[i]);
        i = i + 1;
        proof {
            assert(res@ =~= v@.subrange(n as int, i as int));
        }
    }
    res
}

impl SimplexStream {
    /// A stream with both halves open and nothing buffered.
    pub fn new() -> (res: Self)
        ensures
            res@ == (SimplexStreamView { read_closed: false, write_closed: false, chunk: None }),
    {
        SimplexStream { read_closed: false, write_closed: false, chunk: None }
    }

    /// The buffered data, where a data message is not read to its end; the
    /// reader is handed it without waiting for a new message.
    pub fn buffered(&self) -> (res: Option<&Vec<u8>>)
        ensures
            match (res, self@.chunk) {
                (Some(v), Some(c)) => v@ == c,
                (None, None) => true,
                _ => false,
            },
    {
        match &self.chunk {
            Some(c) => Some(c),
            None => None,
        }
    }

    /// Takes in the message received while nothing was buffered. The text
    /// `EOF`, or the end of the messages, ends the read half; a shutdown
    /// waiting for it is woken where the write half has ended already (for
    /// the end of the messages only where the read half was still open). Any
    /// other message is buffered: a text with its UTF-8 bytes, another
    /// message with its payload. A socket error changes nothing.
    pub fn on_message(&mut self, m: Incoming) -> (res: ReadOutcome)
        requires
            old(self)@.chunk is None,
        ensures
            final(self)@.write_closed == old(self)@.write_closed,
            match m {
                Incoming::Text(t) => if t@ == eof_text() {
                    res == (ReadOutcome::Eof { wake: old(self)@.write_closed })
                        && final(self)@.read_closed && final(self)@.chunk is None
                } else {
                    res == ReadOutcome::Data && final(self)@.read_closed == old(self)@.read_closed
                        && final(self)@.chunk == Some(encode_utf8(t@))
                },
                Incoming::Data(d) => res == ReadOutcome::Data && final(self)@.read_closed
                    == old(self)@.read_closed && final(self)@.chunk == Some(d@),
                Incoming::Failed => res == ReadOutcome::Error && final(self)@ == old(self)@,
                Incoming::Ended => res == (ReadOutcome::Eof {
                    wake: !old(self)@.read_closed && old(self)@.write_closed,
                }) && final(self)@.read_closed && final(self)@.chunk is None,
            },
    {
        match m {
            Incoming::Text(t) => {
                let eof = "EOF";
                proof {
                    reveal_strlit("EOF");
                }
                if crate::text::str_equal(t.as_str(), eof) {
                    self.read_closed = true;
                    ReadOutcome::Eof { wake: self.write_closed }
                } else {
                    let bytes = vstd::slice::slice_to_vec(t.as_str().as_bytes());
                    self.chunk = Some(bytes);
                    ReadOutcome::Data
                }
            },
            Incoming::Data(d) => {
                self.chunk = Some(d);
                ReadOutcome::Data
            },
            Incoming::Failed => ReadOutcome::Error,
            Incoming::Ended => {
                let wake = !self.read_closed && self.write_closed;
                self.read_closed = true;
                ReadOutcome::Eof { wake }
            },
        }
    }

    /// Marks the first `amt` buffered bytes as read; the buffer is dropped
    /// once read to its end. Nothing changes for `amt` zero.
    pub fn consume(&mut self, amt: usize)
        requires
            amt == 0 || (old(self)@.chunk matches Some(c) && amt <= c.len()),
        ensures
            final(self)@.read_closed == old(self)@.read_closed,
            final(self)@.write_closed == old(self)@.write_closed,
            amt == 0 ==> final(self)@.chunk == old(self)@.chunk,
            amt > 0 ==> (old(self)@.chunk matches Some(c) && final(self)@.chunk == (if amt == c.len() {
                None
            } else {
                Some(c.skip(amt as int))
            })),
    {
        if amt > 0 {
            let rest = match &self.chunk {
                Some(c) => tail(c, amt),
                None => Vec::new(),
            };
            if rest.len() == 0 {
                self.chunk = None;
            } else {
                self.chunk = Some(rest);
            }
        }
    }

    /// Reads at most `room` bytes from the buffer into a new vector and marks
    /// them as read.
    pub fn read(&mut self, room: usize) -> (res: Vec<u8>)
        requires
            old(self)@.chunk is Some,
            room > 0,
        ensures
            final(self)@.read_closed == old(self)@.read_closed,
            final(self)@.write_closed == old(self)@.write_closed,
            old(self)@.chunk matches Some(c) && {
                let n = if c.len() < room { c.len() } else { room as nat };
                &&& res@ == c.take(n as int)
                &&& final(self)@.chunk == (if n > 0 && n == c.len() {
                    None
                } else {
                    Some(c.skip(n as int))
                })
            },
    {
        let c = match &self.chunk {
            Some(c) => c,
            None => {
                return Vec::new();
            },
        };
        let n = if c.len() < room {
            c.len()
        } else {
            room
        };
        let mut out: Vec<u8> = Vec::new();
        let mut i: usize = 0;
        while i < n
            invariant
                n <= c@.len(),
                i <= n,
                out@ == c@.take(i as int),
            decreases n - i,
        {
            out.push(c[i]);
            i = i + 1;
            proof {
                assert(out@ =~= c@.take(i as int));
            }
        }
        proof {
            assert(c@.skip(0) =~= c@);
        }
        self.consume(n);
        out
    }

    /// What shutting down the write half does next: send `EOF` where it was
    /// not sent; then close the socket where the read half has ended too,
    /// else wait for it.
    pub fn shutdown_step(&self) -> (res: ShutdownStep)
        ensures
            !self@.write_closed ==> res == ShutdownStep::SendEof,
            self@.write_closed && self@.read_closed ==> res == ShutdownStep::Close,
            self@.write_closed && !self@.read_closed ==> res == ShutdownStep::Wait,
    {
        if !self.write_closed {
            ShutdownStep::SendEof
        } else if self.read_closed {
            ShutdownStep::Close
        } else {
            ShutdownStep::Wait
        }
    }

    /// Records that `EOF` was sent: the write half has ended.
    pub fn eof_sent(&mut self)
        ensures
            final(self)@ == (SimplexStreamView { write_closed: true, ..old(self)@ }),
    {
        self.write_closed = true;
    }
}

} // verus!
