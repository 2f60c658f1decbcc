//! The byte source of a decode pass: a cursor over the input, with frames.
//!
//! A stream is read front to back. A frame is a stretch of the input whose
//! length was announced; while the cursor is inside one, no read may reach
//! beyond its end. When the frame is used up, reads go on behind it.

use crate::error::ErrorKind;
use crate::wire::{be_number, be_value, le_number, le_value, pow256};
use vstd::prelude::*;

verus! {

/// The model of a byte source.
pub struct Source {
    /// The whole input.
    pub bytes: Seq<u8>,
    /// The read cursor: how many bytes were consumed.
    pub pos: int,
    /// The end of the frame that was entered last; the cursor is inside a
    /// frame while it is before this.
    pub frame_end: int,
    /// The largest length on the wire that is accepted.
    pub limit: int,
}

impl Source {
    /// The cursor and the frame lie within the input.
    pub open spec fn wf(self) -> bool {
        0 <= self.pos <= self.bytes.len() && 0 <= self.frame_end <= self.bytes.len()
    }

    /// Whether the cursor is inside a frame.
    pub open spec fn in_frame(self) -> bool {
        self.pos < self.frame_end
    }

    /// Where the bytes that can be read now end.
    pub open spec fn end(self) -> int {
        if self.in_frame() {
            self.frame_end
        } else {
            self.bytes.len() as int
        }
    }

    /// Whether `n` more bytes can be read.
    pub open spec fn has(self, n: int) -> bool {
        0 <= n && self.pos + n <= self.end()
    }

    /// The next `n` bytes.
    pub open spec fn peek(self, n: int) -> Seq<u8> {
        self.bytes.subrange(self.pos, self.pos + n)
    }

    /// The source after `n` bytes were consumed.
    pub open spec fn skip(self, n: int) -> Source {
        Source { pos: self.pos + n, ..self }
    }

    /// Why `n` bytes whose count came from the wire cannot be read, if they
    /// cannot: the count is over the limit, or the bytes are not there.
    pub open spec fn refusal(self, n: int) -> Option<ErrorKind> {
        if n > self.limit {
            Some(ErrorKind::ResourceLimitExceeded)
        } else if !self.has(n) {
            Some(ErrorKind::TruncatedRead)
        } else {
            None
        }
    }

    /// Whether a line ends within reach: some byte that can be read now is a
    /// newline.
    pub open spec fn has_line(self) -> bool {
        exists|n: int| self.line_ends_at(n)
    }

    /// Whether the first newline that can be read now is `n` bytes ahead.
    pub open spec fn line_ends_at(self, n: int) -> bool {
        &&& 0 <= n
        &&& self.pos + n < self.end()
        &&& self.bytes[self.pos + n] == 0x0A
        &&& forall|k: int| self.pos <= k < self.pos + n ==> self.bytes[k] != 0x0A
    }

    /// The length of the next line, without its newline.
    pub open spec fn line_len(self) -> int {
        choose|n: int| self.line_ends_at(n)
    }

    /// Where a new frame starts: behind the current frame if the cursor is
    /// inside one, at the cursor if not.
    pub open spec fn frame_start(self) -> int {
        if self.in_frame() {
            self.frame_end
        } else {
            self.pos
        }
    }

    /// Why a frame of `len` bytes cannot be entered, if it cannot.
    pub open spec fn frame_refusal(self, len: int) -> Option<ErrorKind> {
        if len > self.limit {
            Some(ErrorKind::ResourceLimitExceeded)
        } else if self.frame_start() + len > self.bytes.len() {
            Some(ErrorKind::TruncatedRead)
        } else {
            None
        }
    }

    /// The source after a frame of `len` bytes was entered.
    pub open spec fn framed(self, len: int) -> Source {
        Source { pos: self.frame_start(), frame_end: self.frame_start() + len, ..self }
    }
}

/// There is one first newline at most.
pub proof fn lemma_line_end_unique(src: Source, a: int, b: int)
    requires
        src.line_ends_at(a),
        src.line_ends_at(b),
    ensures
        a == b,
{
    if a < b {
        assert(src.bytes[src.pos + a] != 0x0A);
    } else if b < a {
        assert(src.bytes[src.pos + b] != 0x0A);
    }
}

/// A cursor over the input of a decode pass.
pub struct Reader {
    input: Vec<u8>,
    pos: usize,
    frame_end: usize,
    limit: usize,
}

impl Reader {
    /// The model of the reader.
    pub closed spec fn view(&self) -> Source {
        Source {
            bytes: self.input@,
            pos: self.pos as int,
            frame_end: self.frame_end as int,
            limit: self.limit as int,
        }
    }

    #[verifier::type_invariant]
    spec fn within_input(&self) -> bool {
        self.pos <= self.input@.len() && self.frame_end <= self.input@.len()
    }

    /// A reader at the start of `input`, outside any frame.
    pub fn new(input: Vec<u8>, limit: usize) -> (r: Reader)
        ensures
            r@ == (Source { bytes: input@, pos: 0, frame_end: 0, limit: limit as int }),
            r@.wf(),
    {
        Reader { input, pos: 0, frame_end: 0, limit }
    }

    /// The read cursor: the number of bytes consumed so far.
    pub fn position(&self) -> (pos: usize)
        ensures
            pos == self@.pos,
            self@.wf(),
    {
        proof {
            use_type_invariant(self);
        }
        self.pos
    }

    /// The largest length on the wire that is accepted.
    pub fn limit(&self) -> (limit: usize)
        ensures
            limit == self@.limit,
    {
        self.limit
    }

    /// Changes the largest length on the wire that is accepted.
    pub fn set_limit(&mut self, limit: usize)
        ensures
            final(self)@ == (Source { limit: limit as int, ..old(self)@ }),
    {
        proof {
            use_type_invariant(&*self);
        }
        self.limit = limit;
    }

    /// Where the bytes that can be read now end.
    fn end(&self) -> (end: usize)
        ensures
            end == self@.end(),
            self@.pos <= end <= self@.bytes.len(),
    {
        proof {
            use_type_invariant(self);
        }
        if self.pos < self.frame_end {
            self.frame_end
        } else {
            self.input.len()
        }
    }

    /// Consumes one byte.
    pub fn next_byte(&mut self) -> (r: Result<u8, ErrorKind>)
        ensures
            match r {
                Ok(byte) => old(self)@.has(1) && byte == old(self)@.bytes[old(self)@.pos as int]
                    && final(self)@ == old(self)@.skip(1),
                Err(e) => e == ErrorKind::TruncatedRead && !old(self)@.has(1) && final(self)@
                    == old(self)@,
            },
    {
        let end = self.end();
        if self.pos >= end {
            return Err(ErrorKind::TruncatedRead);
        }
        let byte = self.input[self.pos];
        self.pos = self.pos + 1;
        Ok(byte)
    }

    /// Consumes `n` bytes of a field of fixed width and returns where they
    /// start.
    fn claim(&mut self, n: usize) -> (r: Result<usize, ErrorKind>)
        ensures
            match r {
                Ok(at) => old(self)@.has(n as int) && at == old(self)@.pos && at + n
                    <= old(self)@.bytes.len() && final(self)@ == old(self)@.skip(n as int),
                Err(e) => e == ErrorKind::TruncatedRead && !old(self)@.has(n as int) && final(self)@ == old(self)@,
            },
    {
        let end = self.end();
        if n > end - self.pos {
            return Err(ErrorKind::TruncatedRead);
        }
        let at = self.pos;
        self.pos = self.pos + n;
        Ok(at)
    }

    /// Consumes a little-endian number of `width` bytes.
    pub fn read_le(&mut self, width: usize) -> (r: Result<u128, ErrorKind>)
        requires
            width <= 16,
        ensures
            match r {
                Ok(value) => old(self)@.has(width as int) && value == le_value(
                    old(self)@.peek(width as int),
                ) && value < pow256(width as nat) && final(self)@ == old(self)@.skip(width as int),
                Err(e) => e == ErrorKind::TruncatedRead && !old(self)@.has(width as int)
                    && final(self)@ == old(self)@,
            },
    {
        match self.claim(width) {
            Ok(at) => Ok(le_number(&self.input, at, width)),
            Err(e) => Err(e),
        }
    }

    /// Consumes a big-endian number of `width` bytes.
    pub fn read_be(&mut self, width: usize) -> (r: Result<u128, ErrorKind>)
        requires
            width <= 16,
        ensures
            match r {
                Ok(value) => old(self)@.has(width as int) && value == be_value(
                    old(self)@.peek(width as int),
                ) && value < pow256(width as nat) && final(self)@ == old(self)@.skip(width as int),
                Err(e) => e == ErrorKind::TruncatedRead && !old(self)@.has(width as int)
                    && final(self)@ == old(self)@,
            },
    {
        match self.claim(width) {
            Ok(at) => Ok(be_number(&self.input, at, width)),
            Err(e) => Err(e),
        }
    }

    /// Consumes `n` bytes, where `n` is a count that came from the wire.
    pub fn read_n(&mut self, n: usize) -> (r: Result<Vec<u8>, ErrorKind>)
        ensures
            match r {
                Ok(bytes) => old(self)@.refusal(n as int).is_none() && bytes@ == old(self)@.peek(
                    n as int,
                ) && final(self)@ == old(self)@.skip(n as int),
                Err(e) => old(self)@.refusal(n as int) == Some(e) && final(self)@ == old(self)@,
            },
    {
        if n > self.limit {
            return Err(ErrorKind::ResourceLimitExceeded);
        }
        let end = self.end();
        if n > end - self.pos {
            return Err(ErrorKind::TruncatedRead);
        }
        let bytes = self.copy(self.pos, n);
        self.pos = self.pos + n;
        Ok(bytes)
    }

    /// Copies `n` bytes of the input, from `at` on.
    fn copy(&self, at: usize, n: usize) -> (out: Vec<u8>)
        requires
            at + n <= self@.bytes.len(),
        ensures
            out@ == self@.bytes.subrange(at as int, at + n),
    {
        let mut out: Vec<u8> = Vec::new();
        let mut i: usize = 0;
        while i < n
            invariant
                i <= n,
                at + n <= self.input.len(),
                out@ == self.input@.subrange(at as int, at + i),
            decreases n - i,
        {
            out.push(self.input[at + i]);
            assert(out@ =~= self.input@.subrange(at as int, at + i + 1));
            i += 1;
        }
        out
    }

    /// Consumes a line and its newline, and returns the line without it.
    pub fn read_line(&mut self) -> (r: Result<Vec<u8>, ErrorKind>)
        ensures
            match r {
                Ok(line) => old(self)@.has_line() && line@ == old(self)@.peek(
                    old(self)@.line_len(),
                ) && final(self)@ == old(self)@.skip(old(self)@.line_len() + 1),
                Err(e) => e == ErrorKind::TruncatedRead && !old(self)@.has_line() && final(self)@
                    == old(self)@,
            },
    {
        let end = self.end();
        let start = self.pos;
        let mut i: usize = start;
        while i < end && self.input[i] != 0x0A
            invariant
                start <= i <= end <= self.input@.len(),
                start == self.pos,
                end == self@.end(),
                forall|k: int| start <= k < i ==> self.input@[k] != 0x0A,
            decreases end - i,
        {
            i += 1;
        }
        let ghost src = self@;
        if i >= end {
            proof {
                if src.has_line() {
                    let n = src.line_len();
                    assert(src.line_ends_at(n));
                    assert(self.input@[start + n] != 0x0A);
                }
            }
            return Err(ErrorKind::TruncatedRead);
        }
        proof {
            assert(src.line_ends_at((i - start) as int));
            lemma_line_end_unique(src, (i - start) as int, src.line_len());
        }
        let line = self.copy(start, i - start);
        self.pos = i + 1;
        Ok(line)
    }

    /// Enters a frame of `len` bytes. What is left of a frame that the cursor
    /// is still inside is skipped.
    pub fn enter_frame(&mut self, len: u64) -> (r: Result<(), ErrorKind>)
        ensures
            match r {
                Ok(_) => old(self)@.frame_refusal(len as int).is_none() && final(self)@ == old(self)@.framed(len as int),
                Err(e) => old(self)@.frame_refusal(len as int) == Some(e) && final(self)@ == old(self)@,
            },
    {
        proof {
            use_type_invariant(&*self);
        }
        if len > self.limit as u64 {
            return Err(ErrorKind::ResourceLimitExceeded);
        }
        let len = len as usize;
        let start = if self.pos < self.frame_end {
            self.frame_end
        } else {
            self.pos
        };
        if len > self.input.len() - start {
            return Err(ErrorKind::TruncatedRead);
        }
        self.pos = start;
        self.frame_end = start + len;
        Ok(())
    }
}

} // verus!
