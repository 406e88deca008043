//! The text of a request as it comes in, chunk by chunk.

use crate::text::{bytes_to_text, text_of_bytes};
use vstd::prelude::*;
use vstd::string::*;

verus! {

/// The number of bytes that are asked for in one read.
pub const CHUNK_SIZE: usize = 512;

/// The text after a read has brought `chunk`: a read that brought nothing
/// leaves the text as it is, and any other chunk is read as text by itself
/// and goes to the end.
pub open spec fn with_chunk(text: Seq<char>, chunk: Seq<u8>) -> Seq<char> {
    if chunk.len() == 0 {
        text
    } else {
        text + text_of_bytes(chunk)
    }
}

/// Another read is due after `chunk`: only a read that brought all that was
/// asked for is followed by another.
pub open spec fn more_to_read(chunk: Seq<u8>) -> bool {
    chunk.len() >= CHUNK_SIZE
}

/// Gathers the text of one request from the chunks that the reads bring.
pub struct RequestBuffer {
    text: String,
}

impl View for RequestBuffer {
    type V = Seq<char>;

    closed spec fn view(&self) -> Seq<char> {
        self.text@
    }
}

impl RequestBuffer {
    /// A buffer without text.
    pub fn new() -> (buffer: Self)
        ensures
            buffer@ == Seq::<char>::empty(),
    {
        RequestBuffer { text: String::new() }
    }

    /// Puts `piece` behind the text that is there.
    pub fn push_text(&mut self, piece: &str)
        ensures
            final(self)@ == old(self)@ + piece@,
    {
        self.text.append(piece);
    }

    /// Takes in what one read has brought, and says whether to read again.
    pub fn push_chunk(&mut self, chunk: &[u8]) -> (more: bool)
        ensures
            final(self)@ == with_chunk(old(self)@, chunk@),
            more == more_to_read(chunk@),
    {
        if chunk.len() == 0 {
            return false;
        }
        let piece = bytes_to_text(chunk);
        self.push_text(piece.as_str());
        chunk.len() >= CHUNK_SIZE
    }

    /// The text that has come in.
    pub fn into_text(self) -> (text: String)
        ensures
            text@ == self@,
    {
        self.text
    }
}

} // verus!
