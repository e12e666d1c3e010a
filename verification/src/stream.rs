//! The zlib decompression stream, with the record of every time it was fed.
//! The record can only grow through the stream's own feeding, so what it says
//! of each feeding (what went in, what came out) is what the stream was given
//! and gave back.

use flate2::{Decompress, DecompressError, FlushDecompress, Status};
use vstd::prelude::*;

verus! {

/// One feeding of the stream.
pub struct Feed {
    /// The bytes handed to the stream.
    pub input: Seq<u8>,
    /// The bytes it wrote after those already in the output buffer.
    pub output: Seq<u8>,
    /// The output buffer's capacity, which the stream does not exceed.
    pub capacity: nat,
    /// The stream's count of input bytes read, after the feeding.
    pub total_in: u64,
    /// Whether the stream reported an error.
    pub failed: bool,
}

/// The stream's count of input bytes read after the feedings `feeds` (0 before
/// any).
pub open spec fn stream_total(feeds: Seq<Feed>) -> u64 {
    if feeds.len() == 0 {
        0
    } else {
        feeds.last().total_in
    }
}

/// A zlib decompression stream (`flate2::Decompress`, expecting a zlib header).
pub struct Stream {
    d: Decompress,
    feeds: Ghost<Seq<Feed>>,
}

/// `Decompress::new(true)`: a decompressor expecting a zlib header.
#[verifier::external_body]
fn new_decompress() -> Decompress {
    Decompress::new(true)
}

impl Stream {
    /// Every feeding of the stream, oldest first.
    pub closed spec fn feeds(&self) -> Seq<Feed> {
        self.feeds@
    }

    /// A fresh stream, never fed.
    pub fn new() -> (r: Stream)
        ensures
            r.feeds() == Seq::<Feed>::empty(),
    {
        Stream { d: new_decompress(), feeds: Ghost(Seq::empty()) }
    }

    /// `Decompress::total_in`: the count of input bytes the stream has read,
    /// which is 0 for a fresh stream and changes only when it is fed.
    #[verifier::external_body]
    pub(crate) fn total_in(&self) -> (r: u64)
        ensures
            r == stream_total(self.feeds()),
    {
        self.d.total_in()
    }

    /// `Decompress::decompress_vec` with a sync flush, handing back with its
    /// result the capacity `output` had (`Vec::capacity`). As its source shows,
    /// it writes only into the spare capacity and does not reallocate: the
    /// bytes already there stay, the length does not shrink and does not pass
    /// the capacity. The feeding is recorded: the input, what was written, the
    /// capacity and whether it failed. Which bytes the stream writes, and its
    /// input count afterwards, depend on the stream's state and are not stated.
    #[verifier::external_body]
    pub(crate) fn decompress_sync(&mut self, input: &[u8], output: &mut Vec<u8>) -> (r: (
        Result<Status, DecompressError>,
        usize,
    ))
        ensures
            r.1 >= old(output)@.len(),
            final(output)@.len() >= old(output)@.len(),
            final(output)@.len() <= r.1,
            final(output)@.take(old(output)@.len() as int) == old(output)@,
            final(self).feeds().len() == old(self).feeds().len() + 1,
            final(self).feeds().take(old(self).feeds().len() as int) == old(self).feeds(),
            final(self).feeds().last().input == input@,
            final(self).feeds().last().output == final(output)@.skip(old(output)@.len() as int),
            final(self).feeds().last().capacity == r.1,
            final(self).feeds().last().failed == (r.0 is Err),
    {
        let capacity = output.capacity();
        (self.d.decompress_vec(input, output, FlushDecompress::Sync), capacity)
    }
}

} // verus!
