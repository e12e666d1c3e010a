//! The zlib-stream inflater of the gateway connection: compressed bytes are
//! gathered until a complete payload has arrived, then inflated into a
//! message buffer.

use crate::stream::{stream_total, Feed, Stream};
use flate2::{Decompress, DecompressError, Status};
use std::time::{Duration, Instant};
use vstd::prelude::*;

verus! {

/// `flate2::Decompress`, a zlib decompression stream.
#[verifier::external_type_specification]
#[verifier::external_body]
pub struct ExDecompress(Decompress);

/// `flate2::DecompressError`.
#[verifier::external_type_specification]
#[verifier::external_body]
pub struct ExDecompressError(DecompressError);

/// `flate2::Status`.
#[verifier::external_type_specification]
#[verifier::external_body]
pub struct ExStatus(Status);

/// `std::time::Instant`.
#[verifier::external_type_specification]
#[verifier::external_body]
pub struct ExInstant(Instant);

/// The bytes that end every complete payload of a zlib stream (a sync flush).
pub open spec fn zlib_suffix() -> Seq<u8> {
    seq![0x00u8, 0x00u8, 0xffu8, 0xffu8]
}

/// Whether the bytes gathered so far end a payload: at least four bytes, the
/// last four being [`zlib_suffix`].
pub open spec fn spec_payload_complete(b: Seq<u8>) -> bool {
    b.len() >= 4 && b.skip(b.len() - 4) == zlib_suffix()
}

/// The size of the buffer each inflation step writes into.
pub const INTERNAL_BUFFER_SIZE: usize = 32768;

/// The number of seconds after which the buffers may be shrunk again.
pub const SHRINK_INTERVAL_SECS: u64 = 60;

/// An inflation failure: the decompressor's own error.
pub enum InflateError {
    Decompress(DecompressError),
}

/// Gathers zlib-compressed bytes and inflates complete payloads.
pub struct Inflater {
    decompress: Stream,
    compressed: Vec<u8>,
    internal_buffer: Vec<u8>,
    buffer: Vec<u8>,
    last_resize: Instant,
}

/// `Vec::shrink_to_fit`: keeps the contents.
#[verifier::external_body]
fn shrink_to_fit(v: &mut Vec<u8>)
    ensures
        final(v)@ == old(v)@,
{
    v.shrink_to_fit()
}

/// `Instant::now`.
#[verifier::external_body]
fn now() -> Instant {
    Instant::now()
}

/// `Instant::elapsed`.
#[verifier::external_body]
fn elapsed(i: &Instant) -> Duration {
    i.elapsed()
}

/// `Duration::as_secs`.
#[verifier::external_body]
fn as_secs(d: &Duration) -> u64 {
    d.as_secs()
}

/// `Vec::with_capacity` for the byte buffers (an empty vector).
fn byte_buffer(capacity: usize) -> (r: Vec<u8>)
    ensures
        r@ == Seq::<u8>::empty(),
{
    Vec::with_capacity(capacity)
}

/// Whether a payload is complete (see [`spec_payload_complete`]).
pub fn payload_complete(b: &[u8]) -> (r: bool)
    ensures
        r == spec_payload_complete(b@),
{
    let n = b.len();
    if n < 4 {
        return false;
    }
    let r = b[n - 4] == 0x00 && b[n - 3] == 0x00 && b[n - 2] == 0xff && b[n - 1] == 0xff;
    proof {
        let t = b@.skip(n - 4);
        assert(t.len() == 4);
        assert(t[0] == b@[n - 4] && t[1] == b@[n - 3] && t[2] == b@[n - 2] && t[3] == b@[n - 1]);
        if r {
            assert(t =~= zlib_suffix());
        }
    }
    r
}

/// How far into the gathered bytes the stream has read, given its input count
/// now and when the inflation began: the growth of the count, or 0 where that
/// is negative or does not fit a `usize`.
pub open spec fn consumed(total_now: u64, before: u64) -> int {
    if total_now >= before && total_now - before <= usize::MAX {
        total_now - before
    } else {
        0
    }
}

/// How far into the gathered bytes the stream has read (see [`consumed`]).
pub fn consumed_offset(total_now: u64, before: u64) -> (r: usize)
    ensures
        r == consumed(total_now, before),
{
    if total_now >= before {
        let d = total_now - before;
        if d <= usize::MAX as u64 {
            d as usize
        } else {
            0
        }
    } else {
        0
    }
}

/// Whether inflation goes on after a feeding of the stream that began at the
/// input count `start`: the stream did not fail, filled the whole output
/// buffer with something, and has not read past the gathered bytes.
pub open spec fn continues(f: Feed, start: u64, pending: Seq<u8>) -> bool {
    &&& !f.failed
    &&& f.output.len() > 0
    &&& f.output.len() >= f.capacity
    &&& consumed(f.total_in, start) <= pending.len()
}

/// Where feeding `i` starts in the gathered bytes: at the start for the first,
/// else where the stream had read to after the feeding before.
pub open spec fn round_offset(fs: Seq<Feed>, start: u64, i: int) -> int {
    if i == 0 {
        0
    } else {
        consumed(fs[i - 1].total_in, start)
    }
}

/// The feedings of inflating the gathered bytes `pending`, the stream's input
/// count being `start` before them: the first feeds all of the gathered bytes;
/// each next one feeds them from where the stream had read to; every feeding
/// but the last goes on (see [`continues`]) and the last does not.
pub open spec fn inflation(pending: Seq<u8>, start: u64, fs: Seq<Feed>) -> bool {
    &&& fs.len() >= 1
    &&& forall|i: int|
        0 <= i < fs.len() ==> (#[trigger] fs[i]).input == pending.skip(round_offset(fs, start, i))
    &&& forall|i: int| 0 <= i < fs.len() - 1 ==> continues(#[trigger] fs[i], start, pending)
    &&& !continues(fs.last(), start, pending)
}

/// What the feedings inflated, in order (a failed feeding adds nothing).
pub open spec fn outputs(fs: Seq<Feed>) -> Seq<u8>
    decreases fs.len(),
{
    if fs.len() == 0 {
        Seq::empty()
    } else {
        outputs(fs.drop_last()) + if fs.last().failed {
            Seq::<u8>::empty()
        } else {
            fs.last().output
        }
    }
}

impl Inflater {
    /// The compressed bytes gathered and not yet inflated.
    pub closed spec fn pending(&self) -> Seq<u8> {
        self.compressed@
    }

    /// The inflated bytes accumulated so far.
    pub closed spec fn inflated(&self) -> Seq<u8> {
        self.buffer@
    }

    /// The output buffer of the last round.
    pub closed spec fn scratch(&self) -> Seq<u8> {
        self.internal_buffer@
    }

    /// The decompression stream.
    pub closed spec fn stream(&self) -> Stream {
        self.decompress
    }

    /// Every feeding of the stream, oldest first.
    pub closed spec fn rounds(&self) -> Seq<Feed> {
        self.decompress.feeds()
    }

    /// A new inflater, with nothing gathered, inflated or fed.
    pub fn new() -> (r: Inflater)
        ensures
            r.pending() == Seq::<u8>::empty(),
            r.inflated() == Seq::<u8>::empty(),
            r.scratch() == Seq::<u8>::empty(),
            r.rounds() == Seq::<Feed>::empty(),
    {
        Inflater {
            buffer: byte_buffer(INTERNAL_BUFFER_SIZE),
            compressed: Vec::new(),
            decompress: Stream::new(),
            internal_buffer: byte_buffer(INTERNAL_BUFFER_SIZE),
            last_resize: now(),
        }
    }

    /// Appends received bytes to the gathered compressed bytes; nothing else
    /// changes.
    pub fn extend(&mut self, slice: &[u8])
        ensures
            final(self).pending() == old(self).pending() + slice@,
            final(self).inflated() == old(self).inflated(),
            final(self).scratch() == old(self).scratch(),
            final(self).stream() == old(self).stream(),
            final(self).rounds() == old(self).rounds(),
    {
        let ghost old_c = self.compressed@;
        self.compressed.extend_from_slice(slice);
        proof {
            assert forall|i: int| 0 <= i < slice@.len() implies self.compressed@[old_c.len() + i] == slice@[i] by {
                assert(vstd::pervasive::cloned::<u8>(slice@[i], self.compressed@[old_c.len() + i]));
            }
            assert(self.compressed@ =~= old_c + slice@);
        }
    }

    /// Inflates the next message if a complete payload has been gathered.
    ///
    /// While the gathered bytes do not end a payload: `Ok(None)`, changing
    /// nothing. Otherwise the gathered bytes are fed to the stream (see
    /// [`inflation`]), and what each feeding inflates is appended to the
    /// accumulated bytes. When no feeding fails, the gathered bytes are dropped
    /// and all accumulated bytes are handed out; when the last one fails, the
    /// error is returned and the gathered bytes are kept.
    #[verifier::rlimit(60)]
    pub fn msg(&mut self) -> (r: Result<Option<&[u8]>, InflateError>)
        ensures
            !spec_payload_complete(old(self).pending()) ==> (r matches Ok(None)) && *final(self)
                == *old(self),
            spec_payload_complete(old(self).pending()) ==> ({
                let fs = final(self).rounds().skip(old(self).rounds().len() as int);
                &&& final(self).rounds().len() >= old(self).rounds().len()
                &&& final(self).rounds().take(old(self).rounds().len() as int) == old(self).rounds()
                &&& inflation(old(self).pending(), stream_total(old(self).rounds()), fs)
                &&& final(self).inflated() == old(self).inflated() + outputs(fs)
                &&& final(self).scratch() == fs.last().output
                &&& (r is Err <==> fs.last().failed)
                &&& (r is Err ==> final(self).pending() == old(self).pending())
                &&& (r is Ok ==> (r matches Ok(Some(out)) && out@ == final(self).inflated()
                    && final(self).pending() == Seq::<u8>::empty()))
            }),
    {
        if !payload_complete(self.compressed.as_slice()) {
            return Ok(None);
        }
        let ghost old_buf = self.buffer@;
        let ghost old_c = self.compressed@;
        let ghost old_fs = self.decompress.feeds();
        let before = self.decompress.total_in();
        let mut offset: usize = 0;
        let ghost mut fs: Seq<Feed> = Seq::empty();
        loop
            invariant_except_break
                offset <= old_c.len(),
                offset == (if fs.len() == 0 { 0 } else { consumed(fs.last().total_in, before) }),
                forall|i: int| 0 <= i < fs.len() ==> continues(#[trigger] fs[i], before, old_c),
            invariant
                self.compressed@ == old_c,
                old_c == old(self).compressed@,
                old_buf == old(self).buffer@,
                old_fs == old(self).decompress.feeds(),
                before == stream_total(old_fs),
                spec_payload_complete(old_c),
                self.decompress.feeds() == old_fs + fs,
                self.buffer@ == old_buf + outputs(fs),
                fs.len() > 0 ==> self.internal_buffer@ == fs.last().output,
                forall|i: int|
                    0 <= i < fs.len() ==> (#[trigger] fs[i]).input == old_c.skip(round_offset(fs, before, i))
                        && !fs[i].failed,
            ensures
                self.compressed@ == old_c,
                inflation(old_c, before, fs),
                self.decompress.feeds() == old_fs + fs,
                self.buffer@ == old_buf + outputs(fs),
                self.internal_buffer@ == fs.last().output,
                !fs.last().failed,
            decreases usize::MAX - self.buffer@.len(),
        {
            let ghost start_len = self.buffer@.len();
            let ghost fs_old = fs;
            let ghost feeds0 = self.decompress.feeds();
            self.internal_buffer.clear();
            let input = vstd::slice::slice_subrange(
                self.compressed.as_slice(),
                offset,
                self.compressed.len(),
            );
            proof {
                assert(input@ =~= old_c.skip(offset as int));
            }
            let (step, room) = self.decompress.decompress_sync(input, &mut self.internal_buffer);
            let ghost f = self.decompress.feeds().last();
            proof {
                fs = fs.push(f);
                assert(fs.drop_last() =~= fs_old);
                let fd = self.decompress.feeds();
                assert(fd.drop_last() =~= fd.take(feeds0.len() as int));
                assert(fd =~= fd.drop_last().push(fd.last()));
                assert(fd =~= old_fs + fs);
                assert(f.output =~= self.internal_buffer@);
                assert forall|i: int| 0 <= i < fs.len() implies (#[trigger] fs[i]).input
                    == old_c.skip(round_offset(fs, before, i)) by {
                    if i < fs_old.len() {
                        assert(fs[i] == fs_old[i]);
                        if i > 0 {
                            assert(fs[i - 1] == fs_old[i - 1]);
                        }
                    } else if i > 0 {
                        assert(fs[i - 1] == fs_old.last());
                    }
                }
                assert forall|i: int| 0 <= i < fs.len() - 1 implies continues(#[trigger] fs[i], before, old_c) by {
                    assert(fs[i] == fs_old[i]);
                }
            }
            match step {
                Ok(_) => {},
                Err(e) => {
                    proof {
                        assert(outputs(fs) =~= outputs(fs_old));
                        assert(self.decompress.feeds().skip(old_fs.len() as int) =~= fs);
                        assert(self.decompress.feeds().take(old_fs.len() as int) =~= old_fs);
                    }
                    return Err(InflateError::Decompress(e));
                },
            }
            let total_now = self.decompress.total_in();
            offset = consumed_offset(total_now, before);
            let ghost b0 = self.buffer@;
            self.buffer.extend_from_slice(self.internal_buffer.as_slice());
            proof {
                assert(self.buffer@ =~= b0 + f.output);
                assert(outputs(fs) == outputs(fs_old) + f.output);
                assert(self.buffer@ =~= old_buf + outputs(fs));
                assert forall|i: int| 0 <= i < fs.len() implies !(#[trigger] fs[i]).failed by {
                    if i < fs_old.len() {
                        assert(fs[i] == fs_old[i]);
                    }
                }
            }
            let produced = self.internal_buffer.len();
            assert(self.buffer@.len() == start_len + produced);
            assert(self.buffer@.len() == self.buffer.len());
            let not_at_capacity = produced < room;
            // An empty step never fills the buffer (its capacity is a full
            // buffer size), so stopping on it is stopping where the stream
            // stopped.
            if not_at_capacity || offset > self.compressed.len() || produced == 0 {
                proof {
                    assert(!continues(f, before, old_c));
                }
                break;
            }
            proof {
                assert(continues(f, before, old_c));
                assert forall|i: int| 0 <= i < fs.len() implies continues(#[trigger] fs[i], before, old_c) by {
                    if i < fs_old.len() {
                        assert(fs[i] == fs_old[i]);
                    }
                }
            }
        }
        self.compressed.clear();
        proof {
            assert(self.decompress.feeds().skip(old_fs.len() as int) =~= fs);
            assert(self.decompress.feeds().take(old_fs.len() as int) =~= old_fs);
        }
        Ok(Some(self.buffer.as_slice()))
    }

    /// Drops the gathered and inflated bytes, first shrinking the buffers if
    /// enough time has passed since they were last shrunk.
    pub fn clear(&mut self)
        ensures
            final(self).pending() == Seq::<u8>::empty(),
            final(self).inflated() == Seq::<u8>::empty(),
            final(self).scratch() == Seq::<u8>::empty(),
            final(self).stream() == old(self).stream(),
            final(self).rounds() == old(self).rounds(),
    {
        self.shrink();
        self.compressed.clear();
        self.internal_buffer.clear();
        self.buffer.clear();
    }

    /// Shrinks the capacity of the gathered and inflated buffers if at least
    /// [`SHRINK_INTERVAL_SECS`] seconds have passed since the last shrink;
    /// their contents stay.
    fn shrink(&mut self)
        ensures
            final(self).pending() == old(self).pending(),
            final(self).inflated() == old(self).inflated(),
            final(self).scratch() == old(self).scratch(),
            final(self).stream() == old(self).stream(),
            final(self).rounds() == old(self).rounds(),
    {
        let secs = as_secs(&elapsed(&self.last_resize));
        if secs < SHRINK_INTERVAL_SECS {
            return ;
        }
        shrink_to_fit(&mut self.compressed);
        shrink_to_fit(&mut self.buffer);
        self.last_resize = now();
    }
}

} // verus!
