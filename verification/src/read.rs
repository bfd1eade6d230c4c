use vstd::prelude::*;
use crate::read_buf::ReadBuf;
use crate::read_bufs::ReadBufs;

verus! {

/// An error surfaced by a read source or a sink.
#[derive(Clone, Copy, Debug, PartialEq, Eq, Structural)]
pub enum IoError {
    /// The stream ended before an exact-length read was satisfied.
    UnexpectedEof,
    /// An operating-system transport failure, with its error code attached.
    Transport(i32),
}

/// What the exact-read loop does next, after one inner read.
#[derive(Clone, Copy, Debug, PartialEq, Eq, Structural)]
pub enum ExactStep {
    /// Bytes arrived and room remains: keep reading.
    More,
    /// The unread tail is gone: the buffer is exactly filled.
    Filled,
    /// The stream ended while the buffer still had room: premature end of
    /// stream.
    Eof,
}

/// The exact-read rule, over the count one inner read returned and the
/// bytes of the buffer that were still unread before it: `Eof` exactly when
/// the read returned 0 bytes while room remained.
pub open spec fn exact_step_spec(nread: int, remaining: int) -> ExactStep {
    if remaining <= 0 {
        ExactStep::Filled
    } else if nread == 0 {
        ExactStep::Eof
    } else if nread >= remaining {
        ExactStep::Filled
    } else {
        ExactStep::More
    }
}

/// Decides the exact-read loop's next step from one inner read.
///
/// This is where `read_buf_exact`'s premature-end-of-stream error is
/// decided: `Eof` — and with it `IoError::UnexpectedEof` — comes exactly
/// from a 0-byte read while the buffer still had room.
pub fn exact_step(nread: usize, remaining: usize) -> (r: ExactStep)
    ensures
        r == exact_step_spec(nread as int, remaining as int),
{
    if remaining == 0 {
        ExactStep::Filled
    } else if nread == 0 {
        ExactStep::Eof
    } else if nread >= remaining {
        ExactStep::Filled
    } else {
        ExactStep::More
    }
}

/// A source of bytes that can fill incrementally-initialized buffers.
///
/// `read_buf` and `read_bufs` are the transport primitives. What bytes they
/// produce depends on the source, so their contracts state only what holds
/// of every outcome: the buffer keeps its size, its cursor never falls, and
/// a successful read of `n` bytes leaves at least the first `n` bytes
/// initialized. The exact-length and read-to-end loops are built on top of
/// them and verified here once for every source.
pub trait Read2 {
    /// Pulls some bytes from this source into the buffer, returning how many
    /// bytes were read; 0 bytes means the end of the stream.
    fn read_buf(&mut self, buf: &mut ReadBuf) -> (r: Result<usize, IoError>)
        requires
            old(buf).wf(),
        ensures
            final(buf).wf(),
            final(buf).bytes().len() == old(buf).bytes().len(),
            final(buf).init() >= old(buf).init(),
            r matches Ok(n) ==> n as int <= old(buf).bytes().len() && final(buf).init()
                >= n as int,
    ;

    /// Like `read_buf`, except that it reads into an ordered set of regions,
    /// returning how many cumulative bytes were read.
    fn read_bufs(&mut self, bufs: &mut ReadBufs) -> (r: Result<usize, IoError>)
        requires
            old(bufs).wf(),
        ensures
            final(bufs).wf(),
            final(bufs).slices().len() == old(bufs).slices().len(),
            forall|i: int|
                0 <= i < old(bufs).slices().len() ==> final(bufs).slices()[i].len() == old(
                    bufs,
                ).slices()[i].len(),
            final(bufs).init() >= old(bufs).init(),
            r matches Ok(n) ==> n as int <= old(bufs).total() && final(bufs).init() >= n as int,
    ;

    /// Reads the exact number of bytes required to fill `buf`, by repeated
    /// reads into the unread tail; carries the initialization cursor forward
    /// across the sub-views.
    ///
    /// A read of 0 bytes before the buffer is full is reported as
    /// `IoError::UnexpectedEof`; `exact_step` states that rule exactly. A
    /// buffer with no room to fill succeeds without consulting the source.
    fn read_buf_exact(&mut self, buf: &mut ReadBuf) -> (r: Result<(), IoError>)
        requires
            old(buf).wf(),
        ensures
            final(buf).wf(),
            final(buf).bytes().len() == old(buf).bytes().len(),
            final(buf).init() >= old(buf).init(),
            r matches Ok(_) ==> final(buf).init() == final(buf).bytes().len(),
            old(buf).bytes().len() == 0 ==> (r matches Ok(_)) && *final(buf) == *old(buf),
    {
        let mut base: usize = 0;
        let total = buf.len();
        while base < total
            invariant
                base <= total,
                total == buf.bytes().len(),
                total == old(buf).bytes().len(),
                buf.wf(),
                base as int <= buf.init(),
                buf.init() >= old(buf).init(),
                total > 0 || *buf == *old(buf),
            decreases total - base,
        {
            let mut temp = buf.tail_from(base);
            let len = match self.read_buf(&mut temp) {
                Ok(len) => len,
                Err(e) => {
                    return Err(e);
                },
            };
            match exact_step(len, total - base) {
                ExactStep::Eof => {
                    return Err(IoError::UnexpectedEof);
                },
                ExactStep::More | ExactStep::Filled => {
                    let written = temp.as_uninit();
                    buf.write_uninit(base, &written);
                    let new_initialized = base + temp.initialized();
                    buf.assume_initialized(new_initialized);
                    base = base + len;
                },
            }
        }
        Ok(())
    }

    /// Reads all bytes until the end of the stream, appending them to `buf`,
    /// and returns how many bytes were appended.
    ///
    /// The spare region is grown in fixed 32-byte steps when it is
    /// exhausted, and bytes a read initialized past the committed count are
    /// carried forward so that they are never re-zeroed.
    fn read_to_end2(&mut self, buf: &mut Vec<u8>) -> (r: Result<usize, IoError>)
        ensures
            old(buf)@.is_prefix_of(final(buf)@),
            r matches Ok(n) ==> final(buf)@.len() == old(buf)@.len() + n,
    {
        let initial_len = buf.len();
        let mut scratch = ReadBuf::new_uninit(Vec::new());
        loop
            invariant
                scratch.wf(),
                initial_len == old(buf)@.len(),
                initial_len <= buf@.len() <= usize::MAX,
                old(buf)@.is_prefix_of(buf@),
            decreases usize::MAX - buf@.len(),
        {
            if scratch.len() == 0 {
                let mut fresh: Vec<u8> = Vec::new();
                let mut i: usize = 0;
                while i < 32
                    invariant
                        i <= 32,
                        fresh@.len() == i as int,
                    decreases 32 - i,
                {
                    fresh.push(0);
                    i = i + 1;
                }
                scratch = ReadBuf::new_uninit(fresh);
            }
            let nread = match self.read_buf(&mut scratch) {
                Ok(n) => n,
                Err(e) => {
                    return Err(e);
                },
            };
            if nread == 0 {
                return Ok(buf.len() - initial_len);
            }
            let chunk = scratch.as_init_to(nread);
            let ghost committed = buf@;
            let mut ci: usize = 0;
            while ci < nread
                invariant
                    ci <= nread,
                    nread == chunk@.len(),
                    buf@ == committed + chunk@.subrange(0, ci as int),
                decreases nread - ci,
            {
                buf.push(chunk[ci]);
                ci = ci + 1;
            }
            // Rebinding the length to a machine word bounds the loop's
            // decreasing measure.
            let _grown: usize = buf.len();
            proof {
                assert(old(buf)@.is_prefix_of(buf@));
            }
            scratch = scratch.tail_from(nread);
        }
    }
}

/// A sink of bytes: `written()` is everything it has accepted so far.
pub trait Write2 {
    /// The bytes the sink has accepted, in order.
    ///
    /// Defaults to the empty view, for sinks whose contents are not
    /// modeled; a sink that keeps its bytes overrides this, and
    /// `write_all`'s contract then accounts for every accepted byte.
    open spec fn written(&self) -> Seq<u8> {
        Seq::empty()
    }

    /// Accepts the whole of `data`, or fails without accepting any of it.
    fn write_all(&mut self, data: &Vec<u8>) -> (r: Result<(), IoError>)
        ensures
            r matches Ok(_) ==> final(self).written() == old(self).written() + data@,
            r matches Err(_) ==> final(self).written() == old(self).written(),
    ;
}

/// Copies every byte from `reader` to `writer`, driving a fixed-size region
/// as an incrementally-initialized buffer so that it is never zero-filled
/// ahead of a read, and returns the total number of bytes copied.
///
/// A write failure is fatal and immediate: the already-copied count is lost
/// to the caller. The returned count saturates at `u64::MAX`.
pub fn copy<R: Read2, W: Write2>(reader: &mut R, writer: &mut W) -> (r: Result<u64, IoError>)
    ensures
        old(writer).written().is_prefix_of(final(writer).written()),
        r matches Ok(n) ==> ({
            let grown = final(writer).written().len() - old(writer).written().len();
            n as int == (if grown > u64::MAX as int {
                u64::MAX as int
            } else {
                grown
            })
        }),
{
    let mut region: Vec<u8> = Vec::new();
    let mut i: usize = 0;
    while i < 4096
        invariant
            i <= 4096,
            region@.len() == i as int,
        decreases 4096 - i,
    {
        region.push(0);
        i = i + 1;
    }
    let mut buf = ReadBuf::new_uninit(region);
    let mut len: u64 = 0;
    loop
        invariant
            buf.wf(),
            buf.bytes().len() == 4096,
            old(writer).written().is_prefix_of(writer.written()),
            len as int == writer.written().len() - old(writer).written().len(),
        decreases u64::MAX - len,
    {
        let nread = match reader.read_buf(&mut buf) {
            Ok(n) => n,
            Err(e) => {
                return Err(e);
            },
        };
        if nread == 0 {
            return Ok(len);
        }
        let chunk = buf.as_init_to(nread);
        match writer.write_all(&chunk) {
            Ok(_) => {},
            Err(e) => {
                return Err(e);
            },
        }
        if nread as u64 > u64::MAX - len {
            return Ok(u64::MAX);
        }
        len = len + nread as u64;
    }
}

} // verus!
