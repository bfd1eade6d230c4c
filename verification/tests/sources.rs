use read2::{copy, exact_step, ExactStep, IoError, MaybeUninitIoSliceMut, Read2, ReadBuf, ReadBufs, Write2};

/// A source that yields each scripted chunk in turn, then reports the end
/// of the stream, or fails once every chunk is gone if told to.
struct Scripted {
    chunks: Vec<Vec<u8>>,
    pos: usize,
    off: usize,
    fail_at_end: Option<i32>,
}

impl Scripted {
    fn new(chunks: Vec<Vec<u8>>) -> Scripted {
        Scripted { chunks, pos: 0, off: 0, fail_at_end: None }
    }

    fn failing(chunks: Vec<Vec<u8>>, code: i32) -> Scripted {
        Scripted { chunks, pos: 0, off: 0, fail_at_end: Some(code) }
    }

    /// Takes up to `room` bytes from the current chunk, or reports the end
    /// of the script.
    fn take(&mut self, room: usize) -> Result<Vec<u8>, IoError> {
        if self.pos >= self.chunks.len() {
            return match self.fail_at_end {
                Some(code) => Err(IoError::Transport(code)),
                None => Ok(Vec::new()),
            };
        }
        let chunk = &self.chunks[self.pos];
        let n = (chunk.len() - self.off).min(room);
        let piece = chunk[self.off..self.off + n].to_vec();
        self.off += n;
        if self.off == chunk.len() {
            self.pos += 1;
            self.off = 0;
        }
        Ok(piece)
    }
}

impl Read2 for Scripted {
    fn read_buf(&mut self, buf: &mut ReadBuf) -> Result<usize, IoError> {
        let piece = self.take(buf.len())?;
        buf.write_uninit(0, &piece);
        buf.assume_initialized(piece.len());
        Ok(piece.len())
    }

    fn read_bufs(&mut self, bufs: &mut ReadBufs) -> Result<usize, IoError> {
        let regions = bufs.as_uninit();
        let total: usize = regions.iter().map(|r| r.len()).sum();
        let piece = self.take(total)?;
        let mut given = 0usize;
        for (i, region) in regions.iter().enumerate() {
            if given == piece.len() {
                break;
            }
            let n = (piece.len() - given).min(region.len());
            bufs.write_uninit(i, 0, &piece[given..given + n].to_vec());
            given += n;
        }
        bufs.assume_initialized(given);
        Ok(given)
    }
}

/// A sink that remembers every accepted byte and counts the writes.
struct VecSink {
    data: Vec<u8>,
    writes: usize,
}

impl VecSink {
    fn new() -> VecSink {
        VecSink { data: Vec::new(), writes: 0 }
    }
}

impl Write2 for VecSink {
    fn write_all(&mut self, data: &Vec<u8>) -> Result<(), IoError> {
        self.data.extend_from_slice(data);
        self.writes += 1;
        Ok(())
    }
}

/// A sink that fails every write atomically.
struct BrokenSink;

impl Write2 for BrokenSink {
    fn write_all(&mut self, _data: &Vec<u8>) -> Result<(), IoError> {
        Err(IoError::Transport(32))
    }
}

#[test]
fn read_buf_exact_reports_premature_eof() {
    let mut source = Scripted::new(vec![vec![7u8; 4]]);
    let mut buf = ReadBuf::new_uninit(vec![0u8; 10]);

    let r = source.read_buf_exact(&mut buf);
    assert_eq!(r, Err(IoError::UnexpectedEof));
    assert_eq!(buf.initialized(), 4);
    let (head, _) = buf.as_slices();
    assert_eq!(head, vec![7u8; 4]);
}

#[test]
fn read_buf_exact_fills_the_whole_buffer() {
    let mut source = Scripted::new(vec![vec![1u8; 4], vec![2u8; 3], vec![3u8; 3]]);
    let mut buf = ReadBuf::new_uninit(vec![0u8; 10]);

    let r = source.read_buf_exact(&mut buf);
    assert_eq!(r, Ok(()));
    assert_eq!(buf.initialized(), 10);
    assert_eq!(buf.as_init(), vec![1, 1, 1, 1, 2, 2, 2, 3, 3, 3]);
}

#[test]
fn read_buf_exact_propagates_transport_errors() {
    let mut source = Scripted::failing(vec![vec![5u8; 2]], 104);
    let mut buf = ReadBuf::new_uninit(vec![0u8; 6]);

    let r = source.read_buf_exact(&mut buf);
    assert_eq!(r, Err(IoError::Transport(104)));
    assert_eq!(buf.initialized(), 2);
}

#[test]
fn copy_reports_total_and_forwards_exact_bytes() {
    let mut source = Scripted::new(vec![vec![7u8; 4096], vec![8u8; 4096]]);
    let mut sink = VecSink::new();

    let r = copy(&mut source, &mut sink);
    assert_eq!(r, Ok(8192));
    assert_eq!(sink.writes, 2);
    assert_eq!(sink.data.len(), 8192);
    assert!(sink.data[..4096].iter().all(|b| *b == 7));
    assert!(sink.data[4096..].iter().all(|b| *b == 8));
}

#[test]
fn copy_propagates_write_errors_fatally() {
    let mut source = Scripted::new(vec![vec![7u8; 10]]);
    let mut sink = BrokenSink;

    let r = copy(&mut source, &mut sink);
    assert_eq!(r, Err(IoError::Transport(32)));
}

#[test]
fn copy_of_empty_stream_is_zero() {
    let mut source = Scripted::new(Vec::new());
    let mut sink = VecSink::new();

    let r = copy(&mut source, &mut sink);
    assert_eq!(r, Ok(0));
    assert_eq!(sink.writes, 0);
    assert_eq!(sink.data, Vec::<u8>::new());
}

#[test]
fn read_to_end_appends_every_chunk() {
    let mut source = Scripted::new(vec![vec![1u8; 10], vec![2u8; 30], vec![3u8; 5]]);
    let mut out = vec![9u8, 9];

    let r = source.read_to_end2(&mut out);
    assert_eq!(r, Ok(45));
    assert_eq!(out.len(), 47);
    assert_eq!(&out[..2], &[9u8, 9][..]);
    assert!(out[2..12].iter().all(|b| *b == 1));
    assert!(out[12..42].iter().all(|b| *b == 2));
    assert!(out[42..].iter().all(|b| *b == 3));
}

#[test]
fn read_to_end_propagates_errors_and_keeps_committed_bytes() {
    let mut source = Scripted::failing(vec![vec![4u8; 3]], 110);
    let mut out = Vec::new();

    let r = source.read_to_end2(&mut out);
    assert_eq!(r, Err(IoError::Transport(110)));
    assert_eq!(out, vec![4u8; 3]);
}

#[test]
fn vectored_read_fills_regions_in_order() {
    let mut source = Scripted::new(vec![vec![6u8; 7]]);
    let mut bufs = ReadBufs::new_uninit(vec![
        MaybeUninitIoSliceMut::new(vec![0u8; 5]),
        MaybeUninitIoSliceMut::new(vec![0u8; 4]),
    ]);

    let r = source.read_bufs(&mut bufs);
    assert_eq!(r, Ok(7));
    assert_eq!(bufs.initialized(), 7);
    let raw = bufs.as_uninit();
    assert_eq!(raw[0], vec![6u8; 5]);
    assert_eq!(raw[1], vec![6u8, 6, 0, 0]);
}

#[test]
fn exact_step_decides_the_eof_rule() {
    // A 0-byte read with room left is the premature end of stream ...
    assert_eq!(exact_step(0, 5), ExactStep::Eof);
    assert_eq!(exact_step(0, 1), ExactStep::Eof);
    // ... and only that: progress continues, and a filled buffer is done.
    assert_eq!(exact_step(3, 5), ExactStep::More);
    assert_eq!(exact_step(5, 5), ExactStep::Filled);
    assert_eq!(exact_step(6, 5), ExactStep::Filled);
    assert_eq!(exact_step(0, 0), ExactStep::Filled);
}

#[test]
fn read_buf_exact_on_empty_buffer_needs_no_source() {
    // Even a source that would fail is never consulted: an empty buffer is
    // already exactly filled.
    let mut source = Scripted::failing(Vec::new(), 9);
    let mut buf = ReadBuf::new_uninit(Vec::new());

    let r = source.read_buf_exact(&mut buf);
    assert_eq!(r, Ok(()));
    assert_eq!(buf.initialized(), 0);
    assert_eq!(buf.len(), 0);
}
