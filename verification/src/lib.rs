//! Incrementally-initialized byte buffers and read sources built on them.
//!
//! A `ReadBuf` wraps a byte region together with a cursor counting how many
//! leading bytes are known to be initialized; `ReadBufs` generalizes the same
//! contract to an ordered sequence of regions. The `Read2` capability reads
//! into such buffers, and `copy` drives a full buffer-to-sink transfer.

pub mod read;
pub mod read_buf;
pub mod read_bufs;

pub use read::copy;
pub use read::exact_step;
pub use read::ExactStep;
pub use read::IoError;
pub use read::Read2;
pub use read::Write2;
pub use read_buf::ReadBuf;
pub use read_bufs::MaybeUninitIoSliceMut;
pub use read_bufs::ReadBufs;
