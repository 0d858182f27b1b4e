//! A verified buffered I/O layer.
//!
//! The crate mediates between byte-stream sources or sinks and their
//! consumers, batching many small reads or writes into few large ones while
//! keeping exact byte-for-byte semantics. Its contracts pin down when the
//! wrapped source or sink is touched, and what bytes move on each call.

pub mod adapters;
pub mod borrowed_buf;
pub mod buffer;
pub mod bufreader;
pub mod bufwriter;
pub mod copy;
pub mod cursor;
pub mod error;
pub mod impls;
pub mod linewriter;
pub mod memchr;
pub mod rw;
pub mod util;

pub use adapters::Bytes;
pub use adapters::Chain;
pub use adapters::Lines;
pub use adapters::Split;
pub use adapters::Take;
pub use borrowed_buf::BorrowedBuf;
pub use borrowed_buf::BorrowedCursor;
pub use buffer::Buffer;
pub use bufreader::BufReader;
pub use bufwriter::BufWriter;
pub use bufwriter::IntoInnerError;
pub use bufwriter::WriterPanicked;
pub use copy::copy;
pub use copy::stack_buffer_copy;
pub use cursor::ByteStore;
pub use cursor::Cursor;
pub use error::Custom;
pub use error::Error;
pub use error::ErrorKind;
pub use error::SimpleMessage;
pub use linewriter::LineWriter;
pub use memchr::memchr;
pub use memchr::memrchr;
pub use rw::joined_slices;
pub use rw::read_to_string;
pub use rw::IoSlice;
pub use rw::BufRead;
pub use rw::Read;
pub use rw::Seek;
pub use rw::SeekFrom;
pub use rw::Write;
pub use rw::DEFAULT_BUF_SIZE;
pub use util::empty;
pub use util::repeat;
pub use util::sink;
pub use util::Empty;
pub use util::Repeat;
pub use util::Sink;
