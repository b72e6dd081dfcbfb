//! A view of a contiguous range of a seekable stream as a stream of its own.
//!
//! A [`StreamSlice`] wraps a stream and a range of offsets in it, its
//! window. It is a stream in turn: its positions count from the start of
//! the window, its end is the end of the window, and it reads, writes and
//! seeks by asking the wrapped stream, never for a byte outside the window.
//!
//! - [`io`] holds the traits that a wrapped stream has to offer and that a
//!   slice offers: [`io::Seek`], [`io::Read`] and [`io::Write`], over the
//!   model of a stream in [`io::Stream`]. Each stream says what its
//!   operations do; the traits say what every stream has to keep to.
//! - [`window`] holds the arithmetic of a slice, apart from any stream.
//! - [`stream_slice`] holds the slice, and what is proved of it for every
//!   wrapped stream.
//! - [`cursor`] holds a stream in memory, and what is proved of a slice of
//!   it.

pub mod cursor;
pub mod io;
pub mod stream_slice;
pub mod window;

pub use cursor::Cursor;
pub use stream_slice::StreamSlice;
