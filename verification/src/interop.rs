//! The pieces shared by every record kind.

pub mod buffer;
pub mod convert;
pub mod iterator;
pub mod status;

pub use self::buffer::{CBuffer, OutOfSpace};
pub use self::convert::ToC;
pub use self::iterator::Iterator;
pub use self::status::{NssStatus, Response};
