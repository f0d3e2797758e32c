//! Runtime core for name-service-switch plugins: status codes, a bounds-checked
//! writer over caller-owned memory, a resumable record iterator, and the
//! entry points for the service database.

pub mod interop;
pub mod service;
