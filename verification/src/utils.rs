//! The closed error taxonomy of the decoder. Every decode step is
//! total: it returns a value or one of these errors; there is no silent
//! recovery anywhere in the parse or resolve path.

use vstd::prelude::*;

verus! {

/// Errors that can occur while probing, fetching, or parsing the CYOA
/// file.
#[derive(Clone, Debug)]
pub enum GameError {
    /// Non-success HTTP response, with status code.
    Http(u16),
    /// Server does not support HTTP range requests.
    RangeNotSupported,
    /// File magic header did not match `CYOA`.
    InvalidMagic,
    /// Index pointer points past end of file.
    IndexOutOfRange,
    /// A structural or bounds violation in the binary data, with a
    /// short fixed reason.
    Parse(&'static str),
    /// Root pointer metadata chunk was not found.
    MissingRoot,
    /// Other errors, with textual detail.
    Other(String),
}

} // verus!
