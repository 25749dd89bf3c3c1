//! The enumerated failure value that every decoding layer reports.

use vstd::prelude::*;

verus! {

/// Every way a command can fail. Decoding errors are reported, never
/// retried; they bubble unchanged to the dispatcher.
#[derive(Clone, Copy, Debug, PartialEq, Eq, Structural)]
pub enum Error {
    /// Fewer than two positional arguments were supplied.
    MissingArgument,
    /// The command string matches no entry of the dispatch table.
    UnknownCommand,
    /// The underlying file source failed to open, seek or read.
    IoError,
    /// A page or header read ended before the requested length.
    ShortRead,
    /// A varint or a record runs off the end of its buffer.
    Truncated,
    /// Text column bytes are not valid UTF-8.
    InvalidUtf8,
    /// The stored `CREATE TABLE` text lacks balanced parentheses.
    MalformedDdl,
    /// The requested column name is not in the table's DDL.
    UnknownColumn,
    /// The referenced table is absent from the schema.
    TableNotFound,
    /// A cell payload claims to extend past the page boundary.
    OverflowUnsupported,
    /// A cell pointer or header-derived offset is out of range.
    CorruptPage,
}

} // verus!
