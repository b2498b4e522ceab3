//! A hex dump: each line shows an eight-digit offset and sixteen bytes as
//! eight little-endian halfword groups, then a last line with the byte count.
pub mod args;
pub mod dump;
pub mod hex;
pub mod line;

pub use args::{parse_length, Args};
pub use dump::{dump_bytes, DumpAction, HexDumper};
pub use hex::push_hex;
pub use line::{convert_to_hexdump_line, BYTES_PER_LINE};
