//! Random extraction of one `%`-delimited record from a large corpus file:
//! window planning, delimiter scanning, record selection and chunked UTF-8
//! reassembly, each stated and proved over a byte-sequence model of the file.
pub mod partition;
pub mod locator;
pub mod selector;
pub mod assembler;
pub mod dirs;
pub mod chunks;
pub mod http;
