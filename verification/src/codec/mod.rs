//! The descriptor codec.
//!
//! One descriptor is written as a short textual record. A record ends where
//! its grammar says it ends, so records are put one after the other with
//! nothing between them, and a blob of records is read back from its start
//! until nothing is left.
//!
//! ```text
//! record  = "F" source options served flag      a file
//!         | "D" source served                   a folder
//!         | "T" string                          utility classes
//! source  = "L" string | "R" string             local path, URL
//! options = "c" flag                            stylesheet: preload
//!         | "i" format size flag                image: format, size, preload
//!         | "j" flag flag                       script: minify, preload
//!         | "o"                                 any other file
//! format  = "p" | "j" | "w" | "a"               png, jpg, webp, avif
//! size    = "-" | "[" number "x" number "]"
//! served  = "=" string | "!" ("e" | "m")        a location, or why there is none
//! flag    = "0" | "1"
//! number  = a decimal number below 2^32, without leading zeros
//! string  = '"' item* '"'
//! item    = any character but '"', '\' and control characters
//!         | '\' '"' | '\' '\'
//!         | '\' hex hex                         a control character
//! ```
//!
//! The reader is strict: it accepts what the writer writes and nothing else.

pub mod decode;
pub mod encode;
pub mod grammar;
pub mod inverse;
