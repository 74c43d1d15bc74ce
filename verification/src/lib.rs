//! XOR encryption of byte streams, file contents and file names against a
//! repeating key, with the hex encoding that turns encrypted names back into
//! printable file names.

pub mod key;
pub mod hexcode;
pub mod names;
pub mod stream;
pub mod walk;
pub mod prompt;
