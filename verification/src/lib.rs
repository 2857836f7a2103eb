//! Stegstr robust steganography, as a verified library.
//!
//! A message is framed into a packet with a CRC-32 (`packet`, `crc`), optionally encrypted with the
//! open-mode key (`crypt`, `message`), turned into bits (`bits`), and laid into
//! a carrier (`carrier`): either repeated over the 8x8 blocks of a JPEG image
//! (block-average QIM), or in the least significant bits of its channel bytes.
//! Detection reverses each step. `mode` holds the mode and platform decisions
//! of the command-line tool, `text` how payloads and errors are shown (as text,
//! or as JSON through the flat objects of `json`), and `post` the
//! Nostr-style note bundles.

pub mod bits;
pub mod carrier;
pub mod crc;
pub mod crypt;
pub mod json;
pub mod message;
pub mod mode;
pub mod packet;
pub mod post;
pub mod text;
