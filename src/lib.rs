//! An encrypted, password-gated chat relay.
//!
//! Messages travel in fixed-size frames: a random initialization vector
//! followed by an AES-256-CBC ciphertext of a length-prefixed plaintext.
//! A session is admitted once its first frame decodes under the shared key;
//! the relay then fans every decoded message out to all other admitted
//! sessions, in the order in which it received them.
//!
//! The scheme is not authenticated encryption: the shared secret is used
//! directly as the key and frames carry no authentication tag.

pub mod cipher;
pub mod client;
pub mod codec;
pub mod message;
pub mod registry;
pub mod session;
