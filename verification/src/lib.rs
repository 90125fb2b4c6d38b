//! Brain-wallet passphrase library: a fixed dictionary of words, a generator
//! that draws uniformly random words from it, and a validator that checks a
//! candidate phrase against the dictionary and a minimum word count.

pub mod chars;
pub mod dictionary;
pub mod generator;
pub mod phrase;
pub mod validator;

pub use dictionary::Dictionary;
pub use generator::random_phrase;
pub use validator::{validate_phrase, Error};
