//! A terminal typing test: a session state machine over key events, the
//! classification and layout that a renderer draws from it, the phase
//! machine of the program around them, and the word pool read from a JSON
//! dictionary.

pub mod key;
pub mod session;
pub mod render;
pub mod driver;
pub mod words;
