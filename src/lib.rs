//! Two classical ciphers (Caesar and Vigenère) and the length-prefixed wire
//! format that carries a message and its key between a client and a server.
pub mod be_bytes;
pub mod caesar_ipc;
pub mod frame;
pub mod letters;
pub mod text;
pub mod vigenere_ipc;
