pub mod text;
pub mod ber;
pub mod decode;
pub mod lex;
pub mod split;
pub mod net;
pub mod error;
pub mod varbind;
pub mod pdu;
pub mod engine;
pub mod entropy;
pub mod usm;
pub mod v3;
pub mod cli;
pub mod payload;
pub mod transport;
pub mod debug;
