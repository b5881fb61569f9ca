//! Running commands in a microVM over a single serial channel.
//!
//! A server in the guest hosts a command behind a PTY, a client on the host
//! bridges the local terminal to it. Both talk in frames over one byte stream:
//! [`frame`] holds the frames and their wire form, [`reader`] takes them out of
//! a stream that arrives in pieces. [`server`], [`session`] and [`login`] decide
//! for the guest's end, [`attach`], [`terminal`] and [`escape`] for the host's.
//! [`qemu`], [`launch`] and [`vmctl`] make up the processes around them.
//!
//! Nothing here reads, writes or runs anything: the functions take what was
//! found out and tell what to do.
pub mod attach;
pub mod command;
pub mod error;
pub mod escape;
pub mod frame;
pub mod kernel;
pub mod launch;
pub mod login;
pub mod path;
pub mod qemu;
pub mod reader;
pub mod server;
pub mod session;
pub mod status;
pub mod terminal;
pub mod text;
pub mod vmctl;

pub use error::{Error, ErrorKind};
pub use frame::{Frame, FrameType, HEADER_SIZE, MAX_FRAME_SIZE, MAX_PAYLOAD};
pub use reader::FrameReader;
