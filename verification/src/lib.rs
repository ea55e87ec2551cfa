//! Sending and receiving data link layer packets through the WinPcap driver.
//!
//! The modules hold everything that is decided or computed around the driver:
//! the order of the calls that set a channel up, the layout of a capture buffer,
//! the chunks of a write buffer, and the list of supported interfaces. The calls
//! themselves are made by the program that uses this library: it performs the
//! action that a state machine asks for, and tells the machine what came of it.

pub mod bpf;
pub mod channel;
pub mod config;
pub mod interfaces;
pub mod names;
pub mod net;
pub mod query;
pub mod receiver;
pub mod sender;
pub mod text;

pub use channel::channel;
pub use config::Config;
pub use interfaces::interfaces;
