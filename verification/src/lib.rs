//! Starfire: a client for hosts that stream a desktop over the GameStream protocol.
//!
//! The modules follow a connection. A client finds a host ([`discovery`]), pairs with it
//! ([`pairing`], [`https`]), asks what it offers ([`serverinfo`], [`xml`]), launches an app
//! ([`launch`]) and sets up the streams ([`rtsp`], [`control`], [`session`]). Video comes as
//! datagrams that [`video`] turns into access units, restoring what was lost; [`decode`] and
//! [`render`] hold what decoders and displays have in common. [`audio`] and [`input`] are the other
//! streams, [`controls`] says what the window's keys and buttons do, and [`client`] ties the parts
//! together.
//!
//! [`slicer`] takes captures of such connections apart, [`testkit`] compares bytes with captured
//! ones, and [`bench`] counts what a running stream does.
//!
//! Nothing here reads a socket, a file or a clock: functions take what was received and how long
//! ago something was, and say what to send or to do.

pub mod audio;
pub mod auth;
pub mod bench;
pub mod bytes;
pub mod client;
pub mod control;
pub mod controls;
pub mod decode;
pub mod devices;
pub mod discovery;
pub mod error;
pub mod hex;
pub mod https;
pub mod input;
pub mod launch;
pub mod pairing;
pub mod query;
pub mod render;
pub mod rtsp;
pub mod serverinfo;
pub mod session;
pub mod slicer;
pub mod testkit;
pub mod text;
pub mod video;
pub mod wire;
pub mod xml;

pub use error::Error;
