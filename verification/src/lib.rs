//! Relays UDP broadcasts between the networks of one machine, forging the
//! sender address.
//!
//! A datagram that comes in on one interface goes out through the others, as
//! though its original sender had sent it there. The library holds every
//! decision: what the command line means ([`relay_port`], [`ifname`],
//! [`spoof`], [`mark`]), which interfaces are served ([`discovery`]), how
//! sockets are set up ([`setup`]), what becomes of a datagram ([`receive`]),
//! and which packets are sent for it ([`forward`], [`packet`], [`relay`]).
//! [`laws`] states what holds of all this together. Talking to the kernel is
//! left to the caller.

pub mod addr;
pub mod discovery;
pub mod dotted;
pub mod forward;
pub mod ifname;
pub mod interface;
pub mod laws;
pub mod mark;
pub mod packet;
mod platform;
pub mod receive;
pub mod relay;
pub mod relay_port;
pub mod setup;
pub mod spoof;
pub mod text;
