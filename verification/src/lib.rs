//! Streams that are parameters of an IO-Link device. One parameter — an
//! index and a subindex — is one Stream: reading it is an ISDU read,
//! writing it an ISDU write, and a Stream travels as one ISDU, which is
//! why [`DATA_MAX`] is the ceiling.
//!
//! IO-Link is the last metre of the plant: one sensor or actuator on one
//! three-wire cable to one master port, a 24 volt signal driven at up to
//! 230 kilobaud. What is here is the M-sequence — the one shape everything
//! on the line has ([`m_sequence`]) — the indexed service data unit and its
//! flow control ([`isdu`], [`transfer`]), a master that speaks both and
//! cycles process data ([`transport`]), and [`Device`], a device at the far
//! end of an in-process line for tests and the loopback. Every M-sequence is
//! a fixed-length frame on its line, both ends knowing from the type how long
//! each message is.
//!
//! The origin URI names the port and the parameter:
//! `iolink://<port>/0x0100/0`. A target is the same, or a bare
//! `0x<index>/<sub>`, or nothing for the configured parameter ([`target`]).
//!
//! Each function states what it does over the views of its arguments; the
//! proof functions whose names begin with `law_` state what holds of them
//! together.

pub mod bytes;
pub mod device;
pub mod error;
pub mod flow;
pub mod isdu;
pub mod loopback;
pub mod m_sequence;
pub mod target;
pub mod text;
pub mod transfer;
pub mod transport;
pub mod wire;

pub use device::Device;
pub use error::Error;
pub use isdu::{Isdu, DATA_MAX};
pub use m_sequence::{Channel, DeviceMessage, Kind, MasterMessage};
pub use transfer::{Step, Transfer};
pub use transport::{Arrived, IoLinkTransport, STREAM_PARAMETER};
