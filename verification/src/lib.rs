//! Streams that are objects in a `CANopen` node's dictionary. One object, an
//! index and a subindex, is one Stream: reading it is an SDO upload, writing
//! it an SDO download, and a Stream longer than four bytes travels segmented,
//! seven bytes to a frame, the way `CiA 301` says a domain does.
//!
//! `CANopen` is the machine builder's CAN: drives, encoders, valve islands,
//! every one a node with an object dictionary. The identifier does most of
//! the work, a function code in the top four bits and the node in the low
//! seven, so NMT is COB-ID 0, a node's SDO server answers under `0x580` plus
//! its id to requests under `0x600` plus its id, and its first PDOs sit at
//! `0x180` and `0x200`.
//!
//! [`sdo`] is the SDO protocol, [`node`] a node on an in-process bus,
//! [`transfer`] a master's transfer on any bus, [`master`] a master that
//! speaks to a node in the same process, and [`loopback`] what the two come
//! to together: what is written is what is read back.
//!
//! The origin URI names the bus, the node and the object:
//! `canopen://<bus>/<node>/0x2000/0`. A target is the same, or a bare
//! `<node>/0x<index>/<sub>`, or nothing for the configured object.

pub mod error;
pub mod frame;
pub mod loopback;
pub mod master;
pub mod node;
pub mod sdo;
pub mod target;
pub mod text;
pub mod transfer;

pub use error::Error;
pub use frame::Frame;
pub use master::{Arrived, CanOpenTransport, STREAM_OBJECT};
pub use node::{Command, Node, State};
pub use sdo::Sdo;
pub use transfer::{Download, Heard, Step, Upload};
