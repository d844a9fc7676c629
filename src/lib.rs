//! Device-side runtime for the Astarte IoT platform: the value types, the interface model and
//! catalog, endpoint paths, the payload envelope, the property store, topic parsing, the
//! reconnect handshake and the send/receive pipelines.
//!
//! The library performs no I/O. [`AstarteDeviceSdk::send`] validates a value and returns the
//! publish to perform (or nothing, when a property already holds the value);
//! [`AstarteDeviceSdk::sent`] records its delivery. Received publishes go to
//! [`AstarteDeviceSdk::handle_event`], or to [`AstarteDeviceSdk::purge_properties`] for the
//! purge directive that [`topic::ParsedTopic::try_parse`] recognises. On a connection
//! acknowledgement [`AstarteDeviceSdk::connack`] lists the subscriptions and publishes of the
//! handshake, and [`retry::Connection`] decides when to retry.

pub use crate::device::{Aggregation, AstarteDeviceDataEvent, AstarteDeviceSdk};
pub use crate::interface::Interface;
pub use crate::types::AstarteType;

pub mod connection;
pub mod device;
pub mod error;
pub mod interface;
pub mod interfaces;
pub mod options;
pub mod path;
pub mod payload;
pub mod properties;
pub mod retry;
pub mod store;
pub mod text;
pub mod topic;
pub mod types;
