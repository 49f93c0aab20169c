//! Controller Area Network library.
//!
//! Frames and their validation, buses with subscriptions, ISO-TP, J1939, UDS, OBD-II, DBC
//! files, candump logs, end-to-end protection and the message layer of the relay. What waits
//! or does I/O is left to the caller: a state machine says what to do next and is told what
//! came of it.
use vstd::prelude::*;

pub mod adapt;
pub mod base64_serde;
pub mod bus;
pub mod cli;
pub mod crc;
pub mod dbc;
pub mod error;
pub mod frame;
pub mod hexcodec;
pub mod interop;
pub mod isotp;
pub mod j1939;
pub mod mock;
pub mod obdii;
pub mod recorder;
pub mod relay;
pub mod safety;
pub mod socketcan;
pub mod text;
pub mod textmap;
pub mod time;
pub mod uds;
pub mod virtual_bus;

pub use adapt::{from_message, to_message};
pub use bus::{Bus, Drainer, HealthProvider, LoaningBus, MetricsProvider};
pub use error::Error;
pub use frame::{
    max_data_len, validate_frame, Filter, Frame, LoanedFrame, CAN_FD_MAX_DATA_LEN,
    CAN_MAX_DATA_LEN, CAN_MAX_EXT_ID, CAN_MAX_STD_ID, CAN_XL_MAX_DATA_LEN, CAN_XL_MAX_PRIO_ID,
    CAN_XL_MIN_DATA_LEN,
};
pub use safety::{HmacSha256Auth, MessageAuthenticator};

verus! {

/// Version of the relay protocol that the message layer follows.
pub const SPEC_VERSION: &'static str = "1.1";

/// The same version, under the name the command line uses.
pub const RELAY_SPEC_VERSION: &'static str = "1.1";

} // verus!
