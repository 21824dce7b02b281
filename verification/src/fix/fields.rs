//! Tag numbers and field values that the fault rules read. Not a full
//! dictionary: FIX 4.0 to 4.4 share these codes and the header of
//! BeginString, BodyLength and MsgType.
use vstd::prelude::*;

verus! {

/// The byte that ends every field.
pub const SOH: u8 = 0x01;

/// The byte between a tag and its value.
pub const EQUALS: u8 = 0x3D;

pub const TAG_BEGIN_STRING: u32 = 8;

pub const TAG_BODY_LENGTH: u32 = 9;

pub const TAG_CHECKSUM: u32 = 10;

pub const TAG_MSG_SEQ_NUM: u32 = 34;

pub const TAG_MSG_TYPE: u32 = 35;

pub const TAG_ORD_STATUS: u32 = 39;

pub const TAG_PRICE: u32 = 44;

pub const TAG_EXEC_TYPE: u32 = 150;

/// MsgType `D`.
pub const MSG_TYPE_NEW_ORDER_SINGLE: [u8; 1] = [0x44];

/// MsgType `8`.
pub const MSG_TYPE_EXECUTION_REPORT: [u8; 1] = [0x38];

/// MsgType `9`.
pub const MSG_TYPE_ORDER_CANCEL_REJECT: [u8; 1] = [0x39];

/// MsgType `3`, the reject of the session level.
pub const MSG_TYPE_REJECT: [u8; 1] = [0x33];

/// MsgType `j`.
pub const MSG_TYPE_BUSINESS_MESSAGE_REJECT: [u8; 1] = [0x6A];

/// OrdStatus `0`.
pub const ORD_STATUS_NEW: [u8; 1] = [0x30];

/// OrdStatus `1`.
pub const ORD_STATUS_PARTIALLY_FILLED: [u8; 1] = [0x31];

/// OrdStatus `2`.
pub const ORD_STATUS_FILLED: [u8; 1] = [0x32];

/// OrdStatus `8`.
pub const ORD_STATUS_REJECTED: [u8; 1] = [0x38];

/// ExecType `0`.
pub const EXEC_TYPE_NEW: [u8; 1] = [0x30];

/// ExecType `F`.
pub const EXEC_TYPE_TRADE: [u8; 1] = [0x46];

/// ExecType `8`.
pub const EXEC_TYPE_REJECTED: [u8; 1] = [0x38];

} // verus!
