//! Status conversions for the control-input-port change-request extension.
//!
//! The host answers a change request with a raw status word; these
//! conversions translate between that word and a typed result.

use vstd::prelude::*;

verus! {

/// Raw status word: the change request succeeded.
pub const CONTROL_INPUT_PORT_CHANGE_SUCCESS: u32 = 0;

/// Raw status word: the change request failed for an unknown reason.
pub const CONTROL_INPUT_PORT_CHANGE_ERR_UNKNOWN: u32 = 1;

/// Raw status word: the change request named an invalid port index.
pub const CONTROL_INPUT_PORT_CHANGE_ERR_INVALID_INDEX: u32 = 2;

/// An error reported by the host for a control-input-port change request.
#[derive(Clone, Copy, Debug, PartialEq, Eq, Structural)]
pub enum ControlInputPortChangeRequestErr {
    /// Unknown error.
    Unknown,
    /// Failed due to invalid port index.
    InvalidIndex,
}

impl ControlInputPortChangeRequestErr {
    /// Convert a raw status word to a result or possible error value.
    ///
    /// Every unrecognised status word is treated as an unknown error.
    pub fn from(value: u32) -> (r: Result<(), ControlInputPortChangeRequestErr>)
        ensures
            r == (if value == CONTROL_INPUT_PORT_CHANGE_SUCCESS {
                Result::<(), ControlInputPortChangeRequestErr>::Ok(())
            } else if value == CONTROL_INPUT_PORT_CHANGE_ERR_INVALID_INDEX {
                Result::<(), ControlInputPortChangeRequestErr>::Err(
                    ControlInputPortChangeRequestErr::InvalidIndex,
                )
            } else {
                Result::<(), ControlInputPortChangeRequestErr>::Err(
                    ControlInputPortChangeRequestErr::Unknown,
                )
            }),
    {
        if value == CONTROL_INPUT_PORT_CHANGE_SUCCESS {
            Ok(())
        } else if value == CONTROL_INPUT_PORT_CHANGE_ERR_INVALID_INDEX {
            Err(ControlInputPortChangeRequestErr::InvalidIndex)
        } else {
            Err(ControlInputPortChangeRequestErr::Unknown)
        }
    }

    /// Convert a result to a raw status word.
    pub fn into(result: Result<(), ControlInputPortChangeRequestErr>) -> (r: u32)
        ensures
            r == (match result {
                Result::<(), ControlInputPortChangeRequestErr>::Ok(
                    (),
                ) => CONTROL_INPUT_PORT_CHANGE_SUCCESS,
                Result::<(), ControlInputPortChangeRequestErr>::Err(
                    ControlInputPortChangeRequestErr::InvalidIndex,
                ) => CONTROL_INPUT_PORT_CHANGE_ERR_INVALID_INDEX,
                Result::<(), ControlInputPortChangeRequestErr>::Err(
                    ControlInputPortChangeRequestErr::Unknown,
                ) => CONTROL_INPUT_PORT_CHANGE_ERR_UNKNOWN,
            }),
    {
        match result {
            Ok(()) => CONTROL_INPUT_PORT_CHANGE_SUCCESS,
            Err(ControlInputPortChangeRequestErr::InvalidIndex) => {
                CONTROL_INPUT_PORT_CHANGE_ERR_INVALID_INDEX
            },
            Err(ControlInputPortChangeRequestErr::Unknown) => {
                CONTROL_INPUT_PORT_CHANGE_ERR_UNKNOWN
            },
        }
    }
}

} // verus!
