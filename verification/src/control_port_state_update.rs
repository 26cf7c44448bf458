//! Status and state conversions for the control-port state-update extension.
//!
//! The host answers a state-update request with a raw status word, and the
//! request itself carries a raw state word.  These conversions translate
//! between the raw words of the wire protocol and typed values.

use vstd::prelude::*;

verus! {

/// Raw status word: the state update succeeded.
pub const CONTROL_PORT_STATE_UPDATE_SUCCESS: u32 = 0;

/// Raw status word: the state update failed for an unknown reason.
pub const CONTROL_PORT_STATE_UPDATE_ERR_UNKNOWN: u32 = 1;

/// Raw status word: the state update named an invalid port index.
pub const CONTROL_PORT_STATE_UPDATE_ERR_INVALID_INDEX: u32 = 2;

/// Raw state word: no special state.
pub const CONTROL_PORT_STATE_NONE: u32 = 0;

/// Raw state word: the port is inactive.
pub const CONTROL_PORT_STATE_INACTIVE: u32 = 1;

/// Raw state word: updates to the port value are blocked.
pub const CONTROL_PORT_STATE_BLOCKED: u32 = 2;

/// An error reported by the host for a control-port state update.
#[derive(Clone, Copy, Debug, PartialEq, Eq, Structural)]
pub enum ControlPortStateUpdateErr {
    /// Unknown error.
    Unknown,
    /// Failed due to invalid port index.
    InvalidIndex,
}

impl ControlPortStateUpdateErr {
    /// Convert a raw status word to a result or possible error value.
    ///
    /// Every unrecognised status word is treated as an unknown error.
    pub fn from(value: u32) -> (r: Result<(), ControlPortStateUpdateErr>)
        ensures
            r == (if value == CONTROL_PORT_STATE_UPDATE_SUCCESS {
                Result::<(), ControlPortStateUpdateErr>::Ok(())
            } else if value == CONTROL_PORT_STATE_UPDATE_ERR_INVALID_INDEX {
                Result::<(), ControlPortStateUpdateErr>::Err(
                    ControlPortStateUpdateErr::InvalidIndex,
                )
            } else {
                Result::<(), ControlPortStateUpdateErr>::Err(ControlPortStateUpdateErr::Unknown)
            }),
    {
        if value == CONTROL_PORT_STATE_UPDATE_SUCCESS {
            Ok(())
        } else if value == CONTROL_PORT_STATE_UPDATE_ERR_INVALID_INDEX {
            Err(ControlPortStateUpdateErr::InvalidIndex)
        } else {
            Err(ControlPortStateUpdateErr::Unknown)
        }
    }

    /// Convert a result to a raw status word.
    pub fn into(result: Result<(), ControlPortStateUpdateErr>) -> (r: u32)
        ensures
            r == (match result {
                Result::<(), ControlPortStateUpdateErr>::Ok(
                    (),
                ) => CONTROL_PORT_STATE_UPDATE_SUCCESS,
                Result::<(), ControlPortStateUpdateErr>::Err(
                    ControlPortStateUpdateErr::InvalidIndex,
                ) => CONTROL_PORT_STATE_UPDATE_ERR_INVALID_INDEX,
                Result::<(), ControlPortStateUpdateErr>::Err(
                    ControlPortStateUpdateErr::Unknown,
                ) => CONTROL_PORT_STATE_UPDATE_ERR_UNKNOWN,
            }),
    {
        match result {
            Ok(()) => CONTROL_PORT_STATE_UPDATE_SUCCESS,
            Err(ControlPortStateUpdateErr::InvalidIndex) => {
                CONTROL_PORT_STATE_UPDATE_ERR_INVALID_INDEX
            },
            Err(ControlPortStateUpdateErr::Unknown) => CONTROL_PORT_STATE_UPDATE_ERR_UNKNOWN,
        }
    }
}

/// The state a control port can be put in.
#[derive(Clone, Copy, Debug, PartialEq, Eq, Structural)]
pub enum ControlPortState {
    /// No special state / remove any previously set states.
    Normal,
    /// Inactive state (updates to the port value are inaudible / ineffective).
    Inactive,
    /// Blocked state (updates to the port value are ignored by the plugin and
    /// should be blocked and ignored by the host).
    Blocked,
}

impl ControlPortState {
    /// Convert a raw state word to a `ControlPortState`.
    ///
    /// Every unrecognised state word is treated as the plain state.
    pub fn from(value: u32) -> (r: ControlPortState)
        ensures
            r == (if value == CONTROL_PORT_STATE_BLOCKED {
                ControlPortState::Blocked
            } else if value == CONTROL_PORT_STATE_INACTIVE {
                ControlPortState::Inactive
            } else {
                ControlPortState::Normal
            }),
    {
        if value == CONTROL_PORT_STATE_BLOCKED {
            ControlPortState::Blocked
        } else if value == CONTROL_PORT_STATE_INACTIVE {
            ControlPortState::Inactive
        } else {
            ControlPortState::Normal
        }
    }

    /// Convert a `ControlPortState` to a raw state word.
    pub fn into(state: ControlPortState) -> (r: u32)
        ensures
            r == (match state {
                ControlPortState::Normal => CONTROL_PORT_STATE_NONE,
                ControlPortState::Inactive => CONTROL_PORT_STATE_INACTIVE,
                ControlPortState::Blocked => CONTROL_PORT_STATE_BLOCKED,
            }),
    {
        match state {
            ControlPortState::Normal => CONTROL_PORT_STATE_NONE,
            ControlPortState::Inactive => CONTROL_PORT_STATE_INACTIVE,
            ControlPortState::Blocked => CONTROL_PORT_STATE_BLOCKED,
        }
    }
}

} // verus!
