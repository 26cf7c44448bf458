use lv2_state::control_input_port_change_request::{
    ControlInputPortChangeRequestErr, CONTROL_INPUT_PORT_CHANGE_ERR_INVALID_INDEX,
    CONTROL_INPUT_PORT_CHANGE_ERR_UNKNOWN, CONTROL_INPUT_PORT_CHANGE_SUCCESS,
};
use lv2_state::control_port_state_update::{
    ControlPortState, ControlPortStateUpdateErr, CONTROL_PORT_STATE_BLOCKED,
    CONTROL_PORT_STATE_INACTIVE, CONTROL_PORT_STATE_NONE,
    CONTROL_PORT_STATE_UPDATE_ERR_INVALID_INDEX, CONTROL_PORT_STATE_UPDATE_ERR_UNKNOWN,
    CONTROL_PORT_STATE_UPDATE_SUCCESS,
};

#[test]
fn test_control_port_state_err_conversion() {
    assert_eq!(
        Ok(()),
        ControlPortStateUpdateErr::from(CONTROL_PORT_STATE_UPDATE_SUCCESS)
    );
    assert_eq!(
        Err(ControlPortStateUpdateErr::InvalidIndex),
        ControlPortStateUpdateErr::from(CONTROL_PORT_STATE_UPDATE_ERR_INVALID_INDEX),
    );
    assert_eq!(
        Err(ControlPortStateUpdateErr::Unknown),
        ControlPortStateUpdateErr::from(CONTROL_PORT_STATE_UPDATE_ERR_UNKNOWN),
    );

    assert_eq!(
        ControlPortStateUpdateErr::into(Ok(())),
        CONTROL_PORT_STATE_UPDATE_SUCCESS
    );
    assert_eq!(
        ControlPortStateUpdateErr::into(Err(ControlPortStateUpdateErr::InvalidIndex)),
        CONTROL_PORT_STATE_UPDATE_ERR_INVALID_INDEX
    );
    assert_eq!(
        ControlPortStateUpdateErr::into(Err(ControlPortStateUpdateErr::Unknown)),
        CONTROL_PORT_STATE_UPDATE_ERR_UNKNOWN
    );
}

#[test]
fn lib_test_control_port_state_err_conversion() {
    assert_eq!(
        Ok(()),
        ControlInputPortChangeRequestErr::from(CONTROL_INPUT_PORT_CHANGE_SUCCESS)
    );
    assert_eq!(
        Err(ControlInputPortChangeRequestErr::InvalidIndex),
        ControlInputPortChangeRequestErr::from(CONTROL_INPUT_PORT_CHANGE_ERR_INVALID_INDEX),
    );
    assert_eq!(
        Err(ControlInputPortChangeRequestErr::Unknown),
        ControlInputPortChangeRequestErr::from(CONTROL_INPUT_PORT_CHANGE_ERR_UNKNOWN),
    );

    assert_eq!(
        ControlInputPortChangeRequestErr::into(Ok(())),
        CONTROL_INPUT_PORT_CHANGE_SUCCESS
    );
    assert_eq!(
        ControlInputPortChangeRequestErr::into(Err(ControlInputPortChangeRequestErr::InvalidIndex)),
        CONTROL_INPUT_PORT_CHANGE_ERR_INVALID_INDEX
    );
    assert_eq!(
        ControlInputPortChangeRequestErr::into(Err(ControlInputPortChangeRequestErr::Unknown)),
        CONTROL_INPUT_PORT_CHANGE_ERR_UNKNOWN
    );
}

#[test]
fn test_control_port_state_conversion() {
    assert_eq!(
        ControlPortState::from(CONTROL_PORT_STATE_NONE),
        ControlPortState::Normal
    );
    assert_eq!(
        ControlPortState::from(CONTROL_PORT_STATE_INACTIVE),
        ControlPortState::Inactive
    );
    assert_eq!(
        ControlPortState::from(CONTROL_PORT_STATE_BLOCKED),
        ControlPortState::Blocked
    );

    assert_eq!(
        ControlPortState::into(ControlPortState::Normal),
        CONTROL_PORT_STATE_NONE
    );
    assert_eq!(
        ControlPortState::into(ControlPortState::Inactive),
        CONTROL_PORT_STATE_INACTIVE
    );
    assert_eq!(
        ControlPortState::into(ControlPortState::Blocked),
        CONTROL_PORT_STATE_BLOCKED
    );
}

#[test]
fn unrecognised_words_fall_back() {
    assert_eq!(
        Err(ControlPortStateUpdateErr::Unknown),
        ControlPortStateUpdateErr::from(99)
    );
    assert_eq!(
        Err(ControlInputPortChangeRequestErr::Unknown),
        ControlInputPortChangeRequestErr::from(99)
    );
    assert_eq!(ControlPortState::from(99), ControlPortState::Normal);
}
