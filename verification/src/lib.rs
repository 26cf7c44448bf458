//! Property state persistence for audio-processing components.
//!
//! A component saves its configuration as a set of typed key/value
//! properties, using a compact self-describing binary encoding, and restores
//! them later.  The pieces are:
//!
//! * [`codec`] — the binary wire format for a typed value: a fixed header
//!   (type tag, byte length) followed by a type-specific payload, with
//!   homogeneous vectors as the composite form.
//! * [`backend`] — the interface to the host-provided storage backend that
//!   physically persists bytes, together with an in-memory reference
//!   implementation.
//! * [`access`] — the draft buffer, commit protocol and retrieval protocol
//!   built on top of the codec and the backend interface.
//! * [`ident`] — an identifier cache mapping human-readable identifiers to
//!   small stable integers used as property keys and type tags.
//! * [`keyed`] — the association-vector representation both the draft buffer
//!   and the in-memory backend are built on, with its mathematical reading.
//! * [`control_port_state_update`], [`control_input_port_change_request`] —
//!   status-code conversions for the control-port extension surfaces.
//! * [`mod_license`] — the placeholder linker hook of the licensing surface.

pub mod access;
pub mod backend;
pub mod codec;
pub mod control_input_port_change_request;
pub mod control_port_state_update;
pub mod ident;
pub mod keyed;
pub mod mod_license;
