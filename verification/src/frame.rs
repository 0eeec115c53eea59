//! Per-frame decisions of the render loop.
//!
//! The loop polls the window system for input events and the driver for error
//! codes; both arrive as plain values, and the decisions on them are made
//! here. Only the parts of an event that the decisions read are modelled: a
//! key is the escape key or some other key.

use vstd::prelude::*;

verus! {

/// The key of a key event, as far as the loop's decisions read it.
#[derive(Clone, Copy, Debug, PartialEq, Eq, Structural)]
pub enum KeyCode {
    Escape,
    Other,
}

/// What happened to the key.
#[derive(Clone, Copy, Debug, PartialEq, Eq, Structural)]
pub enum KeyAction {
    Press,
    Release,
    Repeat,
}

/// One polled window event.
#[derive(Clone, Copy, Debug, PartialEq, Eq, Structural)]
pub enum InputEvent {
    Key(KeyCode, KeyAction),
    Other,
}

/// The one event that asks the loop to close the window.
pub open spec fn spec_close_requested(e: InputEvent) -> bool {
    e == InputEvent::Key(KeyCode::Escape, KeyAction::Press)
}

/// Decide whether a polled event asks the loop to close the window: exactly a
/// press of the escape key does, and nothing else.
pub fn close_requested(e: &InputEvent) -> (r: bool)
    ensures
        r == spec_close_requested(*e),
{
    match e {
        InputEvent::Key(KeyCode::Escape, KeyAction::Press) => true,
        _ => false,
    }
}

/// Decide whether a polled driver error code reports an error: the driver
/// answers zero for "no error" and a nonzero code otherwise.
pub fn error_detected(code: u32) -> (r: bool)
    ensures
        r == (code != 0),
{
    code != 0
}

} // verus!
