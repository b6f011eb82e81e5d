//! The input that each macro step sends.
use vstd::prelude::*;
use crate::text::{chars_of, lower_chars, lower_seq, eq_lit, string_lit, push_lit};
use crate::types::MacroStep;

verus! {

/// Why a step could not be sent.
#[derive(Clone, Debug, PartialEq, Eq)]
pub enum ExecError {
    /// Input injection is not available on this platform.
    Unsupported,
    /// The system refused the input.
    SendInputFailed,
    /// The step names a mouse button that does not exist.
    UnknownButton(String),
}

/// The message of a failure.
pub open spec fn exec_error_text(e: ExecError) -> Seq<char> {
    match e {
        ExecError::Unsupported => "unsupported platform"@,
        ExecError::SendInputFailed => "send_input failed"@,
        ExecError::UnknownButton(b) => "unknown button "@ + b@,
    }
}

impl ExecError {
    /// The message of the failure.
    pub fn message(&self) -> (r: String)
        ensures
            r@ == exec_error_text(*self),
    {
        match self {
            ExecError::Unsupported => string_lit("unsupported platform"),
            ExecError::SendInputFailed => string_lit("send_input failed"),
            ExecError::UnknownButton(b) => {
                let mut m = string_lit("unknown button ");
                push_lit(&mut m, b.as_str());
                m
            },
        }
    }
}

/// A mouse-button transition (`MOUSEEVENTF_*`).
#[derive(Clone, Copy, Debug, PartialEq, Eq, Structural)]
pub enum MouseButtonEvent {
    LeftDown,
    LeftUp,
    RightDown,
    RightUp,
    MiddleDown,
    MiddleUp,
    XDown,
    XUp,
}

/// The input a step sends.
#[derive(Clone, Copy, Debug, PartialEq, Eq, Structural)]
pub enum InputAction {
    /// Nothing is sent (a delay).
    Nothing,
    /// A key transition, sent by scan code.
    Key { vk: u32, key_up: bool },
    /// A mouse-button transition with its `mouseData` (the X button number).
    MouseButton { event: MouseButtonEvent, data: u32 },
    /// A relative mouse movement.
    MouseMove { dx: i32, dy: i32 },
}

/// The mouse-button transition for a button name (ASCII case ignored):
/// `left`/`lmb`, `right`/`rmb`, `middle`/`mmb`, `x1`, `x2`.
pub open spec fn button_event(button: Seq<char>, down: bool) -> Option<(MouseButtonEvent, u32)> {
    let b = lower_seq(button);
    if b == "left"@ || b == "lmb"@ {
        Some((if down { MouseButtonEvent::LeftDown } else { MouseButtonEvent::LeftUp }, 0u32))
    } else if b == "right"@ || b == "rmb"@ {
        Some((if down { MouseButtonEvent::RightDown } else { MouseButtonEvent::RightUp }, 0u32))
    } else if b == "middle"@ || b == "mmb"@ {
        Some((if down { MouseButtonEvent::MiddleDown } else { MouseButtonEvent::MiddleUp }, 0u32))
    } else if b == "x1"@ {
        Some((if down { MouseButtonEvent::XDown } else { MouseButtonEvent::XUp }, 1u32))
    } else if b == "x2"@ {
        Some((if down { MouseButtonEvent::XDown } else { MouseButtonEvent::XUp }, 2u32))
    } else {
        None
    }
}

fn mouse_button(button: &String, down: bool) -> (r: Result<(MouseButtonEvent, u32), ExecError>)
    ensures
        match button_event(button@, down) {
            Some(e) => r == Ok::<(MouseButtonEvent, u32), ExecError>(e),
            None => r matches Err(ExecError::UnknownButton(b)) && b == *button,
        },
{
    let b = lower_chars(&chars_of(button.as_str()));
    if eq_lit(&b, "left") || eq_lit(&b, "lmb") {
        Ok((if down { MouseButtonEvent::LeftDown } else { MouseButtonEvent::LeftUp }, 0))
    } else if eq_lit(&b, "right") || eq_lit(&b, "rmb") {
        Ok((if down { MouseButtonEvent::RightDown } else { MouseButtonEvent::RightUp }, 0))
    } else if eq_lit(&b, "middle") || eq_lit(&b, "mmb") {
        Ok((if down { MouseButtonEvent::MiddleDown } else { MouseButtonEvent::MiddleUp }, 0))
    } else if eq_lit(&b, "x1") {
        Ok((if down { MouseButtonEvent::XDown } else { MouseButtonEvent::XUp }, 1))
    } else if eq_lit(&b, "x2") {
        Ok((if down { MouseButtonEvent::XDown } else { MouseButtonEvent::XUp }, 2))
    } else {
        Err(ExecError::UnknownButton(button.clone()))
    }
}

fn mouse_down(button: &String) -> (r: Result<(MouseButtonEvent, u32), ExecError>)
    ensures
        match button_event(button@, true) {
            Some(e) => r == Ok::<(MouseButtonEvent, u32), ExecError>(e),
            None => r matches Err(ExecError::UnknownButton(b)) && b == *button,
        },
{
    mouse_button(button, true)
}

fn mouse_up(button: &String) -> (r: Result<(MouseButtonEvent, u32), ExecError>)
    ensures
        match button_event(button@, false) {
            Some(e) => r == Ok::<(MouseButtonEvent, u32), ExecError>(e),
            None => r matches Err(ExecError::UnknownButton(b)) && b == *button,
        },
{
    mouse_button(button, false)
}

/// The input a step sends: keys by virtual-key code, mouse buttons by name,
/// relative moves as given; a delay sends nothing.
pub open spec fn step_input(step: MacroStep) -> Result<InputAction, ExecError> {
    match step {
        MacroStep::MouseDown { button } => match button_event(button@, true) {
            Some((event, data)) => Ok(InputAction::MouseButton { event, data }),
            None => Err(ExecError::UnknownButton(button)),
        },
        MacroStep::MouseUp { button } => match button_event(button@, false) {
            Some((event, data)) => Ok(InputAction::MouseButton { event, data }),
            None => Err(ExecError::UnknownButton(button)),
        },
        MacroStep::KeyDown { vk } => Ok(InputAction::Key { vk, key_up: false }),
        MacroStep::KeyUp { vk } => Ok(InputAction::Key { vk, key_up: true }),
        MacroStep::MouseMoveRel { dx, dy } => Ok(InputAction::MouseMove { dx, dy }),
        MacroStep::Delay { .. } => Ok(InputAction::Nothing),
    }
}

/// Whether `e` presses a button.
pub open spec fn is_press(e: MouseButtonEvent) -> bool {
    e is LeftDown || e is RightDown || e is MiddleDown || e is XDown
}

/// The release of the button that press `e` presses.
pub open spec fn release_of(e: MouseButtonEvent) -> MouseButtonEvent {
    match e {
        MouseButtonEvent::LeftDown => MouseButtonEvent::LeftUp,
        MouseButtonEvent::RightDown => MouseButtonEvent::RightUp,
        MouseButtonEvent::MiddleDown => MouseButtonEvent::MiddleUp,
        _ => MouseButtonEvent::XUp,
    }
}

/// A `MouseUp` step releases exactly the button that the `MouseDown` step of
/// the same name presses (with the same X-button number), a `MouseDown` step
/// only ever presses, and the two accept the same names. The names, in any
/// ASCII case: `left`/`lmb` is the left button, `right`/`rmb` the right,
/// `middle`/`mmb` the middle, `x1` and `x2` the X buttons 1 and 2.
pub proof fn lemma_release_matches_press(b: String)
    ensures
        step_input(MacroStep::MouseDown { button: b }) is Ok <==> step_input(MacroStep::MouseUp { button: b }) is Ok,
        step_input(MacroStep::MouseDown { button: b }) matches Ok(InputAction::MouseButton { event, data })
            ==> is_press(event) && step_input(MacroStep::MouseUp { button: b })
                == Ok::<InputAction, ExecError>(InputAction::MouseButton { event: release_of(event), data }),
        step_input(MacroStep::MouseDown { button: b }) is Ok ==> (step_input(
            MacroStep::MouseDown { button: b },
        )->Ok_0 is MouseButton),
        lower_seq(b@) == "left"@ || lower_seq(b@) == "lmb"@ ==> step_input(MacroStep::MouseDown { button: b })
            == Ok::<InputAction, ExecError>(InputAction::MouseButton { event: MouseButtonEvent::LeftDown, data: 0 })
            && step_input(MacroStep::MouseUp { button: b })
            == Ok::<InputAction, ExecError>(InputAction::MouseButton { event: MouseButtonEvent::LeftUp, data: 0 }),
        lower_seq(b@) == "right"@ || lower_seq(b@) == "rmb"@ ==> step_input(MacroStep::MouseDown { button: b })
            == Ok::<InputAction, ExecError>(InputAction::MouseButton { event: MouseButtonEvent::RightDown, data: 0 })
            && step_input(MacroStep::MouseUp { button: b })
            == Ok::<InputAction, ExecError>(InputAction::MouseButton { event: MouseButtonEvent::RightUp, data: 0 }),
        lower_seq(b@) == "middle"@ || lower_seq(b@) == "mmb"@ ==> step_input(MacroStep::MouseDown { button: b })
            == Ok::<InputAction, ExecError>(InputAction::MouseButton { event: MouseButtonEvent::MiddleDown, data: 0 })
            && step_input(MacroStep::MouseUp { button: b })
            == Ok::<InputAction, ExecError>(InputAction::MouseButton { event: MouseButtonEvent::MiddleUp, data: 0 }),
        lower_seq(b@) == "x1"@ ==> step_input(MacroStep::MouseDown { button: b })
            == Ok::<InputAction, ExecError>(InputAction::MouseButton { event: MouseButtonEvent::XDown, data: 1 })
            && step_input(MacroStep::MouseUp { button: b })
            == Ok::<InputAction, ExecError>(InputAction::MouseButton { event: MouseButtonEvent::XUp, data: 1 }),
        lower_seq(b@) == "x2"@ ==> step_input(MacroStep::MouseDown { button: b })
            == Ok::<InputAction, ExecError>(InputAction::MouseButton { event: MouseButtonEvent::XDown, data: 2 })
            && step_input(MacroStep::MouseUp { button: b })
            == Ok::<InputAction, ExecError>(InputAction::MouseButton { event: MouseButtonEvent::XUp, data: 2 }),
{
    reveal_strlit("left");
    reveal_strlit("lmb");
    reveal_strlit("right");
    reveal_strlit("rmb");
    reveal_strlit("middle");
    reveal_strlit("mmb");
    reveal_strlit("x1");
    reveal_strlit("x2");
    let l = lower_seq(b@);
    if l == "right"@ || l == "rmb"@ {
        assert(l[0] == 'r');
        assert(l != "left"@ && l != "lmb"@);
    }
    if l == "middle"@ || l == "mmb"@ {
        assert(l[0] == 'm');
        assert(l != "left"@ && l != "lmb"@ && l != "right"@ && l != "rmb"@);
    }
    if l == "x1"@ || l == "x2"@ {
        assert(l[0] == 'x');
        assert(l != "left"@ && l != "lmb"@ && l != "right"@ && l != "rmb"@ && l != "middle"@ && l != "mmb"@);
        assert("x1"@ != "x2"@) by {
            assert("x1"@[1] != "x2"@[1]);
        }
    }
}

/// The input to send for one macro step.
pub fn execute_step(step: &MacroStep) -> (r: Result<InputAction, ExecError>)
    ensures
        r == step_input(*step),
{
    match step {
        MacroStep::MouseDown { button } => {
            let (event, data) = mouse_down(button)?;
            Ok(InputAction::MouseButton { event, data })
        },
        MacroStep::MouseUp { button } => {
            let (event, data) = mouse_up(button)?;
            Ok(InputAction::MouseButton { event, data })
        },
        MacroStep::KeyDown { vk } => Ok(InputAction::Key { vk: *vk, key_up: false }),
        MacroStep::KeyUp { vk } => Ok(InputAction::Key { vk: *vk, key_up: true }),
        MacroStep::MouseMoveRel { dx, dy } => Ok(InputAction::MouseMove { dx: *dx, dy: *dy }),
        MacroStep::Delay { .. } => Ok(InputAction::Nothing),
    }
}

} // verus!
