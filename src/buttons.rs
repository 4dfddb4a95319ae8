//! Hardware button functions and their wiring.
use vstd::prelude::*;

verus! {

/// What a hardware button does. Each function has a numeric id, 1 to 5.
#[derive(Clone, Copy, Debug, PartialEq, Eq, Structural)]
pub enum ButtonFunction {
    LoadImage,
    NextAlgorithm,
    ThresholdUp,
    ThresholdDown,
    SaveImage,
}

/// The function with numeric id `id`, if any.
pub open spec fn function_of_id(id: int) -> Option<ButtonFunction> {
    if id == 1 {
        Some(ButtonFunction::LoadImage)
    } else if id == 2 {
        Some(ButtonFunction::NextAlgorithm)
    } else if id == 3 {
        Some(ButtonFunction::ThresholdUp)
    } else if id == 4 {
        Some(ButtonFunction::ThresholdDown)
    } else if id == 5 {
        Some(ButtonFunction::SaveImage)
    } else {
        None
    }
}

/// Numeric id of a function.
pub open spec fn id_of_function(f: ButtonFunction) -> int {
    match f {
        ButtonFunction::LoadImage => 1,
        ButtonFunction::NextAlgorithm => 2,
        ButtonFunction::ThresholdUp => 3,
        ButtonFunction::ThresholdDown => 4,
        ButtonFunction::SaveImage => 5,
    }
}

impl ButtonFunction {
    /// The function with numeric id `id`; `None` outside 1 to 5.
    pub fn from_id(id: u8) -> (r: Option<ButtonFunction>)
        ensures
            r == function_of_id(id as int),
    {
        match id {
            1 => Some(ButtonFunction::LoadImage),
            2 => Some(ButtonFunction::NextAlgorithm),
            3 => Some(ButtonFunction::ThresholdUp),
            4 => Some(ButtonFunction::ThresholdDown),
            5 => Some(ButtonFunction::SaveImage),
            _ => None,
        }
    }

    /// Numeric id of this function (inverse of `from_id`).
    pub fn id(&self) -> (r: u8)
        ensures
            r as int == id_of_function(*self),
            function_of_id(r as int) == Some(*self),
    {
        match self {
            ButtonFunction::LoadImage => 1,
            ButtonFunction::NextAlgorithm => 2,
            ButtonFunction::ThresholdUp => 3,
            ButtonFunction::ThresholdDown => 4,
            ButtonFunction::SaveImage => 5,
        }
    }

    /// Human-readable description.
    pub fn description(&self) -> (r: &'static str)
        ensures
            *self == ButtonFunction::LoadImage ==> r@ == "Load new image"@,
            *self == ButtonFunction::NextAlgorithm ==> r@ == "Next algorithm"@,
            *self == ButtonFunction::ThresholdUp ==> r@ == "Increase threshold"@,
            *self == ButtonFunction::ThresholdDown ==> r@ == "Decrease threshold"@,
            *self == ButtonFunction::SaveImage ==> r@ == "Save image"@,
    {
        match self {
            ButtonFunction::LoadImage => "Load new image",
            ButtonFunction::NextAlgorithm => "Next algorithm",
            ButtonFunction::ThresholdUp => "Increase threshold",
            ButtonFunction::ThresholdDown => "Decrease threshold",
            ButtonFunction::SaveImage => "Save image",
        }
    }
}

/// A button: the GPIO pin it is wired to and what it does.
#[derive(Clone, Copy, Debug, PartialEq, Eq, Structural)]
pub struct ButtonConfig {
    pub pin: u8,
    pub function: ButtonFunction,
}

/// The default wiring: pins 18, 19, 20, 21 and 26, in the order of the
/// functions' ids.
pub fn default_buttons() -> (r: Vec<ButtonConfig>)
    ensures
        r@ == seq![
            ButtonConfig { pin: 18, function: ButtonFunction::LoadImage },
            ButtonConfig { pin: 19, function: ButtonFunction::NextAlgorithm },
            ButtonConfig { pin: 20, function: ButtonFunction::ThresholdUp },
            ButtonConfig { pin: 21, function: ButtonFunction::ThresholdDown },
            ButtonConfig { pin: 26, function: ButtonFunction::SaveImage },
        ],
{
    let r = vec![
        ButtonConfig { pin: 18, function: ButtonFunction::LoadImage },
        ButtonConfig { pin: 19, function: ButtonFunction::NextAlgorithm },
        ButtonConfig { pin: 20, function: ButtonFunction::ThresholdUp },
        ButtonConfig { pin: 21, function: ButtonFunction::ThresholdDown },
        ButtonConfig { pin: 26, function: ButtonFunction::SaveImage },
    ];
    proof {
        assert(r@ =~= seq![
            ButtonConfig { pin: 18, function: ButtonFunction::LoadImage },
            ButtonConfig { pin: 19, function: ButtonFunction::NextAlgorithm },
            ButtonConfig { pin: 20, function: ButtonFunction::ThresholdUp },
            ButtonConfig { pin: 21, function: ButtonFunction::ThresholdDown },
            ButtonConfig { pin: 26, function: ButtonFunction::SaveImage },
        ]);
    }
    r
}

/// Default debounce window for button presses, in milliseconds.
pub const DEBOUNCE_MS: u64 = 200;

/// Whether a press at `now_ms` counts, given the time of the last counted
/// press of the same button (if any): it counts unless it comes less than
/// `debounce_ms` after that one (a clock that went backwards counts as no
/// time elapsed).
pub fn accept_press(last_press_ms: Option<u64>, now_ms: u64, debounce_ms: u64) -> (r: bool)
    ensures
        r == match last_press_ms {
            None => true,
            Some(t) => (if now_ms >= t { now_ms - t } else { 0 }) >= debounce_ms,
        },
{
    match last_press_ms {
        None => true,
        Some(t) => now_ms.saturating_sub(t) >= debounce_ms,
    }
}

} // verus!
