//! The canonical vocabulary: capabilities, events, and commands.
//!
//! Adapters translate protocol messages into `Event`s and translate `Command`s
//! back into protocol messages; rules only ever speak this vocabulary. Values
//! that hold text have a view (`@`) in which the text is a sequence of
//! characters; contracts speak of the views.

use vstd::prelude::*;

use crate::ids::{ActionId, DeviceId, SceneId, ScheduleId};
use crate::table::Key;
use crate::text::same;

verus! {

/// Logical milliseconds. In tests this is virtual time advanced by hand; in
/// production it follows the host's monotonic clock. Rules and adapters never
/// read the wall clock themselves, which is what keeps replay deterministic.
pub type Millis = u64;

/// The *kind* of a capability, used as a key into the state store.
///
/// `TimeOfDay` and `SunUp` model time as a synthetic device with ordinary
/// capabilities, so a condition that reads "is it dark?" looks exactly like one
/// that reads "is the switch on?".
#[derive(Clone, Copy, Debug, PartialEq, Eq, Hash, Structural)]
pub enum CapabilityKind {
    Switch,
    Brightness,
    /// Chromatic color (RGB). A device may declare color, color temperature,
    /// both or neither: one does not imply the other.
    Color,
    ColorTemperature,
    Occupancy,
    Battery,
    Temperature,
    Humidity,
    Illuminance,
    Power,
    Contact,
    WaterLeak,
    Smoke,
    /// Write-only IR blaster. It has no [`CapabilityState`]: sends are
    /// fire-and-forget.
    IrTransmitter,
    TimeOfDay,
    SunUp,
}

impl View for CapabilityKind {
    type V = CapabilityKind;

    open spec fn view(&self) -> CapabilityKind {
        *self
    }
}

impl CapabilityKind {
    /// The name a configuration and the HTTP API use for this capability.
    pub open spec fn spec_name(self) -> Seq<char> {
        match self {
            CapabilityKind::Switch => "switch"@,
            CapabilityKind::Brightness => "brightness"@,
            CapabilityKind::Color => "color"@,
            CapabilityKind::ColorTemperature => "color_temperature"@,
            CapabilityKind::Occupancy => "occupancy"@,
            CapabilityKind::Battery => "battery"@,
            CapabilityKind::Temperature => "temperature"@,
            CapabilityKind::Humidity => "humidity"@,
            CapabilityKind::Illuminance => "illuminance"@,
            CapabilityKind::Power => "power"@,
            CapabilityKind::Contact => "contact"@,
            CapabilityKind::WaterLeak => "water_leak"@,
            CapabilityKind::Smoke => "smoke"@,
            CapabilityKind::IrTransmitter => "ir_transmitter"@,
            CapabilityKind::TimeOfDay => "time_of_day"@,
            CapabilityKind::SunUp => "sun_up"@,
        }
    }

    /// The capability with the given name.
    pub open spec fn spec_from_name(name: Seq<char>) -> Option<CapabilityKind> {
        if name == "switch"@ {
            Some(CapabilityKind::Switch)
        } else if name == "brightness"@ {
            Some(CapabilityKind::Brightness)
        } else if name == "color"@ {
            Some(CapabilityKind::Color)
        } else if name == "color_temperature"@ {
            Some(CapabilityKind::ColorTemperature)
        } else if name == "occupancy"@ {
            Some(CapabilityKind::Occupancy)
        } else if name == "battery"@ {
            Some(CapabilityKind::Battery)
        } else if name == "temperature"@ {
            Some(CapabilityKind::Temperature)
        } else if name == "humidity"@ {
            Some(CapabilityKind::Humidity)
        } else if name == "illuminance"@ {
            Some(CapabilityKind::Illuminance)
        } else if name == "power"@ {
            Some(CapabilityKind::Power)
        } else if name == "contact"@ {
            Some(CapabilityKind::Contact)
        } else if name == "water_leak"@ {
            Some(CapabilityKind::WaterLeak)
        } else if name == "smoke"@ {
            Some(CapabilityKind::Smoke)
        } else if name == "ir_transmitter"@ {
            Some(CapabilityKind::IrTransmitter)
        } else if name == "time_of_day"@ {
            Some(CapabilityKind::TimeOfDay)
        } else if name == "sun_up"@ {
            Some(CapabilityKind::SunUp)
        } else {
            None
        }
    }

    /// The name of the capability as diagnostics print it.
    pub open spec fn spec_label(self) -> Seq<char> {
        match self {
            CapabilityKind::Switch => "Switch"@,
            CapabilityKind::Brightness => "Brightness"@,
            CapabilityKind::Color => "Color"@,
            CapabilityKind::ColorTemperature => "ColorTemperature"@,
            CapabilityKind::Occupancy => "Occupancy"@,
            CapabilityKind::Battery => "Battery"@,
            CapabilityKind::Temperature => "Temperature"@,
            CapabilityKind::Humidity => "Humidity"@,
            CapabilityKind::Illuminance => "Illuminance"@,
            CapabilityKind::Power => "Power"@,
            CapabilityKind::Contact => "Contact"@,
            CapabilityKind::WaterLeak => "WaterLeak"@,
            CapabilityKind::Smoke => "Smoke"@,
            CapabilityKind::IrTransmitter => "IrTransmitter"@,
            CapabilityKind::TimeOfDay => "TimeOfDay"@,
            CapabilityKind::SunUp => "SunUp"@,
        }
    }

    pub fn name(self) -> (r: &'static str)
        ensures
            r@ == self.spec_name(),
    {
        match self {
            CapabilityKind::Switch => "switch",
            CapabilityKind::Brightness => "brightness",
            CapabilityKind::Color => "color",
            CapabilityKind::ColorTemperature => "color_temperature",
            CapabilityKind::Occupancy => "occupancy",
            CapabilityKind::Battery => "battery",
            CapabilityKind::Temperature => "temperature",
            CapabilityKind::Humidity => "humidity",
            CapabilityKind::Illuminance => "illuminance",
            CapabilityKind::Power => "power",
            CapabilityKind::Contact => "contact",
            CapabilityKind::WaterLeak => "water_leak",
            CapabilityKind::Smoke => "smoke",
            CapabilityKind::IrTransmitter => "ir_transmitter",
            CapabilityKind::TimeOfDay => "time_of_day",
            CapabilityKind::SunUp => "sun_up",
        }
    }

    pub fn from_name(name: &str) -> (r: Option<CapabilityKind>)
        ensures
            r == CapabilityKind::spec_from_name(name@),
    {
        if same(name, "switch") {
            Some(CapabilityKind::Switch)
        } else if same(name, "brightness") {
            Some(CapabilityKind::Brightness)
        } else if same(name, "color") {
            Some(CapabilityKind::Color)
        } else if same(name, "color_temperature") {
            Some(CapabilityKind::ColorTemperature)
        } else if same(name, "occupancy") {
            Some(CapabilityKind::Occupancy)
        } else if same(name, "battery") {
            Some(CapabilityKind::Battery)
        } else if same(name, "temperature") {
            Some(CapabilityKind::Temperature)
        } else if same(name, "humidity") {
            Some(CapabilityKind::Humidity)
        } else if same(name, "illuminance") {
            Some(CapabilityKind::Illuminance)
        } else if same(name, "power") {
            Some(CapabilityKind::Power)
        } else if same(name, "contact") {
            Some(CapabilityKind::Contact)
        } else if same(name, "water_leak") {
            Some(CapabilityKind::WaterLeak)
        } else if same(name, "smoke") {
            Some(CapabilityKind::Smoke)
        } else if same(name, "ir_transmitter") {
            Some(CapabilityKind::IrTransmitter)
        } else if same(name, "time_of_day") {
            Some(CapabilityKind::TimeOfDay)
        } else if same(name, "sun_up") {
            Some(CapabilityKind::SunUp)
        } else {
            None
        }
    }

    pub fn label(self) -> (r: &'static str)
        ensures
            r@ == self.spec_label(),
    {
        match self {
            CapabilityKind::Switch => "Switch",
            CapabilityKind::Brightness => "Brightness",
            CapabilityKind::Color => "Color",
            CapabilityKind::ColorTemperature => "ColorTemperature",
            CapabilityKind::Occupancy => "Occupancy",
            CapabilityKind::Battery => "Battery",
            CapabilityKind::Temperature => "Temperature",
            CapabilityKind::Humidity => "Humidity",
            CapabilityKind::Illuminance => "Illuminance",
            CapabilityKind::Power => "Power",
            CapabilityKind::Contact => "Contact",
            CapabilityKind::WaterLeak => "WaterLeak",
            CapabilityKind::Smoke => "Smoke",
            CapabilityKind::IrTransmitter => "IrTransmitter",
            CapabilityKind::TimeOfDay => "TimeOfDay",
            CapabilityKind::SunUp => "SunUp",
        }
    }

    /// Whether a consumer may ask for a change of this capability. The others are
    /// reports only.
    pub fn is_writable(self) -> (r: bool)
        ensures
            r == self.spec_is_writable(),
    {
        match self {
            CapabilityKind::Switch => true,
            CapabilityKind::Brightness => true,
            CapabilityKind::Color => true,
            CapabilityKind::ColorTemperature => true,
            CapabilityKind::IrTransmitter => true,
            _ => false,
        }
    }

    pub open spec fn spec_is_writable(self) -> bool {
        self == CapabilityKind::Switch || self == CapabilityKind::Brightness || self
            == CapabilityKind::Color || self == CapabilityKind::ColorTemperature || self
            == CapabilityKind::IrTransmitter
    }
}

/// Every capability is found again under its own name, and no name stands for two.
pub proof fn capability_names_round_trip(kind: CapabilityKind)
    ensures
        CapabilityKind::spec_from_name(kind.spec_name()) == Some(kind),
{
    reveal_strlit("switch");
    assert("switch"@.len() == 6);
    reveal_strlit("brightness");
    assert("brightness"@.len() == 10);
    reveal_strlit("color");
    assert("color"@.len() == 5);
    reveal_strlit("color_temperature");
    assert("color_temperature"@.len() == 17);
    reveal_strlit("occupancy");
    assert("occupancy"@.len() == 9);
    reveal_strlit("battery");
    assert("battery"@.len() == 7);
    reveal_strlit("temperature");
    assert("temperature"@.len() == 11);
    reveal_strlit("humidity");
    assert("humidity"@.len() == 8);
    reveal_strlit("illuminance");
    assert("illuminance"@.len() == 11);
    reveal_strlit("power");
    assert("power"@.len() == 5);
    reveal_strlit("contact");
    assert("contact"@.len() == 7);
    reveal_strlit("water_leak");
    assert("water_leak"@.len() == 10);
    reveal_strlit("smoke");
    assert("smoke"@.len() == 5);
    reveal_strlit("ir_transmitter");
    assert("ir_transmitter"@.len() == 14);
    reveal_strlit("time_of_day");
    assert("time_of_day"@.len() == 11);
    reveal_strlit("sun_up");
    assert("sun_up"@.len() == 6);
    assert("switch"@[1] != "sun_up"@[1]);
    assert("brightness"@[0] != "water_leak"@[0]);
    assert("color"@[0] != "power"@[0]);
    assert("color"@[0] != "smoke"@[0]);
    assert("battery"@[0] != "contact"@[0]);
    assert("temperature"@[0] != "illuminance"@[0]);
    assert("temperature"@[1] != "time_of_day"@[1]);
    assert("illuminance"@[0] != "time_of_day"@[0]);
    assert("power"@[0] != "smoke"@[0]);
}

/// State lives on capabilities, not devices: a device is an arbitrary bag of
/// capabilities.
#[derive(Clone, Copy, Debug, PartialEq, Eq, Structural)]
pub enum CapabilityState {
    Switch(bool),
    /// Percent, `0..=100`.
    Brightness(u8),
    /// sRGB.
    Color { r: u8, g: u8, b: u8 },
    /// Mireds.
    ColorTemperature(u16),
    Occupancy(bool),
    /// Percent, `0..=100`.
    Battery(u8),
    /// Hundredths of a degree Celsius.
    Temperature(i16),
    /// Percent, `0..=100`.
    Humidity(u8),
    /// Lux.
    Illuminance(u32),
    /// Watts.
    Power(u32),
    Contact(bool),
    WaterLeak(bool),
    Smoke(bool),
    /// Minutes since local midnight, `0..1440`.
    TimeOfDay(u16),
    /// `false` after sunset and before sunrise.
    SunUp(bool),
}

impl View for CapabilityState {
    type V = CapabilityState;

    open spec fn view(&self) -> CapabilityState {
        *self
    }
}

impl CapabilityState {
    pub open spec fn spec_kind(self) -> CapabilityKind {
        match self {
            CapabilityState::Switch { .. } => CapabilityKind::Switch,
            CapabilityState::Brightness { .. } => CapabilityKind::Brightness,
            CapabilityState::Color { .. } => CapabilityKind::Color,
            CapabilityState::ColorTemperature { .. } => CapabilityKind::ColorTemperature,
            CapabilityState::Occupancy { .. } => CapabilityKind::Occupancy,
            CapabilityState::Battery { .. } => CapabilityKind::Battery,
            CapabilityState::Temperature { .. } => CapabilityKind::Temperature,
            CapabilityState::Humidity { .. } => CapabilityKind::Humidity,
            CapabilityState::Illuminance { .. } => CapabilityKind::Illuminance,
            CapabilityState::Power { .. } => CapabilityKind::Power,
            CapabilityState::Contact { .. } => CapabilityKind::Contact,
            CapabilityState::WaterLeak { .. } => CapabilityKind::WaterLeak,
            CapabilityState::Smoke { .. } => CapabilityKind::Smoke,
            CapabilityState::TimeOfDay { .. } => CapabilityKind::TimeOfDay,
            CapabilityState::SunUp { .. } => CapabilityKind::SunUp,
        }
    }

    pub open spec fn spec_as_bool(self) -> Option<bool> {
        match self {
            CapabilityState::Switch(b) => Some(b),
            CapabilityState::Occupancy(b) => Some(b),
            CapabilityState::Contact(b) => Some(b),
            CapabilityState::WaterLeak(b) => Some(b),
            CapabilityState::Smoke(b) => Some(b),
            CapabilityState::SunUp(b) => Some(b),
            _ => None,
        }
    }

    pub open spec fn spec_as_int(self) -> Option<i64> {
        match self {
            CapabilityState::Brightness(v) => Some(v as i64),
            CapabilityState::ColorTemperature(v) => Some(v as i64),
            CapabilityState::Battery(v) => Some(v as i64),
            CapabilityState::Temperature(v) => Some(v as i64),
            CapabilityState::Humidity(v) => Some(v as i64),
            CapabilityState::Illuminance(v) => Some(v as i64),
            CapabilityState::Power(v) => Some(v as i64),
            CapabilityState::TimeOfDay(v) => Some(v as i64),
            _ => None,
        }
    }

    pub fn kind(&self) -> (r: CapabilityKind)
        ensures
            r == self.spec_kind(),
    {
        match self {
            CapabilityState::Switch { .. } => CapabilityKind::Switch,
            CapabilityState::Brightness { .. } => CapabilityKind::Brightness,
            CapabilityState::Color { .. } => CapabilityKind::Color,
            CapabilityState::ColorTemperature { .. } => CapabilityKind::ColorTemperature,
            CapabilityState::Occupancy { .. } => CapabilityKind::Occupancy,
            CapabilityState::Battery { .. } => CapabilityKind::Battery,
            CapabilityState::Temperature { .. } => CapabilityKind::Temperature,
            CapabilityState::Humidity { .. } => CapabilityKind::Humidity,
            CapabilityState::Illuminance { .. } => CapabilityKind::Illuminance,
            CapabilityState::Power { .. } => CapabilityKind::Power,
            CapabilityState::Contact { .. } => CapabilityKind::Contact,
            CapabilityState::WaterLeak { .. } => CapabilityKind::WaterLeak,
            CapabilityState::Smoke { .. } => CapabilityKind::Smoke,
            CapabilityState::TimeOfDay { .. } => CapabilityKind::TimeOfDay,
            CapabilityState::SunUp { .. } => CapabilityKind::SunUp,
        }
    }

    /// The boolean this capability holds, if it is boolean-shaped. Lets the
    /// condition evaluator treat switch, occupancy and sun-up uniformly.
    pub fn as_bool(&self) -> (r: Option<bool>)
        ensures
            r == self.spec_as_bool(),
    {
        match self {
            CapabilityState::Switch(b) => Some(*b),
            CapabilityState::Occupancy(b) => Some(*b),
            CapabilityState::Contact(b) => Some(*b),
            CapabilityState::WaterLeak(b) => Some(*b),
            CapabilityState::Smoke(b) => Some(*b),
            CapabilityState::SunUp(b) => Some(*b),
            _ => None,
        }
    }

    /// The number this capability holds, if it is scalar-shaped. Lets the
    /// condition evaluator compare brightness, battery and time of day uniformly.
    pub fn as_i64(&self) -> (r: Option<i64>)
        ensures
            r == self.spec_as_int(),
    {
        match self {
            CapabilityState::Brightness(v) => Some(*v as i64),
            CapabilityState::ColorTemperature(v) => Some(*v as i64),
            CapabilityState::Battery(v) => Some(*v as i64),
            CapabilityState::Temperature(v) => Some(*v as i64),
            CapabilityState::Humidity(v) => Some(*v as i64),
            CapabilityState::Illuminance(v) => Some(*v as i64),
            CapabilityState::Power(v) => Some(*v as i64),
            CapabilityState::TimeOfDay(v) => Some(*v as i64),
            _ => None,
        }
    }
}

/// A timer's identity. Named so that one rule can cancel a timer another rule
/// scheduled, and so the compiler can lint that every cancel matches a schedule.
#[derive(Debug, PartialEq, Eq, Hash)]
pub struct TimerKey(pub String);

impl View for TimerKey {
    type V = Seq<char>;

    open spec fn view(&self) -> Seq<char> {
        self.0@
    }
}

impl Clone for TimerKey {
    fn clone(&self) -> (r: Self)
        ensures
            r@ == self@,
    {
        TimerKey(self.0.clone())
    }
}

impl Key for TimerKey {
    fn same(&self, other: &Self) -> (b: bool) {
        self.0 == other.0
    }

    fn dup(&self) -> (r: Self) {
        self.clone()
    }
}

impl TimerKey {
    pub fn new(s: &str) -> (r: Self)
        ensures
            r@ == s@,
    {
        TimerKey(s.to_owned())
    }
}

/// What a consumer asks of a device.
#[derive(Debug, PartialEq)]
pub enum Desired {
    /// Bring one capability to this state.
    State(CapabilityState),
    /// Flip the switch.
    Toggle,
    /// Change the brightness by this many percent.
    AdjustBrightness(i8),
    /// Send a pre-learned IR code (base64).
    SendIr(String),
}

/// [`Desired`] with its text as characters.
pub enum DesiredV {
    State(CapabilityState),
    Toggle,
    AdjustBrightness(i8),
    SendIr(Seq<char>),
}

impl View for Desired {
    type V = DesiredV;

    open spec fn view(&self) -> DesiredV {
        match *self {
            Desired::State(s) => DesiredV::State(s),
            Desired::Toggle => DesiredV::Toggle,
            Desired::AdjustBrightness(d) => DesiredV::AdjustBrightness(d),
            Desired::SendIr(code) => DesiredV::SendIr(code@),
        }
    }
}

impl Clone for Desired {
    fn clone(&self) -> (r: Self)
        ensures
            r@ == self@,
    {
        match self {
            Desired::State(s) => Desired::State(*s),
            Desired::Toggle => Desired::Toggle,
            Desired::AdjustBrightness(d) => Desired::AdjustBrightness(*d),
            Desired::SendIr(code) => Desired::SendIr(code.clone()),
        }
    }
}


/// Canonical, protocol-independent events. Everything that can wake the engine
/// (a button, a sensor, *or the passage of time*) arrives in this one shape.
#[derive(Debug, PartialEq)]
pub enum Event {
    /// A stateless device event fired: a button press, knob turn, scene button.
    /// `action` is one of the device's declared events.
    Action { device: DeviceId, action: ActionId },
    /// A presence sensor's report. The engine takes it as the state report of the
    /// device's occupancy.
    OccupancyChanged { device: DeviceId, occupied: bool },
    /// A device reporting its own state back (the feedback path). Updates the state
    /// store; rules may also trigger on it.
    StateReported { device: DeviceId, state: CapabilityState },
    /// A consumer *requested* a device change. It is an intent, not a report: the
    /// engine translates it into the `Command` a rule would emit and dispatches it.
    /// It does not fold into the store; the device's own echo does that.
    RequestedChange { device: DeviceId, desired: Desired },
    /// A consumer asked for a scene.
    RequestedScene { scene: SceneId },
    /// A wall-clock schedule came due.
    TimeReached { schedule: ScheduleId },
    /// A relative timer elapsed. Only the scheduler makes these.
    TimerElapsed { key: TimerKey },
    /// A command that could not be dispatched: after retries are exhausted, or at once
    /// for a permanent failure.
    CommandFailed { command: Command, reason: String, attempts: u32 },
}

/// [`Event`] with its text as characters.
pub enum EventV {
    Action { device: DeviceId, action: ActionId },
    OccupancyChanged { device: DeviceId, occupied: bool },
    StateReported { device: DeviceId, state: CapabilityState },
    RequestedChange { device: DeviceId, desired: DesiredV },
    RequestedScene { scene: SceneId },
    TimeReached { schedule: ScheduleId },
    TimerElapsed { key: Seq<char> },
    CommandFailed { command: CommandV, reason: Seq<char>, attempts: u32 },
}

impl View for Event {
    type V = EventV;

    open spec fn view(&self) -> EventV {
        match *self {
            Event::Action { device, action } => EventV::Action { device, action },
            Event::OccupancyChanged { device, occupied } => EventV::OccupancyChanged {
                device,
                occupied,
            },
            Event::StateReported { device, state } => EventV::StateReported { device, state },
            Event::RequestedChange { device, desired } => EventV::RequestedChange {
                device,
                desired: desired@,
            },
            Event::RequestedScene { scene } => EventV::RequestedScene { scene },
            Event::TimeReached { schedule } => EventV::TimeReached { schedule },
            Event::TimerElapsed { key } => EventV::TimerElapsed { key: key@ },
            Event::CommandFailed { command, reason, attempts } => EventV::CommandFailed {
                command: command@,
                reason: reason@,
                attempts,
            },
        }
    }
}

impl Clone for Event {
    fn clone(&self) -> (r: Self)
        ensures
            r@ == self@,
    {
        match self {
            Event::Action { device, action } => Event::Action { device: *device, action: *action },
            Event::OccupancyChanged { device, occupied } => Event::OccupancyChanged {
                device: *device,
                occupied: *occupied,
            },
            Event::StateReported { device, state } => Event::StateReported {
                device: *device,
                state: *state,
            },
            Event::RequestedChange { device, desired } => Event::RequestedChange {
                device: *device,
                desired: desired.clone(),
            },
            Event::RequestedScene { scene } => Event::RequestedScene { scene: *scene },
            Event::TimeReached { schedule } => Event::TimeReached { schedule: *schedule },
            Event::TimerElapsed { key } => Event::TimerElapsed { key: key.clone() },
            Event::CommandFailed { command, reason, attempts } => Event::CommandFailed {
                command: command.clone(),
                reason: reason.clone(),
                attempts: *attempts,
            },
        }
    }
}

/// Canonical, protocol-independent commands. Relative timing is a command to the
/// scheduler that produces a future event: the same shape as everything else.
#[derive(Debug, PartialEq)]
pub enum Command {
    SetSwitch { device: DeviceId, on: bool },
    /// Flip a switch. The engine resolves this to an explicit `SetSwitch` against the
    /// known state before dispatch; it reaches an adapter as a raw toggle only while
    /// the state is unknown.
    ToggleSwitch { device: DeviceId },
    /// `transition` lets fades push down to the adapter instead of forcing a rule to
    /// sequence many steps.
    SetBrightness { device: DeviceId, value: u8, transition: Option<Millis> },
    DecreaseBrightness { device: DeviceId, value: u8 },
    IncreaseBrightness { device: DeviceId, value: u8 },
    /// Chromatic color in sRGB. Adapters translate to protocol-native forms.
    SetColor { device: DeviceId, r: u8, g: u8, b: u8, transition: Option<Millis> },
    /// White color temperature in mireds (reciprocal megakelvin).
    SetColorTemperature { device: DeviceId, mireds: u16, transition: Option<Millis> },
    ActivateScene { scene: SceneId },
    ScheduleTimer { key: TimerKey, after: Millis },
    CancelTimer { key: TimerKey },
    /// Send a pre-learned IR code (base64) via an IR blaster device.
    SendIrCode { device: DeviceId, code: String },
}

/// [`Command`] with its text as characters.
pub enum CommandV {
    SetSwitch { device: DeviceId, on: bool },
    ToggleSwitch { device: DeviceId },
    SetBrightness { device: DeviceId, value: u8, transition: Option<Millis> },
    DecreaseBrightness { device: DeviceId, value: u8 },
    IncreaseBrightness { device: DeviceId, value: u8 },
    SetColor { device: DeviceId, r: u8, g: u8, b: u8, transition: Option<Millis> },
    SetColorTemperature { device: DeviceId, mireds: u16, transition: Option<Millis> },
    ActivateScene { scene: SceneId },
    ScheduleTimer { key: Seq<char>, after: Millis },
    CancelTimer { key: Seq<char> },
    SendIrCode { device: DeviceId, code: Seq<char> },
}

impl View for Command {
    type V = CommandV;

    open spec fn view(&self) -> CommandV {
        match *self {
            Command::SetSwitch { device, on } => CommandV::SetSwitch { device, on },
            Command::ToggleSwitch { device } => CommandV::ToggleSwitch { device },
            Command::SetBrightness { device, value, transition } => CommandV::SetBrightness {
                device,
                value,
                transition,
            },
            Command::DecreaseBrightness { device, value } => CommandV::DecreaseBrightness {
                device,
                value,
            },
            Command::IncreaseBrightness { device, value } => CommandV::IncreaseBrightness {
                device,
                value,
            },
            Command::SetColor { device, r, g, b, transition } => CommandV::SetColor {
                device,
                r,
                g,
                b,
                transition,
            },
            Command::SetColorTemperature { device, mireds, transition } => CommandV::SetColorTemperature {
                device,
                mireds,
                transition,
            },
            Command::ActivateScene { scene } => CommandV::ActivateScene { scene },
            Command::ScheduleTimer { key, after } => CommandV::ScheduleTimer { key: key@, after },
            Command::CancelTimer { key } => CommandV::CancelTimer { key: key@ },
            Command::SendIrCode { device, code } => CommandV::SendIrCode { device, code: code@ },
        }
    }
}

impl Clone for Command {
    fn clone(&self) -> (r: Self)
        ensures
            r@ == self@,
    {
        match self {
            Command::SetSwitch { device, on } => Command::SetSwitch { device: *device, on: *on },
            Command::ToggleSwitch { device } => Command::ToggleSwitch { device: *device },
            Command::SetBrightness { device, value, transition } => Command::SetBrightness {
                device: *device,
                value: *value,
                transition: *transition,
            },
            Command::DecreaseBrightness { device, value } => Command::DecreaseBrightness {
                device: *device,
                value: *value,
            },
            Command::IncreaseBrightness { device, value } => Command::IncreaseBrightness {
                device: *device,
                value: *value,
            },
            Command::SetColor { device, r, g, b, transition } => Command::SetColor {
                device: *device,
                r: *r,
                g: *g,
                b: *b,
                transition: *transition,
            },
            Command::SetColorTemperature { device, mireds, transition } => Command::SetColorTemperature {
                device: *device,
                mireds: *mireds,
                transition: *transition,
            },
            Command::ActivateScene { scene } => Command::ActivateScene { scene: *scene },
            Command::ScheduleTimer { key, after } => Command::ScheduleTimer {
                key: key.clone(),
                after: *after,
            },
            Command::CancelTimer { key } => Command::CancelTimer { key: key.clone() },
            Command::SendIrCode { device, code } => Command::SendIrCode {
                device: *device,
                code: code.clone(),
            },
        }
    }
}

impl CommandV {
    /// The device a command targets, if any.
    pub open spec fn target(self) -> Option<DeviceId> {
        match self {
            CommandV::ActivateScene { .. } => None,
            CommandV::ScheduleTimer { .. } => None,
            CommandV::CancelTimer { .. } => None,
            CommandV::SetSwitch { device, .. } => Some(device),
            CommandV::ToggleSwitch { device, .. } => Some(device),
            CommandV::SetBrightness { device, .. } => Some(device),
            CommandV::DecreaseBrightness { device, .. } => Some(device),
            CommandV::IncreaseBrightness { device, .. } => Some(device),
            CommandV::SetColor { device, .. } => Some(device),
            CommandV::SetColorTemperature { device, .. } => Some(device),
            CommandV::SendIrCode { device, .. } => Some(device),
        }
    }
}

impl Command {
    /// The device a command targets, if any. Scheduler and scene commands return
    /// `None`: they are routed specially rather than to a device adapter.
    pub fn target_device(&self) -> (r: Option<DeviceId>)
        ensures
            r == self@.target(),
    {
        match self {
            Command::SetSwitch { device, .. } => Some(*device),
            Command::ToggleSwitch { device, .. } => Some(*device),
            Command::SetBrightness { device, .. } => Some(*device),
            Command::DecreaseBrightness { device, .. } => Some(*device),
            Command::IncreaseBrightness { device, .. } => Some(*device),
            Command::SetColor { device, .. } => Some(*device),
            Command::SetColorTemperature { device, .. } => Some(*device),
            Command::SendIrCode { device, .. } => Some(*device),
            Command::ActivateScene { .. } => None,
            Command::ScheduleTimer { .. } => None,
            Command::CancelTimer { .. } => None,
        }
    }
}

/// The views of a list of commands.
pub open spec fn command_views(s: Seq<Command>) -> Seq<CommandV> {
    s.map_values(|c: Command| c@)
}

/// The views of a list of events.
pub open spec fn event_views(s: Seq<Event>) -> Seq<EventV> {
    s.map_values(|e: Event| e@)
}

/// A copy of a list of commands.
pub fn clone_commands(cs: &Vec<Command>) -> (r: Vec<Command>)
    ensures
        command_views(r@) == command_views(cs@),
{
    let mut r: Vec<Command> = Vec::new();
    let mut i: usize = 0;
    while i < cs.len()
        invariant
            i <= cs@.len(),
            r@.len() == i,
            forall|j: int| 0 <= j < i ==> (#[trigger] r@[j])@ == cs@[j]@,
        decreases cs@.len() - i,
    {
        r.push(cs[i].clone());
        i += 1;
    }
    assert(command_views(r@) =~= command_views(cs@));
    r
}

/// A copy of a list of capabilities.
pub(crate) fn copy_capabilities(caps: &Vec<CapabilityKind>) -> (r: Vec<CapabilityKind>)
    ensures
        r@ == caps@,
{
    let mut out: Vec<CapabilityKind> = Vec::new();
    let mut i: usize = 0;
    while i < caps.len()
        invariant
            i <= caps@.len(),
            out@ == caps@.take(i as int),
        decreases caps@.len() - i,
    {
        out.push(caps[i]);
        assert(out@ =~= caps@.take(i + 1));
        i += 1;
    }
    assert(out@ =~= caps@);
    out
}

} // verus!
