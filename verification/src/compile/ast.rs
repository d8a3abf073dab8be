//! The configuration as it was written: names and values, nothing checked.
//!
//! Turning this into a resolved, reference-checked graph is the job of
//! [`resolve`](super::resolve) and [`lower`](super::lower). Rule triggers,
//! conditions and commands are the terse single-key maps of the file
//! (`{ turn_on: hallway_light }`), which the lowering reads itself.

use vstd::prelude::*;

use crate::names::Names;

verus! {

/// Top of the file.
pub struct RawConfig {
    pub system: RawSystem,
    pub adapters: Names<RawAdapter>,
    pub devices: Names<RawDevice>,
    pub scenes: Names<Vec<RawValue>>,
    /// Wall-clock schedules that fire `TimeReached` events.
    pub schedules: Names<RawSchedule>,
    pub rules: Names<RawRule>,
}

/// One schedule entry. Exactly one field is to be set: `cron` is the raw 5-field
/// form; `daily`, `weekday` and `weekend` are `"HH:MM"` sugar for it.
#[derive(Debug)]
pub struct RawSchedule {
    pub cron: Option<String>,
    pub daily: Option<String>,
    pub weekday: Option<String>,
    pub weekend: Option<String>,
}

/// Site-wide values. Coordinates are decimal degrees, as text.
#[derive(Debug)]
pub struct RawSystem {
    pub name: Option<String>,
    pub timezone: Option<String>,
    pub latitude: Option<String>,
    pub longitude: Option<String>,
    /// Directory under which features that require runtime state keep their files.
    pub runtime_storage_path: Option<String>,
}

/// One adapter entry: its `type` and the rest of its block.
#[derive(Debug)]
pub struct RawAdapter {
    pub kind: String,
    pub config: RawAdapterConfig,
}

/// An adapter's block as each kind of adapter decodes it: its fields, or what is
/// wrong with them. Only the adapter that the entry names looks at its own.
#[derive(Debug)]
pub struct RawAdapterConfig {
    pub broker: Result<RawBroker, String>,
    pub controller: Result<RawController, String>,
    pub exposure: Result<RawExposure, String>,
    pub matter_device: Result<RawMatterDevice, String>,
}

/// The block of a zigbee2mqtt adapter.
#[derive(Debug)]
pub struct RawBroker {
    /// `mqtt://host:port`.
    pub url: String,
    pub base_topic: String,
}

/// The block of an adapter that talks to a controller over a WebSocket.
#[derive(Debug)]
pub struct RawController {
    pub url: String,
}

/// The block of a northbound adapter that only chooses what it exposes.
#[derive(Debug)]
pub struct RawExposure {
    pub expose: RawExpose,
}

/// The block of a `matter_device` adapter.
#[derive(Debug)]
pub struct RawMatterDevice {
    pub expose: RawExpose,
    pub runtime_storage_file: Option<String>,
    pub interface: Option<String>,
}

/// `expose: all` or `expose: [a, b]`.
#[derive(Debug)]
pub enum RawExpose {
    Unset,
    Keyword(String),
    Listed(Vec<String>),
}

#[derive(Debug)]
pub struct RawDevice {
    pub adapter: String,
    pub address: Option<String>,
    /// Sub-device endpoint. Matter: application endpoint (default 1). Z-Wave: load
    /// endpoint on a multi-relay module (default 0). zigbee2mqtt: multi-gang load index:
    /// 1 is `state_l1`, 2 is `state_l2`, …; omitted is the single-load `state`.
    pub endpoint: Option<u16>,
    pub capabilities: Vec<String>,
    /// Stateless events this device can emit: the raw protocol string of each local
    /// name.
    pub events: Names<String>,
    pub manufacturer: Option<String>,
    pub model: Option<String>,
    pub room: Option<String>,
}

/// A rule: one trigger, an optional guard, and an ordered command list.
#[derive(Debug)]
pub struct RawRule {
    pub when: RawValue,
    pub guard: Option<RawValue>,
    pub commands: Vec<RawValue>,
}

/// A value of the configuration as the compiler reads it: what it is, and what it
/// decodes to as each of the multi-field rule nodes.
#[derive(Debug)]
pub struct RawValue {
    pub shape: RawShape,
    pub payload: Box<RawPayloads>,
}

/// What a value is.
#[derive(Debug)]
pub enum RawShape {
    Text(String),
    Flag(bool),
    /// A whole number that is not negative.
    Number(u64),
    List(Vec<RawValue>),
    /// A map's entries. A key that is not text is `None`.
    Fields(Vec<(Option<String>, RawValue)>),
    Other,
}

/// A value decoded as each multi-field node: the fields, or what is wrong.
#[derive(Debug)]
pub struct RawPayloads {
    pub switch_is: Result<RawSwitchIs, String>,
    pub occupancy_is: Result<RawOccupancyIs, String>,
    pub set_brightness: Result<RawSetBrightness, String>,
    pub decrease_brightness: Result<RawDecreaseBrightness, String>,
    pub increase_brightness: Result<RawIncreaseBrightness, String>,
    pub set_color: Result<RawSetColor, String>,
    pub set_color_temperature: Result<RawSetColorTemperature, String>,
    pub schedule_timer: Result<RawScheduleTimer, String>,
    pub send_ir_code: Result<RawSendIrCode, String>,
}

#[derive(Debug)]
pub struct RawSwitchIs {
    pub device: String,
    pub on: bool,
}

#[derive(Debug)]
pub struct RawOccupancyIs {
    pub device: String,
    pub occupied: bool,
}

#[derive(Debug)]
pub struct RawSetBrightness {
    pub device: String,
    pub value: u8,
    /// Fade duration like `2s` or `500ms`. Pushed to the adapter, not sequenced.
    pub transition: Option<String>,
}

#[derive(Debug)]
pub struct RawDecreaseBrightness {
    pub device: String,
    pub value: u8,
}

#[derive(Debug)]
pub struct RawIncreaseBrightness {
    pub device: String,
    pub value: u8,
}

#[derive(Debug)]
pub struct RawSetColor {
    pub device: String,
    /// A `#RRGGBB` hex string or an `{ r, g, b }` map.
    pub color: RawValue,
    pub transition: Option<String>,
}

#[derive(Debug)]
pub struct RawSetColorTemperature {
    pub device: String,
    pub kelvin: Option<u32>,
    pub mireds: Option<u16>,
    pub transition: Option<String>,
}

#[derive(Debug)]
pub struct RawScheduleTimer {
    pub key: String,
    /// Delay like `10m`, `30s` or `1h`.
    pub after: String,
}

#[derive(Debug)]
pub struct RawSendIrCode {
    pub device: String,
    /// Pre-learned IR payload in base64.
    pub code: String,
}

/// Whether a top-level key is an extension (`x-...`): those are allowed for anchor
/// definitions and ignored by the compiler.
pub fn is_extension_key(key: &str) -> (r: bool)
    ensures
        r == crate::text::has_prefix(key@, "x-"@),
{
    crate::text::starts_with(key, "x-")
}

} // verus!
