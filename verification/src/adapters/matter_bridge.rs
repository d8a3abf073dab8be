//! The devices of a Matter bridge as its node sees them: what a controller reads of
//! each, and what each of its writes asks of the engine.
//!
//! ```text
//!   ep 0            root node
//!   ep 1            aggregator
//!   ep 2 + i        bridged device i
//! ```

use vstd::prelude::*;

use super::matter_device::{
    cells_after, color_write, node_pct, temperature_write, ExposedDevice, ExposedV, LightCells,
};
use crate::ids::DeviceId;
use crate::model::{CapabilityKind, CapabilityState};
use crate::text::cat2;

verus! {

/// One bridged device: its identity, the cells that controllers read, and which color
/// capabilities it declares.
#[derive(Debug)]
pub struct DeviceHooks {
    device: DeviceId,
    label: String,
    cells: LightCells,
    /// Whether the device declares these; they gate which color writes reach the
    /// engine.
    has_color: bool,
    has_color_temp: bool,
}

/// [`DeviceHooks`] with its text as characters.
pub struct HooksV {
    pub device: DeviceId,
    pub label: Seq<char>,
    pub cells: LightCells,
    pub has_color: bool,
    pub has_color_temp: bool,
}

impl View for DeviceHooks {
    type V = HooksV;

    closed spec fn view(&self) -> HooksV {
        HooksV {
            device: self.device,
            label: self.label@,
            cells: self.cells,
            has_color: self.has_color,
            has_color_temp: self.has_color_temp,
        }
    }
}

/// A color that a controller asks for. Hue and saturation, or a chromaticity, arrive
/// here as sRGB at full brightness.
#[derive(Clone, Copy, Debug, PartialEq, Eq, Structural)]
pub enum ColorTarget {
    Temperature { mireds: u16 },
    Rgb { r: u8, g: u8, b: u8 },
}

/// What a color write asks of the engine: nothing that the device does not declare.
pub open spec fn color_asked(h: HooksV, target: ColorTarget) -> Option<CapabilityState> {
    match target {
        ColorTarget::Temperature { mireds } => if h.has_color_temp {
            Some(CapabilityState::ColorTemperature(mireds))
        } else {
            None
        },
        ColorTarget::Rgb { r, g, b } => if h.has_color {
            Some(CapabilityState::Color { r, g, b })
        } else {
            None
        },
    }
}

impl DeviceHooks {
    pub fn new(device: DeviceId, label: String, has_color: bool, has_color_temp: bool) -> (r: Self)
        ensures
            r@ == (HooksV {
                device,
                label: label@,
                cells: LightCells { on: false, level: Some(254) },
                has_color,
                has_color_temp,
            }),
    {
        DeviceHooks { device, label, cells: LightCells::default(), has_color, has_color_temp }
    }

    pub fn device_id(&self) -> (r: DeviceId)
        ensures
            r == self@.device,
    {
        self.device
    }

    pub fn has_color(&self) -> (r: bool)
        ensures
            r == self@.has_color,
    {
        self.has_color
    }

    pub fn has_color_temp(&self) -> (r: bool)
        ensures
            r == self@.has_color_temp,
    {
        self.has_color_temp
    }

    /// The device's name as controllers see it.
    pub fn label(&self) -> (r: &String)
        ensures
            r@ == self@.label,
    {
        &self.label
    }

    /// The stable identity by which controllers know the device again.
    pub fn unique_id(&self) -> (r: String)
        ensures
            r@ == "domiform-"@ + self@.label,
    {
        cat2("domiform-", self.label.as_str())
    }

    /// Reflect an engine-side state change. Color flows outward only: a controller
    /// reads the last color that a controller set.
    pub fn apply_engine_state(&mut self, state: &CapabilityState)
        ensures
            final(self)@ == (HooksV { cells: cells_after(old(self)@.cells, *state), ..old(self)@ }),
    {
        let mut cells = self.cells;
        cells.apply_engine_state(state);
        self.cells = cells;
    }

    pub fn on_off(&self) -> (r: bool)
        ensures
            r == self@.cells.on,
    {
        self.cells.on
    }

    pub fn current_level(&self) -> (r: Option<u8>)
        ensures
            r == self@.cells.level,
    {
        self.cells.level
    }

    /// The node itself moved the level.
    pub fn set_current_level(&mut self, level: Option<u8>)
        ensures
            final(self)@ == (HooksV {
                cells: LightCells { level, ..old(self)@.cells },
                ..old(self)@
            }),
    {
        self.cells.level = level;
    }

    /// A controller switched the light: what to ask of the engine.
    pub fn set_on_off(&mut self, on: bool) -> (r: (DeviceId, CapabilityState))
        ensures
            r == (old(self)@.device, CapabilityState::Switch(on)),
            final(self)@ == (HooksV { cells: LightCells { on, ..old(self)@.cells }, ..old(self)@ }),
    {
        let mut cells = self.cells;
        let asked = cells.set_on_off(on);
        self.cells = cells;
        (self.device, asked)
    }

    /// A controller moved the level: what to ask of the engine.
    pub fn set_device_level(&mut self, level: u8) -> (r: (DeviceId, CapabilityState))
        ensures
            r == (
                old(self)@.device,
                CapabilityState::Brightness(node_pct(level as int) as u8),
            ),
            final(self)@ == (HooksV {
                cells: LightCells { level: Some(level), ..old(self)@.cells },
                ..old(self)@
            }),
    {
        let mut cells = self.cells;
        let asked = cells.set_device_level(level);
        self.cells = cells;
        (self.device, asked)
    }

    /// A controller set the color: what to ask of the engine, if the device has it.
    pub fn set_device_color(&self, target: ColorTarget) -> (r: Option<(DeviceId, CapabilityState)>)
        ensures
            r == match color_asked(self@, target) {
                Some(state) => Some((self@.device, state)),
                None => None,
            },
    {
        let asked = match target {
            ColorTarget::Temperature { mireds } => temperature_write(self.has_color_temp, mireds),
            ColorTarget::Rgb { r, g, b } => color_write(self.has_color, r, g, b),
        };
        match asked {
            Some(state) => Some((self.device, state)),
            None => None,
        }
    }
}

pub open spec fn hook_views(s: Seq<DeviceHooks>) -> Seq<HooksV> {
    s.map_values(|h: DeviceHooks| h@)
}

/// What a bridge holds of an exposed device at the start.
pub open spec fn hooks_of(d: ExposedV) -> HooksV {
    HooksV {
        device: d.id,
        label: d.label,
        cells: LightCells { on: false, level: Some(254) },
        has_color: d.capabilities.contains(CapabilityKind::Color),
        has_color_temp: d.capabilities.contains(CapabilityKind::ColorTemperature),
    }
}

fn declares(caps: &Vec<CapabilityKind>, kind: CapabilityKind) -> (r: bool)
    ensures
        r == caps@.contains(kind),
{
    let mut i: usize = 0;
    while i < caps.len()
        invariant
            i <= caps@.len(),
            forall|j: int| 0 <= j < i ==> #[trigger] caps@[j] != kind,
        decreases caps@.len() - i,
    {
        if caps[i] == kind {
            return true;
        }
        i += 1;
    }
    false
}

/// One entry for each exposed device, in their order, which fixes their endpoints.
pub fn hooks_for(exposed: &Vec<ExposedDevice>) -> (r: Vec<DeviceHooks>)
    ensures
        hook_views(r@) == exposed@.map_values(|d: ExposedDevice| hooks_of(d@)),
{
    let mut out: Vec<DeviceHooks> = Vec::new();
    let mut i: usize = 0;
    while i < exposed.len()
        invariant
            i <= exposed@.len(),
            out@.len() == i,
            forall|j: int| 0 <= j < i ==> (#[trigger] out@[j])@ == hooks_of(exposed@[j]@),
        decreases exposed@.len() - i,
    {
        let d = &exposed[i];
        let hooks = DeviceHooks::new(
            d.id,
            d.label.clone(),
            declares(&d.capabilities, CapabilityKind::Color),
            declares(&d.capabilities, CapabilityKind::ColorTemperature),
        );
        out.push(hooks);
        i += 1;
    }
    assert(hook_views(out@) =~= exposed@.map_values(|d: ExposedDevice| hooks_of(d@)));
    out
}

/// Whether each exposed device is a dimmable light, which decides its endpoint's shape.
pub fn dimmable(exposed: &Vec<ExposedDevice>) -> (r: Vec<bool>)
    ensures
        r@ == exposed@.map_values(
            |d: ExposedDevice| d@.capabilities.contains(CapabilityKind::Brightness),
        ),
{
    let mut out: Vec<bool> = Vec::new();
    let mut i: usize = 0;
    while i < exposed.len()
        invariant
            i <= exposed@.len(),
            out@.len() == i,
            forall|j: int|
                0 <= j < i ==> #[trigger] out@[j] == exposed@[j]@.capabilities.contains(
                    CapabilityKind::Brightness,
                ),
        decreases exposed@.len() - i,
    {
        out.push(declares(&exposed[i].capabilities, CapabilityKind::Brightness));
        i += 1;
    }
    assert(out@ =~= exposed@.map_values(
        |d: ExposedDevice| d@.capabilities.contains(CapabilityKind::Brightness),
    ));
    out
}

/// Where a device stands: the first entry with its id, or the number of entries.
pub open spec fn place(s: Seq<HooksV>, device: DeviceId) -> nat
    decreases s.len(),
{
    if s.len() == 0 || s[0].device == device {
        0
    } else {
        1 + place(s.drop_first(), device)
    }
}

/// The bridge after the engine folded a state of a device.
pub open spec fn mirrored(s: Seq<HooksV>, device: DeviceId, state: CapabilityState) -> Seq<HooksV> {
    let at = place(s, device);
    if at < s.len() {
        s.update(at as int, HooksV { cells: cells_after(s[at as int].cells, state), ..s[at as int] })
    } else {
        s
    }
}

proof fn lemma_place(s: Seq<HooksV>, device: DeviceId, i: nat)
    requires
        i <= s.len(),
        forall|k: int| 0 <= k < i ==> (#[trigger] s[k]).device != device,
        i < s.len() ==> s[i as int].device == device,
    ensures
        place(s, device) == i,
    decreases i,
{
    if i > 0 {
        let rest = s.drop_first();
        assert(s[0].device != device);
        assert forall|k: int| 0 <= k < i - 1 implies (#[trigger] rest[k]).device != device by {
            assert(rest[k] == s[k + 1]);
        }
        if i < s.len() {
            assert(rest[i - 1] == s[i as int]);
        }
        lemma_place(rest, device, (i - 1) as nat);
    }
}

/// Apply an engine-side state change to the device it is about. A device that is not
/// exposed is passed over.
pub fn mirror_engine_state(
    hooks: &mut Vec<DeviceHooks>,
    device: DeviceId,
    state: &CapabilityState,
)
    ensures
        hook_views(final(hooks)@) == mirrored(hook_views(old(hooks)@), device, *state),
{
    let ghost all = hook_views(hooks@);
    let mut i: usize = 0;
    while i < hooks.len()
        invariant
            i <= hooks@.len(),
            *hooks == *old(hooks),
            all == hook_views(hooks@),
            forall|k: int| 0 <= k < i ==> (#[trigger] all[k]).device != device,
        decreases hooks@.len() - i,
    {
        assert(all[i as int] == hooks@[i as int]@);
        if hooks[i].device == device {
            proof {
                lemma_place(all, device, i as nat);
            }
            hooks[i].apply_engine_state(state);
            assert(hook_views(hooks@) =~= mirrored(all, device, *state));
            return;
        }
        i += 1;
    }
    proof {
        lemma_place(all, device, all.len());
    }
}

// ------------------------------------------------------------ laws

/// A controller reads what the engine last folded: a switch as it is, and a
/// brightness that gives the same percentage back when a controller writes it.
pub proof fn controllers_read_the_truth(cells: LightCells, on: bool, pct: u8)
    requires
        pct <= 100,
    ensures
        cells_after(cells, CapabilityState::Switch(on)).on == on,
        cells_after(cells, CapabilityState::Switch(on)).level == cells.level,
        cells_after(cells, CapabilityState::Brightness(pct)).on == cells.on,
        cells_after(cells, CapabilityState::Brightness(pct)).level matches Some(level) && node_pct(
            level as int,
        ) == pct,
{
}

/// No controller can drive a color capability that the device does not declare.
pub proof fn color_writes_respect_declarations(d: ExposedV, target: ColorTarget)
    ensures
        color_asked(hooks_of(d), target) matches Some(state) ==> d.capabilities.contains(
            state.spec_kind(),
        ),
{
}

} // verus!
