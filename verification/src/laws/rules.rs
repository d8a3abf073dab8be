//! What states, triggers and conditions mean.

use vstd::prelude::*;

use crate::ids::{ActionId, DeviceId, SceneId, ScheduleId};
use crate::model::{
    CapabilityKind, CapabilityState, Command, CommandV, Desired, DesiredV, Event, EventV, Millis,
    TimerKey,
};
use crate::rule::{
    condition_views, conjunction_is_kleene, disjunction_is_kleene, lemma_condition_at, CmpOp,
    Condition, ConditionV, CrossDir, Rule, Trigger, TriggerV, Truth,
};
use crate::state::{known_state, reported, Known};

verus! {

// ------------------------------------------------------------ states

/// A state that is on or off reads as just that, and as no number.
pub proof fn flags_read_as_themselves(b: bool)
    ensures
        CapabilityState::Switch(b).spec_as_bool() == Some(b),
        CapabilityState::Occupancy(b).spec_as_bool() == Some(b),
        CapabilityState::Contact(b).spec_as_bool() == Some(b),
        CapabilityState::WaterLeak(b).spec_as_bool() == Some(b),
        CapabilityState::Smoke(b).spec_as_bool() == Some(b),
        CapabilityState::SunUp(b).spec_as_bool() == Some(b),
        CapabilityState::Switch(b).spec_as_int() is None,
        CapabilityState::Occupancy(b).spec_as_int() is None,
        CapabilityState::Contact(b).spec_as_int() is None,
        CapabilityState::WaterLeak(b).spec_as_int() is None,
        CapabilityState::Smoke(b).spec_as_int() is None,
        CapabilityState::SunUp(b).spec_as_int() is None,
{
}

/// A state that is a number reads as just that number, and is neither on nor off. A color
/// is neither.
pub proof fn numbers_read_as_themselves(byte: u8, word: u16, signed: i16, long: u32)
    ensures
        CapabilityState::Brightness(byte).spec_as_int() == Some(byte as i64),
        CapabilityState::Battery(byte).spec_as_int() == Some(byte as i64),
        CapabilityState::Humidity(byte).spec_as_int() == Some(byte as i64),
        CapabilityState::ColorTemperature(word).spec_as_int() == Some(word as i64),
        CapabilityState::TimeOfDay(word).spec_as_int() == Some(word as i64),
        CapabilityState::Temperature(signed).spec_as_int() == Some(signed as i64),
        CapabilityState::Illuminance(long).spec_as_int() == Some(long as i64),
        CapabilityState::Power(long).spec_as_int() == Some(long as i64),
        CapabilityState::Brightness(byte).spec_as_bool() is None,
        CapabilityState::Battery(byte).spec_as_bool() is None,
        CapabilityState::Humidity(byte).spec_as_bool() is None,
        CapabilityState::ColorTemperature(word).spec_as_bool() is None,
        CapabilityState::TimeOfDay(word).spec_as_bool() is None,
        CapabilityState::Temperature(signed).spec_as_bool() is None,
        CapabilityState::Illuminance(long).spec_as_bool() is None,
        CapabilityState::Power(long).spec_as_bool() is None,
        (CapabilityState::Color { r: byte, g: byte, b: byte }).spec_as_bool() is None,
        (CapabilityState::Color { r: byte, g: byte, b: byte }).spec_as_int() is None,
{
}

/// Every state is of the kind that it is named after.
pub proof fn states_are_of_their_kind(f: bool, byte: u8, word: u16, signed: i16, long: u32)
    ensures
        CapabilityState::Switch(f).spec_kind() == CapabilityKind::Switch,
        CapabilityState::Brightness(byte).spec_kind() == CapabilityKind::Brightness,
        (CapabilityState::Color { r: byte, g: byte, b: byte }).spec_kind() == CapabilityKind::Color,
        CapabilityState::ColorTemperature(word).spec_kind() == CapabilityKind::ColorTemperature,
        CapabilityState::Occupancy(f).spec_kind() == CapabilityKind::Occupancy,
        CapabilityState::Battery(byte).spec_kind() == CapabilityKind::Battery,
        CapabilityState::Temperature(signed).spec_kind() == CapabilityKind::Temperature,
        CapabilityState::Humidity(byte).spec_kind() == CapabilityKind::Humidity,
        CapabilityState::Illuminance(long).spec_kind() == CapabilityKind::Illuminance,
        CapabilityState::Power(long).spec_kind() == CapabilityKind::Power,
        CapabilityState::Contact(f).spec_kind() == CapabilityKind::Contact,
        CapabilityState::WaterLeak(f).spec_kind() == CapabilityKind::WaterLeak,
        CapabilityState::Smoke(f).spec_kind() == CapabilityKind::Smoke,
        CapabilityState::TimeOfDay(word).spec_kind() == CapabilityKind::TimeOfDay,
        CapabilityState::SunUp(f).spec_kind() == CapabilityKind::SunUp,
{
}

/// The names by which a configuration and the API know the capabilities.
pub proof fn capabilities_have_their_names()
    ensures
        CapabilityKind::Switch.spec_name() == "switch"@,
        CapabilityKind::Brightness.spec_name() == "brightness"@,
        CapabilityKind::Color.spec_name() == "color"@,
        CapabilityKind::ColorTemperature.spec_name() == "color_temperature"@,
        CapabilityKind::Occupancy.spec_name() == "occupancy"@,
        CapabilityKind::Battery.spec_name() == "battery"@,
        CapabilityKind::Temperature.spec_name() == "temperature"@,
        CapabilityKind::Humidity.spec_name() == "humidity"@,
        CapabilityKind::Illuminance.spec_name() == "illuminance"@,
        CapabilityKind::Power.spec_name() == "power"@,
        CapabilityKind::Contact.spec_name() == "contact"@,
        CapabilityKind::WaterLeak.spec_name() == "water_leak"@,
        CapabilityKind::Smoke.spec_name() == "smoke"@,
        CapabilityKind::IrTransmitter.spec_name() == "ir_transmitter"@,
        CapabilityKind::TimeOfDay.spec_name() == "time_of_day"@,
        CapabilityKind::SunUp.spec_name() == "sun_up"@,
{
}

/// Exactly lights, switches and IR blasters can be told anything.
pub proof fn sensors_are_not_writable(kind: CapabilityKind)
    ensures
        kind.spec_is_writable() <==> (kind is Switch || kind is Brightness || kind is Color
            || kind is ColorTemperature || kind is IrTransmitter),
{
}

/// A report is known at once, under its own device and kind, and nothing else changes.
pub proof fn reports_are_known(
    known: Known,
    device: DeviceId,
    state: CapabilityState,
    other: DeviceId,
    kind: CapabilityKind,
)
    ensures
        known_state(reported(known, device, state), device, state.spec_kind()) == Some(state),
        (other != device || kind != state.spec_kind()) ==> known_state(
            reported(known, device, state),
            other,
            kind,
        ) == known_state(known, other, kind),
{
}

// ------------------------------------------------------------ values and their views

/// The mathematical view of a command keeps everything of it.
pub proof fn command_views_keep_everything(
    device: DeviceId,
    on: bool,
    value: u8,
    g: u8,
    b: u8,
    mireds: u16,
    transition: Option<Millis>,
    scene: SceneId,
    key: TimerKey,
    after: Millis,
    code: String,
)
    ensures
        (Command::SetSwitch { device, on })@ == (CommandV::SetSwitch { device, on }),
        (Command::ToggleSwitch { device })@ == (CommandV::ToggleSwitch { device }),
        (Command::SetBrightness { device, value, transition })@ == (CommandV::SetBrightness {
            device,
            value,
            transition,
        }),
        (Command::DecreaseBrightness { device, value })@ == (CommandV::DecreaseBrightness {
            device,
            value,
        }),
        (Command::IncreaseBrightness { device, value })@ == (CommandV::IncreaseBrightness {
            device,
            value,
        }),
        (Command::SetColor { device, r: value, g, b, transition })@ == (CommandV::SetColor {
            device,
            r: value,
            g,
            b,
            transition,
        }),
        (Command::SetColorTemperature { device, mireds, transition })@ == (
        CommandV::SetColorTemperature { device, mireds, transition }),
        (Command::ActivateScene { scene })@ == (CommandV::ActivateScene { scene }),
        (Command::ScheduleTimer { key, after })@ == (CommandV::ScheduleTimer { key: key@, after }),
        (Command::CancelTimer { key })@ == (CommandV::CancelTimer { key: key@ }),
        (Command::SendIrCode { device, code })@ == (CommandV::SendIrCode { device, code: code@ }),
{
}

/// The mathematical view of an event keeps everything of it.
pub proof fn event_views_keep_everything(
    device: DeviceId,
    action: ActionId,
    occupied: bool,
    state: CapabilityState,
    desired: Desired,
    scene: SceneId,
    schedule: ScheduleId,
    key: TimerKey,
    command: Command,
    reason: String,
    attempts: u32,
)
    ensures
        (Event::Action { device, action })@ == (EventV::Action { device, action }),
        (Event::OccupancyChanged { device, occupied })@ == (EventV::OccupancyChanged {
            device,
            occupied,
        }),
        (Event::StateReported { device, state })@ == (EventV::StateReported { device, state }),
        (Event::RequestedChange { device, desired })@ == (EventV::RequestedChange {
            device,
            desired: desired@,
        }),
        (Event::RequestedScene { scene })@ == (EventV::RequestedScene { scene }),
        (Event::TimeReached { schedule })@ == (EventV::TimeReached { schedule }),
        (Event::TimerElapsed { key })@ == (EventV::TimerElapsed { key: key@ }),
        (Event::CommandFailed { command, reason, attempts })@ == (EventV::CommandFailed {
            command: command@,
            reason: reason@,
            attempts,
        }),
{
}

/// The mathematical view of a request keeps everything of it.
pub proof fn request_views_keep_everything(state: CapabilityState, delta: i8, code: String)
    ensures
        Desired::State(state)@ == DesiredV::State(state),
        Desired::Toggle@ == DesiredV::Toggle,
        Desired::AdjustBrightness(delta)@ == DesiredV::AdjustBrightness(delta),
        Desired::SendIr(code)@ == DesiredV::SendIr(code@),
{
}

/// The mathematical view of a trigger keeps everything of it.
pub proof fn trigger_views_keep_everything(
    device: DeviceId,
    action: ActionId,
    kind: CapabilityKind,
    to: bool,
    bound: i64,
    dir: CrossDir,
    key: TimerKey,
    schedule: ScheduleId,
    culprit: Option<DeviceId>,
)
    ensures
        (Trigger::Action { device, action })@ == (TriggerV::Action { device, action }),
        (Trigger::Changed { device, kind, to })@ == (TriggerV::Changed { device, kind, to }),
        (Trigger::Crosses { device, kind, bound, dir })@ == (TriggerV::Crosses {
            device,
            kind,
            bound,
            dir,
        }),
        (Trigger::Reports { device, kind })@ == (TriggerV::Reports { device, kind }),
        (Trigger::Timer { key })@ == (TriggerV::Timer { key: key@ }),
        (Trigger::Time { schedule })@ == (TriggerV::Time { schedule }),
        (Trigger::CommandFailed { device: culprit })@ == (TriggerV::CommandFailed {
            device: culprit,
        }),
{
}

/// The mathematical view of a condition keeps everything of it.
pub proof fn condition_views_keep_everything(
    device: DeviceId,
    kind: CapabilityKind,
    value: bool,
    op: CmpOp,
    bound: i64,
    r: u8,
    g: u8,
    b: u8,
    inner: Box<Condition>,
    cs: Vec<Condition>,
    i: int,
)
    requires
        0 <= i < cs@.len(),
    ensures
        Condition::Always@ == ConditionV::Always,
        (Condition::BoolEquals { device, kind, value })@ == (ConditionV::BoolEquals {
            device,
            kind,
            value,
        }),
        (Condition::Compare { device, kind, op, value: bound })@ == (ConditionV::Compare {
            device,
            kind,
            op,
            value: bound,
        }),
        (Condition::ColorEquals { device, r, g, b })@ == (ConditionV::ColorEquals {
            device,
            r,
            g,
            b,
        }),
        Condition::Not(inner)@ == ConditionV::Not(Box::new(inner@)),
        Condition::And(cs)@ is And,
        Condition::And(cs)@->And_0.len() == cs@.len(),
        Condition::And(cs)@->And_0[i] == cs@[i]@,
        Condition::Or(cs)@ is Or,
        Condition::Or(cs)@->Or_0.len() == cs@.len(),
        Condition::Or(cs)@->Or_0[i] == cs@[i]@,
{
    lemma_condition_at(cs, cs@.len());
}

/// The mathematical view of a rule keeps everything of it.
pub proof fn rule_views_keep_everything(r: Rule, i: int)
    requires
        0 <= i < r.commands@.len(),
    ensures
        r@.id == r.id,
        r@.name == r.name@,
        r@.trigger == r.trigger@,
        r@.condition == r.condition@,
        r@.for_duration == r.for_duration,
        r@.commands.len() == r.commands@.len(),
        r@.commands[i] == r.commands@[i]@,
{
}

// ------------------------------------------------------------ conditions

/// Once a device has reported whether something is so, the condition that it be so is true
/// exactly if it is, and false exactly if it is not.
pub proof fn reported_flags_decide(known: Known, device: DeviceId, state: CapabilityState, b: bool)
    requires
        state == CapabilityState::Switch(b) || state == CapabilityState::Occupancy(b) || state
            == CapabilityState::Contact(b) || state == CapabilityState::WaterLeak(b) || state
            == CapabilityState::Smoke(b) || state == CapabilityState::SunUp(b),
    ensures
        ({
            let after = reported(known, device, state);
            let kind = state.spec_kind();
            &&& (Condition::BoolEquals { device, kind, value: b }).truth(after) == Truth::True
            &&& (Condition::BoolEquals { device, kind, value: !b }).truth(after) == Truth::False
            &&& Condition::Not(
                Box::new(Condition::BoolEquals { device, kind, value: b }),
            ).truth(after) == Truth::False
        }),
{
    reveal_with_fuel(Condition::truth, 2);
}

/// The number that a state holds, if it holds one.
pub open spec fn number_held(state: CapabilityState) -> Option<int> {
    match state {
        CapabilityState::Brightness(v) => Some(v as int),
        CapabilityState::Battery(v) => Some(v as int),
        CapabilityState::Humidity(v) => Some(v as int),
        CapabilityState::ColorTemperature(v) => Some(v as int),
        CapabilityState::TimeOfDay(v) => Some(v as int),
        CapabilityState::Temperature(v) => Some(v as int),
        CapabilityState::Illuminance(v) => Some(v as int),
        CapabilityState::Power(v) => Some(v as int),
        _ => None,
    }
}

/// Once a device has reported a number, a comparison with it is true exactly if the number
/// compares so, and false otherwise.
pub proof fn reported_numbers_decide(
    known: Known,
    device: DeviceId,
    state: CapabilityState,
    n: int,
    value: i64,
)
    requires
        number_held(state) == Some(n),
    ensures
        ({
            let after = reported(known, device, state);
            let kind = state.spec_kind();
            let lt = (Condition::Compare { device, kind, op: CmpOp::Lt, value }).truth(after);
            let le = (Condition::Compare { device, kind, op: CmpOp::Le, value }).truth(after);
            let eq = (Condition::Compare { device, kind, op: CmpOp::Eq, value }).truth(after);
            let ne = (Condition::Compare { device, kind, op: CmpOp::Ne, value }).truth(after);
            let ge = (Condition::Compare { device, kind, op: CmpOp::Ge, value }).truth(after);
            let gt = (Condition::Compare { device, kind, op: CmpOp::Gt, value }).truth(after);
            &&& lt != Truth::Unknown && (lt == Truth::True <==> n < value)
            &&& le != Truth::Unknown && (le == Truth::True <==> n <= value)
            &&& eq != Truth::Unknown && (eq == Truth::True <==> n == value)
            &&& ne != Truth::Unknown && (ne == Truth::True <==> n != value)
            &&& ge != Truth::Unknown && (ge == Truth::True <==> n >= value)
            &&& gt != Truth::Unknown && (gt == Truth::True <==> n > value)
        }),
{
}

/// Once a device has reported a color, a condition on the color is true exactly if every
/// channel is as it says.
pub proof fn reported_colors_decide(
    known: Known,
    device: DeviceId,
    red: u8,
    green: u8,
    blue: u8,
    r: u8,
    g: u8,
    b: u8,
)
    ensures
        ({
            let after = reported(
                known,
                device,
                CapabilityState::Color { r: red, g: green, b: blue },
            );
            let t = (Condition::ColorEquals { device, r, g, b }).truth(after);
            &&& t == Truth::True <==> (red == r && green == g && blue == b)
            &&& t == Truth::False <==> (red != r || green != g || blue != b)
        }),
{
}

/// A color that was never reported is not known to be any.
pub proof fn unreported_color_is_unknown(known: Known, device: DeviceId, r: u8, g: u8, b: u8)
    requires
        known_state(known, device, CapabilityKind::Color) is None,
    ensures
        (Condition::ColorEquals { device, r, g, b }).truth(known) == Truth::Unknown,
{
}

/// What holds always is true in every state.
pub proof fn always_is_true(known: Known)
    ensures
        Condition::Always.truth(known) == Truth::True,
{
}

/// The negation of a condition is true exactly where the condition is false, and false
/// exactly where it is true.
pub proof fn negation_turns_truth_around(c: Box<Condition>, known: Known)
    ensures
        Condition::Not(c).truth(known) == Truth::True <==> c.truth(known) == Truth::False,
        Condition::Not(c).truth(known) == Truth::False <==> c.truth(known) == Truth::True,
{
}

/// All of some conditions: true exactly where every one is, false exactly where some one
/// is false.
pub proof fn all_means_every_one(cs: Vec<Condition>, known: Known)
    ensures
        Condition::And(cs).truth(known) == Truth::True <==> forall|i: int|
            0 <= i < cs@.len() ==> (#[trigger] cs@[i]).truth(known) == Truth::True,
        Condition::And(cs).truth(known) == Truth::False <==> exists|i: int|
            0 <= i < cs@.len() && (#[trigger] cs@[i]).truth(known) == Truth::False,
{
    conjunction_is_kleene(cs, cs@.len(), known);
}

/// Any of some conditions: true exactly where some one is, false exactly where every one is
/// false.
pub proof fn any_means_some_one(cs: Vec<Condition>, known: Known)
    ensures
        Condition::Or(cs).truth(known) == Truth::True <==> exists|i: int|
            0 <= i < cs@.len() && (#[trigger] cs@[i]).truth(known) == Truth::True,
        Condition::Or(cs).truth(known) == Truth::False <==> forall|i: int|
            0 <= i < cs@.len() ==> (#[trigger] cs@[i]).truth(known) == Truth::False,
{
    disjunction_is_kleene(cs, cs@.len(), known);
}

/// What a condition says depends on its view alone.
pub proof fn truth_is_in_the_view(a: Condition, b: Condition, known: Known)
    requires
        a@ == b@,
    ensures
        a.truth(known) == b.truth(known),
    decreases a,
{
    match (a, b) {
        (Condition::Not(x), Condition::Not(y)) => {
            assert(a@ == ConditionV::Not(Box::new(x@)));
            assert(b@ == ConditionV::Not(Box::new(y@)));
            truth_is_in_the_view(*x, *y, known);
        },
        (Condition::And(xs), Condition::And(ys)) => {
            lemma_condition_at(xs, xs@.len());
            lemma_condition_at(ys, ys@.len());
            assert(condition_views(xs, xs@.len()) == condition_views(ys, ys@.len()));
            assert forall|i: int| 0 <= i < xs@.len() implies (#[trigger] xs@[i]).truth(known)
                == ys@[i].truth(known) by {
                assert(condition_views(xs, xs@.len())[i] == xs@[i]@);
                assert(condition_views(ys, ys@.len())[i] == ys@[i]@);
                truth_is_in_the_view(xs@[i], ys@[i], known);
            }
            all_means_every_one(xs, known);
            all_means_every_one(ys, known);
            assert(forall|i: int| 0 <= i < ys@.len() ==> (#[trigger] ys@[i]).truth(known)
                == xs@[i].truth(known));
        },
        (Condition::Or(xs), Condition::Or(ys)) => {
            lemma_condition_at(xs, xs@.len());
            lemma_condition_at(ys, ys@.len());
            assert(condition_views(xs, xs@.len()) == condition_views(ys, ys@.len()));
            assert forall|i: int| 0 <= i < xs@.len() implies (#[trigger] xs@[i]).truth(known)
                == ys@[i].truth(known) by {
                assert(condition_views(xs, xs@.len())[i] == xs@[i]@);
                assert(condition_views(ys, ys@.len())[i] == ys@[i]@);
                truth_is_in_the_view(xs@[i], ys@[i], known);
            }
            any_means_some_one(xs, known);
            any_means_some_one(ys, known);
            assert(forall|i: int| 0 <= i < ys@.len() ==> (#[trigger] ys@[i]).truth(known)
                == xs@[i].truth(known));
        },
        _ => {},
    }
}

// ------------------------------------------------------------ triggers

/// A trigger on a change to on or to off fires on exactly the reports that make it so where
/// it was not known to be so before.
pub proof fn changes_fire_on_the_change(
    known: Known,
    device: DeviceId,
    kind: CapabilityKind,
    to: bool,
    reporter: DeviceId,
    state: CapabilityState,
)
    ensures
        ({
            let trigger = Trigger::Changed { device, kind, to };
            let is_so = Condition::BoolEquals { device, kind, value: to };
            let after = reported(known, reporter, state);
            trigger.fires(
                EventV::StateReported { device: reporter, state },
                known_state(known, reporter, state.spec_kind()),
            ) <==> reporter == device && state.spec_kind() == kind && is_so.truth(after)
                == Truth::True && is_so.truth(known) != Truth::True
        }),
{
}

/// A trigger on a threshold fires on exactly the reports that bring the number to it or
/// past it, from where it was not known to be there before: upwards for `Above`, downwards
/// for `Below`.
pub proof fn crossings_fire_on_the_crossing(
    known: Known,
    device: DeviceId,
    kind: CapabilityKind,
    bound: i64,
    reporter: DeviceId,
    state: CapabilityState,
)
    ensures
        ({
            let event = EventV::StateReported { device: reporter, state };
            let prior = known_state(known, reporter, state.spec_kind());
            let after = reported(known, reporter, state);
            let up = Condition::Compare { device, kind, op: CmpOp::Ge, value: bound };
            let down = Condition::Compare { device, kind, op: CmpOp::Le, value: bound };
            let same = reporter == device && state.spec_kind() == kind;
            &&& (Trigger::Crosses { device, kind, bound, dir: CrossDir::Above }).fires(event, prior)
                <==> same && up.truth(after) == Truth::True && up.truth(known) != Truth::True
            &&& (Trigger::Crosses { device, kind, bound, dir: CrossDir::Below }).fires(event, prior)
                <==> same && down.truth(after) == Truth::True && down.truth(known) != Truth::True
        }),
{
}

/// A trigger on reports fires on every report of its capability, whatever was known.
pub proof fn reports_fire_every_time(
    device: DeviceId,
    kind: CapabilityKind,
    reporter: DeviceId,
    state: CapabilityState,
    prior: Option<CapabilityState>,
)
    ensures
        (Trigger::Reports { device, kind }).fires(
            EventV::StateReported { device: reporter, state },
            prior,
        ) <==> reporter == device && state.spec_kind() == kind,
{
}

/// Buttons, timers and schedules fire the triggers that name them, and no others.
pub proof fn named_triggers_fire_on_their_own(
    device: DeviceId,
    action: ActionId,
    presser: DeviceId,
    pressed: ActionId,
    key: TimerKey,
    elapsed: Seq<char>,
    schedule: ScheduleId,
    reached: ScheduleId,
    prior: Option<CapabilityState>,
)
    ensures
        (Trigger::Action { device, action }).fires(
            EventV::Action { device: presser, action: pressed },
            prior,
        ) <==> presser == device && pressed == action,
        (Trigger::Timer { key }).fires(EventV::TimerElapsed { key: elapsed }, prior) <==> elapsed
            == key@,
        (Trigger::Time { schedule }).fires(EventV::TimeReached { schedule: reached }, prior)
            <==> reached == schedule,
{
}

/// A trigger on failures fires on every failed command, or on exactly those that were meant
/// for its device.
pub proof fn failures_fire_for_their_device(
    device: DeviceId,
    command: CommandV,
    reason: Seq<char>,
    attempts: u32,
    prior: Option<CapabilityState>,
)
    ensures
        (Trigger::CommandFailed { device: None }).fires(
            EventV::CommandFailed { command, reason, attempts },
            prior,
        ),
        (Trigger::CommandFailed { device: Some(device) }).fires(
            EventV::CommandFailed { command, reason, attempts },
            prior,
        ) <==> command.target() == Some(device),
{
}

/// No trigger fires on an event of another sort, and none on a request.
pub proof fn triggers_fire_on_their_sort_of_event(
    trigger: Trigger,
    ev: EventV,
    prior: Option<CapabilityState>,
)
    requires
        trigger.fires(ev, prior),
    ensures
        match ev {
            EventV::Action { .. } => trigger is Action,
            EventV::StateReported { .. } => trigger is Changed || trigger is Crosses || trigger is
                Reports,
            EventV::TimerElapsed { .. } => trigger is Timer,
            EventV::TimeReached { .. } => trigger is Time,
            EventV::CommandFailed { .. } => trigger is CommandFailed,
            _ => false,
        },
{
}

/// What a rule with a duration waits on is that its condition stays so: the switch as it
/// turned, the number at or past the threshold.
pub proof fn waits_are_on_what_was_reached(
    known: Known,
    device: DeviceId,
    kind: CapabilityKind,
    to: bool,
    bound: i64,
)
    ensures
        (Trigger::Changed { device, kind, to }).sustained(known) <==> (Condition::BoolEquals {
            device,
            kind,
            value: to,
        }).truth(known) == Truth::True,
        (Trigger::Crosses { device, kind, bound, dir: CrossDir::Above }).sustained(known) <==> (
        Condition::Compare { device, kind, op: CmpOp::Ge, value: bound }).truth(known)
            == Truth::True,
        (Trigger::Crosses { device, kind, bound, dir: CrossDir::Below }).sustained(known) <==> (
        Condition::Compare { device, kind, op: CmpOp::Le, value: bound }).truth(known)
            == Truth::True,
{
}

/// Only triggers on a change or on a threshold watch anything, and what they watch is what
/// they name.
pub proof fn edges_watch_what_they_name(
    device: DeviceId,
    kind: CapabilityKind,
    to: bool,
    bound: i64,
    dir: CrossDir,
    trigger: Trigger,
)
    ensures
        (Trigger::Changed { device, kind, to }).spec_watched() == Some((device, kind)),
        (Trigger::Crosses { device, kind, bound, dir }).spec_watched() == Some((device, kind)),
        trigger.spec_watched() is Some <==> trigger is Changed || trigger is Crosses,
        trigger.spec_watched() is None ==> forall|known: Known| !#[trigger] trigger.sustained(known),
{
}

/// A command is for the device that it names; scenes and timers are for none.
pub proof fn commands_are_for_the_device_they_name(
    device: DeviceId,
    on: bool,
    value: u8,
    mireds: u16,
    transition: Option<Millis>,
    scene: SceneId,
    key: Seq<char>,
    after: Millis,
)
    ensures
        (CommandV::SetSwitch { device, on }).target() == Some(device),
        (CommandV::ToggleSwitch { device }).target() == Some(device),
        (CommandV::SetBrightness { device, value, transition }).target() == Some(device),
        (CommandV::DecreaseBrightness { device, value }).target() == Some(device),
        (CommandV::IncreaseBrightness { device, value }).target() == Some(device),
        (CommandV::SetColor { device, r: value, g: value, b: value, transition }).target() == Some(
            device,
        ),
        (CommandV::SetColorTemperature { device, mireds, transition }).target() == Some(device),
        (CommandV::SendIrCode { device, code: key }).target() == Some(device),
        (CommandV::ActivateScene { scene }).target() is None,
        (CommandV::ScheduleTimer { key, after }).target() is None,
        (CommandV::CancelTimer { key }).target() is None,
{
}

} // verus!
