//! One wire spelling for triggers, conditions and commands.
//!
//! Every id is resolved back to the name it was written under, through the
//! [`Directory`]. The output is structured, not prose: a client filters on
//! `trigger.type` rather than on a string. An IR command does not carry its code: the
//! codes are long, and a client never needs one.

use vstd::prelude::*;

use crate::ids::DeviceId;
use crate::json::{integer_value, item_views, lemma_items_prefix, Json, JsonV};
use crate::model::{command_views, Command, CommandV, Millis};
use crate::rule::{
    condition_views, lemma_condition_at, CmpOp, Condition, ConditionV, CrossDir, Rule, RuleV,
    Trigger, TriggerV,
};

use super::json::{color_json, color_value};
use super::{shown_action, shown_device, shown_scene, shown_schedule, Directory, DirectoryV};

verus! {

/// An object with its type.
pub open spec fn tagged(kind: Seq<char>) -> JsonV {
    JsonV::object().with("type"@, JsonV::Text(kind))
}

/// An object with its type and the device it is about.
pub open spec fn device_tagged(kind: Seq<char>, device: Seq<char>) -> JsonV {
    tagged(kind).with("device"@, JsonV::Text(device))
}

fn tagged_json(kind: &str) -> (r: Json)
    ensures
        r@ == tagged(kind@),
{
    Json::object().with("type", Json::text(kind))
}

fn device_tagged_json(kind: &str, device: String) -> (r: Json)
    ensures
        r@ == device_tagged(kind@, device@),
{
    tagged_json(kind).with("device", Json::Text(device))
}

/// A time, or null.
pub open spec fn millis_value(ms: Option<Millis>) -> JsonV {
    match ms {
        Some(n) => JsonV::Whole(n),
        None => JsonV::Null,
    }
}

pub(crate) fn millis_json(ms: Option<Millis>) -> (r: Json)
    ensures
        r@ == millis_value(ms),
{
    match ms {
        Some(n) => Json::Whole(n),
        None => Json::Null,
    }
}

// ------------------------------------------------------------ triggers

pub open spec fn direction_text(dir: CrossDir) -> Seq<char> {
    match dir {
        CrossDir::Above => "above"@,
        CrossDir::Below => "below"@,
    }
}

/// The wire spelling of a trigger.
pub open spec fn trigger_value(dir: DirectoryV, t: TriggerV) -> JsonV {
    match t {
        TriggerV::Action { device, action } => device_tagged(
            "event"@,
            shown_device(dir, device),
        ).with("event"@, JsonV::Text(shown_action(dir, device, action))),
        TriggerV::Changed { device, kind, to } => device_tagged(
            "changed"@,
            shown_device(dir, device),
        ).with("capability"@, JsonV::Text(kind.spec_name())).with("to"@, JsonV::Flag(to)),
        TriggerV::Crosses { device, kind, bound, dir: way } => device_tagged(
            "crosses"@,
            shown_device(dir, device),
        ).with("capability"@, JsonV::Text(kind.spec_name())).with(
            "bound"@,
            integer_value(bound as int),
        ).with("dir"@, JsonV::Text(direction_text(way))),
        TriggerV::Reports { device, kind } => device_tagged(
            "reports"@,
            shown_device(dir, device),
        ).with("capability"@, JsonV::Text(kind.spec_name())),
        TriggerV::Timer { key } => tagged("timer"@).with("key"@, JsonV::Text(key)),
        TriggerV::Time { schedule } => tagged("time"@).with(
            "schedule"@,
            JsonV::Text(shown_schedule(dir, schedule)),
        ),
        TriggerV::CommandFailed { device } => tagged("command_failed"@).with(
            "device"@,
            match device {
                Some(d) => JsonV::Text(shown_device(dir, d)),
                None => JsonV::Null,
            },
        ),
    }
}

/// The wire spelling of a rule's trigger. A trigger on any failed command has an
/// explicit null for its device.
pub fn trigger(directory: &Directory, t: &Trigger) -> (r: Json)
    ensures
        r@ == trigger_value(directory@, t@),
{
    match t {
        Trigger::Action { device, action } => device_tagged_json(
            "event",
            directory.device_name(*device),
        ).with("event", Json::Text(directory.action_name(*device, *action))),
        Trigger::Changed { device, kind, to } => device_tagged_json(
            "changed",
            directory.device_name(*device),
        ).with("capability", Json::text(kind.name())).with("to", Json::Flag(*to)),
        Trigger::Crosses { device, kind, bound, dir } => device_tagged_json(
            "crosses",
            directory.device_name(*device),
        ).with("capability", Json::text(kind.name())).with("bound", Json::integer(*bound)).with(
            "dir",
            Json::text(
                match dir {
                    CrossDir::Above => "above",
                    CrossDir::Below => "below",
                },
            ),
        ),
        Trigger::Reports { device, kind } => device_tagged_json(
            "reports",
            directory.device_name(*device),
        ).with("capability", Json::text(kind.name())),
        Trigger::Timer { key } => tagged_json("timer").with("key", Json::Text(key.0.clone())),
        Trigger::Time { schedule } => tagged_json("time").with(
            "schedule",
            Json::Text(directory.schedule_name(*schedule)),
        ),
        Trigger::CommandFailed { device } => tagged_json("command_failed").with(
            "device",
            match device {
                Some(d) => Json::Text(directory.device_name(*d)),
                None => Json::Null,
            },
        ),
    }
}

// ------------------------------------------------------------ conditions

pub open spec fn op_text(op: CmpOp) -> Seq<char> {
    match op {
        CmpOp::Lt => "lt"@,
        CmpOp::Le => "le"@,
        CmpOp::Eq => "eq"@,
        CmpOp::Ne => "ne"@,
        CmpOp::Ge => "ge"@,
        CmpOp::Gt => "gt"@,
    }
}

fn op_name(op: CmpOp) -> (r: &'static str)
    ensures
        r@ == op_text(op),
{
    match op {
        CmpOp::Lt => "lt",
        CmpOp::Le => "le",
        CmpOp::Eq => "eq",
        CmpOp::Ne => "ne",
        CmpOp::Ge => "ge",
        CmpOp::Gt => "gt",
    }
}

/// The wire spelling of a condition. A condition that always holds is literally
/// `true`.
pub open spec fn condition_value(dir: DirectoryV, c: ConditionV) -> JsonV
    decreases c,
{
    match c {
        ConditionV::Always => JsonV::Flag(true),
        ConditionV::Not(inner) => tagged("not"@).with("of"@, condition_value(dir, *inner)),
        ConditionV::And(cs) => tagged("and"@).with(
            "of"@,
            JsonV::List(condition_list(dir, cs, cs.len())),
        ),
        ConditionV::Or(cs) => tagged("or"@).with(
            "of"@,
            JsonV::List(condition_list(dir, cs, cs.len())),
        ),
        ConditionV::BoolEquals { device, kind, value } => device_tagged(
            "bool_equals"@,
            shown_device(dir, device),
        ).with("capability"@, JsonV::Text(kind.spec_name())).with("value"@, JsonV::Flag(value)),
        ConditionV::Compare { device, kind, op, value } => device_tagged(
            "compare"@,
            shown_device(dir, device),
        ).with("capability"@, JsonV::Text(kind.spec_name())).with(
            "op"@,
            JsonV::Text(op_text(op)),
        ).with("value"@, integer_value(value as int)),
        ConditionV::ColorEquals { device, r, g, b } => device_tagged(
            "color_equals"@,
            shown_device(dir, device),
        ).with("color"@, color_value(r, g, b)),
    }
}

/// The first `n` of some conditions.
pub open spec fn condition_list(dir: DirectoryV, cs: Seq<ConditionV>, n: nat) -> Seq<JsonV>
    decreases cs, n,
{
    if n == 0 || n > cs.len() {
        Seq::empty()
    } else {
        condition_list(dir, cs, (n - 1) as nat).push(condition_value(dir, cs[n - 1]))
    }
}

/// The wire spelling of a rule's condition.
pub fn condition(directory: &Directory, c: &Condition) -> (r: Json)
    ensures
        r@ == condition_value(directory@, c@),
    decreases c,
{
    match c {
        Condition::Always => Json::Flag(true),
        Condition::Not(inner) => tagged_json("not").with("of", condition(directory, inner)),
        Condition::And(cs) => {
            let mut out: Vec<Json> = Vec::new();
            let mut i: usize = 0;
            let ghost all = condition_views(*cs, cs@.len());
            proof {
                lemma_condition_at(*cs, cs@.len());
            }
            while i < cs.len()
                invariant
                    i <= cs@.len(),
                    out@.len() == i,
                    all.len() == cs@.len(),
                    forall|k: int| 0 <= k < all.len() ==> #[trigger] all[k] == cs@[k]@,
                    item_views(out, i as nat) == condition_list(directory@, all, i as nat),
                    decreases_to!(c => cs),
                decreases cs@.len() - i,
            {
                let ghost was = out;
                out.push(condition(directory, &cs[i]));
                proof {
                    lemma_items_prefix(was, out, i as nat);
                    assert(all[i as int] == cs@[i as int]@);
                }
                i += 1;
            }
            tagged_json("and").with("of", Json::List(out))
        },
        Condition::Or(cs) => {
            let mut out: Vec<Json> = Vec::new();
            let mut i: usize = 0;
            let ghost all = condition_views(*cs, cs@.len());
            proof {
                lemma_condition_at(*cs, cs@.len());
            }
            while i < cs.len()
                invariant
                    i <= cs@.len(),
                    out@.len() == i,
                    all.len() == cs@.len(),
                    forall|k: int| 0 <= k < all.len() ==> #[trigger] all[k] == cs@[k]@,
                    item_views(out, i as nat) == condition_list(directory@, all, i as nat),
                    decreases_to!(c => cs),
                decreases cs@.len() - i,
            {
                let ghost was = out;
                out.push(condition(directory, &cs[i]));
                proof {
                    lemma_items_prefix(was, out, i as nat);
                    assert(all[i as int] == cs@[i as int]@);
                }
                i += 1;
            }
            tagged_json("or").with("of", Json::List(out))
        },
        Condition::BoolEquals { device, kind, value } => device_tagged_json(
            "bool_equals",
            directory.device_name(*device),
        ).with("capability", Json::text(kind.name())).with("value", Json::Flag(*value)),
        Condition::Compare { device, kind, op, value } => device_tagged_json(
            "compare",
            directory.device_name(*device),
        ).with("capability", Json::text(kind.name())).with("op", Json::text(op_name(*op))).with(
            "value",
            Json::integer(*value),
        ),
        Condition::ColorEquals { device, r, g, b } => device_tagged_json(
            "color_equals",
            directory.device_name(*device),
        ).with("color", color_json(*r, *g, *b)),
    }
}

// ------------------------------------------------------------ commands

/// The wire spelling of a command.
pub open spec fn command_value(dir: DirectoryV, c: CommandV) -> JsonV {
    match c {
        CommandV::SetSwitch { device, on } => device_tagged(
            "set_switch"@,
            shown_device(dir, device),
        ).with("on"@, JsonV::Flag(on)),
        CommandV::ToggleSwitch { device } => device_tagged(
            "toggle_switch"@,
            shown_device(dir, device),
        ),
        CommandV::SetBrightness { device, value, transition } => device_tagged(
            "set_brightness"@,
            shown_device(dir, device),
        ).with("value"@, JsonV::Whole(value as u64))
            .with("transition_ms"@, millis_value(transition)),
        CommandV::IncreaseBrightness { device, value } => device_tagged(
            "increase_brightness"@,
            shown_device(dir, device),
        ).with("by"@, JsonV::Whole(value as u64)),
        CommandV::DecreaseBrightness { device, value } => device_tagged(
            "decrease_brightness"@,
            shown_device(dir, device),
        ).with("by"@, JsonV::Whole(value as u64)),
        CommandV::SetColor { device, r, g, b, transition } => device_tagged(
            "set_color"@,
            shown_device(dir, device),
        ).with("color"@, color_value(r, g, b))
            .with("transition_ms"@, millis_value(transition)),
        CommandV::SetColorTemperature { device, mireds, transition } => device_tagged(
            "set_color_temperature"@,
            shown_device(dir, device),
        ).with("mireds"@, JsonV::Whole(mireds as u64))
            .with("transition_ms"@, millis_value(transition)),
        CommandV::ActivateScene { scene } => tagged("activate_scene"@)
            .with("scene"@, JsonV::Text(shown_scene(dir, scene))),
        CommandV::ScheduleTimer { key, after } => tagged("schedule_timer"@)
            .with("key"@, JsonV::Text(key))
            .with("after_ms"@, JsonV::Whole(after as u64)),
        CommandV::CancelTimer { key } => tagged("cancel_timer"@).with("key"@, JsonV::Text(key)),
        CommandV::SendIrCode { device, .. } => device_tagged(
            "send_ir_code"@,
            shown_device(dir, device),
        ),
    }
}

/// The wire spelling of one command.
pub fn command(directory: &Directory, c: &Command) -> (r: Json)
    ensures
        r@ == command_value(directory@, c@),
{
    match c {
        Command::SetSwitch { device, on } => device_tagged_json(
            "set_switch",
            directory.device_name(*device),
        ).with("on", Json::Flag(*on)),
        Command::ToggleSwitch { device } => device_tagged_json(
            "toggle_switch",
            directory.device_name(*device),
        ),
        Command::SetBrightness { device, value, transition } => device_tagged_json(
            "set_brightness",
            directory.device_name(*device),
        ).with("value", Json::Whole(*value as u64))
            .with("transition_ms", millis_json(*transition)),
        Command::IncreaseBrightness { device, value } => device_tagged_json(
            "increase_brightness",
            directory.device_name(*device),
        ).with("by", Json::Whole(*value as u64)),
        Command::DecreaseBrightness { device, value } => device_tagged_json(
            "decrease_brightness",
            directory.device_name(*device),
        ).with("by", Json::Whole(*value as u64)),
        Command::SetColor { device, r, g, b, transition } => device_tagged_json(
            "set_color",
            directory.device_name(*device),
        ).with("color", color_json(*r, *g, *b))
            .with("transition_ms", millis_json(*transition)),
        Command::SetColorTemperature { device, mireds, transition } => device_tagged_json(
            "set_color_temperature",
            directory.device_name(*device),
        ).with("mireds", Json::Whole(*mireds as u64))
            .with("transition_ms", millis_json(*transition)),
        Command::ActivateScene { scene } => tagged_json("activate_scene")
            .with("scene", Json::Text(directory.scene_name(*scene))),
        Command::ScheduleTimer { key, after } => tagged_json("schedule_timer")
            .with("key", Json::Text(key.0.clone()))
            .with("after_ms", Json::Whole(*after as u64)),
        Command::CancelTimer { key } => tagged_json("cancel_timer")
            .with("key", Json::Text(key.0.clone())),
        Command::SendIrCode { device, .. } => device_tagged_json(
            "send_ir_code",
            directory.device_name(*device),
        ),
    }
}

pub open spec fn command_values(dir: DirectoryV, cs: Seq<CommandV>) -> Seq<JsonV> {
    cs.map_values(|c: CommandV| command_value(dir, c))
}

/// A list of commands, for a rule's `then:` or a scene's members.
pub fn commands(directory: &Directory, cmds: &Vec<Command>) -> (r: Vec<Json>)
    ensures
        item_views(r, r@.len()) == command_values(directory@, command_views(cmds@)),
{
    let mut out: Vec<Json> = Vec::new();
    let mut i: usize = 0;
    while i < cmds.len()
        invariant
            i <= cmds@.len(),
            out@.len() == i,
            item_views(out, i as nat) == command_values(
                directory@,
                command_views(cmds@).take(i as int),
            ),
        decreases cmds@.len() - i,
    {
        let ghost was = out;
        out.push(command(directory, &cmds[i]));
        proof {
            lemma_items_prefix(was, out, i as nat);
            assert(item_views(out, (i + 1) as nat) =~= command_values(
                directory@,
                command_views(cmds@).take(i + 1),
            ));
        }
        i += 1;
    }
    assert(command_views(cmds@).take(i as int) =~= command_views(cmds@));
    out
}

/// The static shape of a rule.
pub open spec fn rule_value(dir: DirectoryV, r: RuleV) -> JsonV {
    JsonV::object().with("name"@, JsonV::Text(r.name)).with(
        "trigger"@,
        trigger_value(dir, r.trigger),
    ).with("condition"@, condition_value(dir, r.condition)).with(
        "then"@,
        JsonV::List(command_values(dir, r.commands)),
    ).with("for_ms"@, millis_value(r.for_duration))
}

/// The static shape of a rule: everything that comes from the configuration, with no
/// runtime status.
pub fn rule_shape(directory: &Directory, rule: &Rule) -> (r: Json)
    ensures
        r@ == rule_value(directory@, rule@),
{
    Json::object().with("name", Json::Text(rule.name.clone())).with(
        "trigger",
        trigger(directory, &rule.trigger),
    ).with("condition", condition(directory, &rule.condition)).with(
        "then",
        Json::List(commands(directory, &rule.commands)),
    ).with("for_ms", millis_json(rule.for_duration))
}

// ------------------------------------------------------------ laws

/// An IR code never reaches the wire: two commands that differ in nothing else read
/// the same.
pub proof fn ir_codes_stay_inside(
    dir: DirectoryV,
    device: DeviceId,
    a: Seq<char>,
    b: Seq<char>,
)
    ensures
        command_value(dir, CommandV::SendIrCode { device, code: a }) == command_value(
            dir,
            CommandV::SendIrCode { device, code: b },
        ),
{
}

} // verus!
