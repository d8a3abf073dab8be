//! A read-only picture of a configuration: devices are nodes, rules are edges.
//!
//! The page is self-contained. The graph is embedded as JSON, and the client lays it
//! out. What the page asks and answers: which devices do many rules touch, which does
//! no rule reference, and what happens when this one fires.

use vstd::prelude::*;

use crate::compile::diagnostic::opt_text;
use crate::compile::resolve::{
    schedule_views, CompiledConfig, DeviceEventV, DeviceV, Resolution, ScheduleV,
};
use crate::ids::{ActionId, DeviceId, ScheduleId};
use crate::json::{json_text, write_json, Json, JsonV};
use crate::model::{Command, CommandV, Millis};
use crate::rule::{
    condition_views, lemma_condition_at, CmpOp, Condition, ConditionV, CrossDir, Rule, RuleV,
    Trigger, TriggerV,
};
use crate::text::{
    cat2, cat3, cat4, cat5, chars_of, decimal, decimal_text, join, joined, push_char,
    signed_decimal, signed_decimal_text, texts,
};

verus! {

// ------------------------------------------------------------ names

/// A device's name; the clock reads as `clock`.
pub open spec fn device_label(cfg: Resolution, id: DeviceId) -> Seq<char> {
    if id == cfg.clock {
        "clock"@
    } else if id.0 < cfg.devices.len() {
        cfg.devices[id.0 as int].name
    } else {
        "device#"@ + decimal(id.0 as nat)
    }
}

fn dev_name(cfg: &CompiledConfig, id: DeviceId) -> (r: String)
    ensures
        r@ == device_label(cfg@, id),
{
    if id == cfg.clock_device() {
        "clock".to_owned()
    } else {
        match cfg.device(id) {
            Some(d) => d.name.clone(),
            None => {
                let n = decimal_text(id.0 as u64);
                cat2("device#", n.as_str())
            },
        }
    }
}

/// The name of the first event with an identity.
pub open spec fn event_with(events: Seq<DeviceEventV>, id: ActionId) -> Option<Seq<char>>
    decreases events.len(),
{
    if events.len() == 0 {
        None
    } else if events[0].id == id {
        Some(events[0].name)
    } else {
        event_with(events.drop_first(), id)
    }
}

/// The local event name a device declared, e.g. `bottom_right_single`.
pub open spec fn action_label(cfg: Resolution, device: DeviceId, action: ActionId) -> Seq<char> {
    let found = if device.0 < cfg.devices.len() {
        event_with(cfg.devices[device.0 as int].events, action)
    } else {
        None
    };
    match found {
        Some(name) => name,
        None => "action#"@ + decimal(action.0 as nat),
    }
}

fn action_name(cfg: &CompiledConfig, device: DeviceId, action: ActionId) -> (r: String)
    ensures
        r@ == action_label(cfg@, device, action),
{
    if let Some(d) = cfg.device(device) {
        let ghost all = d@.events;
        let mut i: usize = 0;
        assert(all.skip(0) =~= all);
        while i < d.events.len()
            invariant
                i <= d.events@.len(),
                all == crate::compile::resolve::device_events(d.events@),
                all == d@.events,
                device.0 < cfg@.devices.len(),
                d@ == cfg@.devices[device.0 as int],
                event_with(all, action) == event_with(all.skip(i as int), action),
            decreases d.events@.len() - i,
        {
            assert(all.skip(i as int)[0] == d.events@[i as int]@);
            if d.events[i].id == action {
                return d.events[i].name.clone();
            }
            assert(all.skip(i as int).drop_first() =~= all.skip(i + 1));
            i += 1;
        }
    }
    let n = decimal_text(action.0 as u64);
    cat2("action#", n.as_str())
}

/// The name of the first schedule with an id.
pub open spec fn schedule_named(schedules: Seq<ScheduleV>, id: ScheduleId) -> Seq<char>
    decreases schedules.len(),
{
    if schedules.len() == 0 {
        "schedule#"@ + decimal(id.0 as nat)
    } else if schedules[0].id == id {
        schedules[0].name
    } else {
        schedule_named(schedules.drop_first(), id)
    }
}

fn schedule_name(cfg: &CompiledConfig, id: ScheduleId) -> (r: String)
    ensures
        r@ == schedule_named(cfg@.schedules, id),
{
    proof {
        cfg.view_is_public();
    }
    let ghost all = schedule_views(cfg.schedules@);
    let mut i: usize = 0;
    assert(all.skip(0) =~= all);
    while i < cfg.schedules.len()
        invariant
            i <= cfg.schedules@.len(),
            all == schedule_views(cfg.schedules@),
            all == cfg@.schedules,
            schedule_named(all, id) == schedule_named(all.skip(i as int), id),
        decreases cfg.schedules@.len() - i,
    {
        assert(all.skip(i as int)[0] == cfg.schedules@[i as int]@);
        if cfg.schedules[i].id == id {
            return cfg.schedules[i].name.clone();
        }
        assert(all.skip(i as int).drop_first() =~= all.skip(i + 1));
        i += 1;
    }
    let n = decimal_text(id.0 as u64);
    cat2("schedule#", n.as_str())
}

/// An upper-case hexadecimal digit.
pub open spec fn upper_hex(d: u8) -> char {
    if d < 10 {
        ((48 + d) as u8) as char
    } else {
        ((55 + d) as u8) as char
    }
}

fn upper_hex_char(d: u8) -> (r: char)
    requires
        d < 16,
    ensures
        r == upper_hex(d),
{
    if d < 10 {
        (48 + d) as char
    } else {
        (55 + d) as char
    }
}

/// A color as `#RRGGBB`.
pub open spec fn color_code(r: u8, g: u8, b: u8) -> Seq<char> {
    seq![
        '#',
        upper_hex(r / 16),
        upper_hex(r % 16),
        upper_hex(g / 16),
        upper_hex(g % 16),
        upper_hex(b / 16),
        upper_hex(b % 16),
    ]
}

fn color_text(r: u8, g: u8, b: u8) -> (out: String)
    ensures
        out@ == color_code(r, g, b),
{
    let mut out = String::new();
    push_char(&mut out, '#');
    push_char(&mut out, upper_hex_char(r / 16));
    push_char(&mut out, upper_hex_char(r % 16));
    push_char(&mut out, upper_hex_char(g / 16));
    push_char(&mut out, upper_hex_char(g % 16));
    push_char(&mut out, upper_hex_char(b / 16));
    push_char(&mut out, upper_hex_char(b % 16));
    assert(out@ =~= color_code(r, g, b));
    out
}

pub open spec fn truth_word(b: bool) -> Seq<char> {
    if b {
        "true"@
    } else {
        "false"@
    }
}

fn bool_text(b: bool) -> (r: &'static str)
    ensures
        r@ == truth_word(b),
{
    if b {
        "true"
    } else {
        "false"
    }
}

pub open spec fn op_symbol(op: CmpOp) -> Seq<char> {
    match op {
        CmpOp::Lt => "<"@,
        CmpOp::Le => "≤"@,
        CmpOp::Eq => "="@,
        CmpOp::Ne => "≠"@,
        CmpOp::Ge => "≥"@,
        CmpOp::Gt => ">"@,
    }
}

fn op_text(op: CmpOp) -> (r: &'static str)
    ensures
        r@ == op_symbol(op),
{
    match op {
        CmpOp::Lt => "<",
        CmpOp::Le => "≤",
        CmpOp::Eq => "=",
        CmpOp::Ne => "≠",
        CmpOp::Ge => "≥",
        CmpOp::Gt => ">",
    }
}

// ------------------------------------------------------------ descriptions

/// A trigger in words.
pub open spec fn trigger_words(cfg: Resolution, t: TriggerV) -> Seq<char> {
    match t {
        TriggerV::Action { device, action } => "on '"@ + action_label(cfg, device, action)
            + "' from "@ + device_label(cfg, device),
        TriggerV::Changed { device, kind, to } => "when "@ + device_label(cfg, device) + " "@
            + kind.spec_label() + " → "@ + truth_word(to),
        TriggerV::Crosses { device, kind, bound, dir } => "when "@ + device_label(cfg, device)
            + " "@ + kind.spec_label() + (match dir {
            CrossDir::Above => " rises to "@,
            CrossDir::Below => " falls to "@,
        }) + signed_decimal(bound as int),
        TriggerV::Reports { device, kind } => "on every "@ + device_label(cfg, device) + " "@
            + kind.spec_label() + " report"@,
        TriggerV::Timer { .. } => "when a timer elapses"@,
        TriggerV::Time { schedule } => "at schedule '"@ + schedule_named(cfg.schedules, schedule)
            + "'"@,
        TriggerV::CommandFailed { device } => match device {
            Some(d) => "when a command to "@ + device_label(cfg, d) + " fails"@,
            None => "when any command fails"@,
        },
    }
}

fn describe_trigger(cfg: &CompiledConfig, t: &Trigger) -> (r: String)
    ensures
        r@ == trigger_words(cfg@, t@),
{
    match t {
        Trigger::Action { device, action } => {
            let what = action_name(cfg, *device, *action);
            let who = dev_name(cfg, *device);
            cat4("on '", what.as_str(), "' from ", who.as_str())
        },
        Trigger::Changed { device, kind, to } => {
            let who = dev_name(cfg, *device);
            let mut s = cat5("when ", who.as_str(), " ", kind.label(), " → ");
            s.append(bool_text(*to));
            s
        },
        Trigger::Crosses { device, kind, bound, dir } => {
            let who = dev_name(cfg, *device);
            let way = match dir {
                CrossDir::Above => " rises to ",
                CrossDir::Below => " falls to ",
            };
            let limit = signed_decimal_text(*bound);
            let mut s = cat5("when ", who.as_str(), " ", kind.label(), way);
            s.append(limit.as_str());
            s
        },
        Trigger::Reports { device, kind } => {
            let who = dev_name(cfg, *device);
            cat5("on every ", who.as_str(), " ", kind.label(), " report")
        },
        Trigger::Timer { .. } => "when a timer elapses".to_owned(),
        Trigger::Time { schedule } => {
            let name = schedule_name(cfg, *schedule);
            cat3("at schedule '", name.as_str(), "'")
        },
        Trigger::CommandFailed { device } => match device {
            Some(d) => {
                let who = dev_name(cfg, *d);
                cat3("when a command to ", who.as_str(), " fails")
            },
            None => "when any command fails".to_owned(),
        },
    }
}

/// A condition in words, or `None` for one that always holds.
pub open spec fn condition_words(cfg: Resolution, c: ConditionV) -> Option<Seq<char>>
    decreases c,
{
    match c {
        ConditionV::Always => None,
        ConditionV::Not(inner) => Some(
            "not ("@ + (match condition_words(cfg, *inner) {
                Some(words) => words,
                None => "always"@,
            }) + ")"@,
        ),
        ConditionV::And(cs) => joined_words(all_words(cfg, cs, cs.len()), " and "@),
        ConditionV::Or(cs) => joined_words(all_words(cfg, cs, cs.len()), " or "@),
        ConditionV::BoolEquals { device, kind, value } => Some(
            device_label(cfg, device) + " "@ + kind.spec_label() + " is "@ + truth_word(value),
        ),
        ConditionV::Compare { device, kind, op, value } => Some(
            device_label(cfg, device) + " "@ + kind.spec_label() + " "@ + op_symbol(op) + " "@
                + signed_decimal(value as int),
        ),
        ConditionV::ColorEquals { device, r, g, b } => Some(
            device_label(cfg, device) + " color is "@ + color_code(r, g, b),
        ),
    }
}

/// The words of the first `n` conditions, of those that have any.
pub open spec fn all_words(cfg: Resolution, cs: Seq<ConditionV>, n: nat) -> Seq<Seq<char>>
    decreases cs, n,
{
    if n == 0 || n > cs.len() {
        Seq::empty()
    } else {
        let before = all_words(cfg, cs, (n - 1) as nat);
        match condition_words(cfg, cs[n - 1]) {
            Some(words) => before.push(words),
            None => before,
        }
    }
}

pub open spec fn joined_words(words: Seq<Seq<char>>, sep: Seq<char>) -> Option<Seq<char>> {
    if words.len() == 0 {
        None
    } else {
        Some(joined(words, sep))
    }
}

fn join_words(words: Vec<String>, sep: &str) -> (r: Option<String>)
    ensures
        opt_text(r) == joined_words(texts(words@), sep@),
{
    if words.len() == 0 {
        None
    } else {
        Some(join(&words, sep))
    }
}

fn describe_condition(cfg: &CompiledConfig, c: &Condition) -> (r: Option<String>)
    ensures
        opt_text(r) == condition_words(cfg@, c@),
    decreases c,
{
    match c {
        Condition::Always => None,
        Condition::Not(inner) => {
            let words = match describe_condition(cfg, inner) {
                Some(words) => words,
                None => "always".to_owned(),
            };
            Some(cat3("not (", words.as_str(), ")"))
        },
        Condition::And(cs) => {
            let mut out: Vec<String> = Vec::new();
            let mut i: usize = 0;
            let ghost all = condition_views(*cs, cs@.len());
            proof {
                lemma_condition_at(*cs, cs@.len());
                assert(texts(out@) =~= all_words(cfg@, all, 0));
            }
            while i < cs.len()
                invariant
                    i <= cs@.len(),
                    all.len() == cs@.len(),
                    forall|k: int| 0 <= k < all.len() ==> #[trigger] all[k] == cs@[k]@,
                    texts(out@) == all_words(cfg@, all, i as nat),
                    decreases_to!(c => cs),
                decreases cs@.len() - i,
            {
                assert(all[i as int] == cs@[i as int]@);
                let ghost before = texts(out@);
                if let Some(words) = describe_condition(cfg, &cs[i]) {
                    let ghost said = words@;
                    out.push(words);
                    assert(texts(out@) =~= before.push(said));
                }
                i += 1;
            }
            join_words(out, " and ")
        },
        Condition::Or(cs) => {
            let mut out: Vec<String> = Vec::new();
            let mut i: usize = 0;
            let ghost all = condition_views(*cs, cs@.len());
            proof {
                lemma_condition_at(*cs, cs@.len());
                assert(texts(out@) =~= all_words(cfg@, all, 0));
            }
            while i < cs.len()
                invariant
                    i <= cs@.len(),
                    all.len() == cs@.len(),
                    forall|k: int| 0 <= k < all.len() ==> #[trigger] all[k] == cs@[k]@,
                    texts(out@) == all_words(cfg@, all, i as nat),
                    decreases_to!(c => cs),
                decreases cs@.len() - i,
            {
                assert(all[i as int] == cs@[i as int]@);
                let ghost before = texts(out@);
                if let Some(words) = describe_condition(cfg, &cs[i]) {
                    let ghost said = words@;
                    out.push(words);
                    assert(texts(out@) =~= before.push(said));
                }
                i += 1;
            }
            join_words(out, " or ")
        },
        Condition::BoolEquals { device, kind, value } => {
            let who = dev_name(cfg, *device);
            Some(cat5(who.as_str(), " ", kind.label(), " is ", bool_text(*value)))
        },
        Condition::Compare { device, kind, op, value } => {
            let who = dev_name(cfg, *device);
            let n = signed_decimal_text(*value);
            let mut s = cat5(who.as_str(), " ", kind.label(), " ", op_text(*op));
            s.append(" ");
            s.append(n.as_str());
            Some(s)
        },
        Condition::ColorEquals { device, r, g, b } => {
            let who = dev_name(cfg, *device);
            let code = color_text(*r, *g, *b);
            Some(cat3(who.as_str(), " color is ", code.as_str()))
        },
    }
}

/// How long a change takes.
pub open spec fn over(transition: Option<Millis>) -> Seq<char> {
    match transition {
        Some(ms) => " over "@ + decimal(ms as nat) + "ms"@,
        None => Seq::empty(),
    }
}

fn over_text(transition: Option<Millis>) -> (r: String)
    ensures
        r@ == over(transition),
{
    match transition {
        Some(ms) => {
            let n = decimal_text(ms);
            cat3(" over ", n.as_str(), "ms")
        },
        None => {
            let r = String::new();
            assert(r@ =~= Seq::empty());
            r
        },
    }
}

/// A command in words.
pub open spec fn command_words(cfg: Resolution, c: CommandV) -> Seq<char> {
    match c {
        CommandV::SetSwitch { device, on } => "set "@ + device_label(cfg, device) + (if on {
            " on"@
        } else {
            " off"@
        }),
        CommandV::ToggleSwitch { device } => "toggle "@ + device_label(cfg, device),
        CommandV::SetBrightness { device, value, transition } => "set "@ + device_label(
            cfg,
            device,
        ) + " brightness to "@ + decimal(value as nat) + "%"@ + over(transition),
        CommandV::DecreaseBrightness { device, value } => "decrease "@ + device_label(cfg, device)
            + " brightness by "@ + decimal(value as nat),
        CommandV::IncreaseBrightness { device, value } => "increase "@ + device_label(cfg, device)
            + " brightness by "@ + decimal(value as nat),
        CommandV::SetColor { device, r, g, b, transition } => "set "@ + device_label(cfg, device)
            + " color to "@ + color_code(r, g, b) + over(transition),
        CommandV::SetColorTemperature { device, mireds, transition } => "set "@ + device_label(
            cfg,
            device,
        ) + " color temp to "@ + decimal(mireds as nat) + " mired"@ + over(transition),
        CommandV::SendIrCode { device, code } => "send IR code '"@ + code + "' to "@ + device_label(
            cfg,
            device,
        ),
        CommandV::ActivateScene { .. } => "activate a scene"@,
        CommandV::ScheduleTimer { .. } => "schedule a timer"@,
        CommandV::CancelTimer { .. } => "cancel a timer"@,
    }
}

fn describe_command(cfg: &CompiledConfig, cmd: &Command) -> (r: String)
    ensures
        r@ == command_words(cfg@, cmd@),
{
    match cmd {
        Command::SetSwitch { device, on } => {
            let who = dev_name(cfg, *device);
            cat3(
                "set ",
                who.as_str(),
                if *on {
                    " on"
                } else {
                    " off"
                },
            )
        },
        Command::ToggleSwitch { device } => {
            let who = dev_name(cfg, *device);
            cat2("toggle ", who.as_str())
        },
        Command::SetBrightness { device, value, transition } => {
            let who = dev_name(cfg, *device);
            let n = decimal_text(*value as u64);
            let tail = over_text(*transition);
            let mut s = cat5("set ", who.as_str(), " brightness to ", n.as_str(), "%");
            s.append(tail.as_str());
            s
        },
        Command::DecreaseBrightness { device, value } => {
            let who = dev_name(cfg, *device);
            let n = decimal_text(*value as u64);
            cat4("decrease ", who.as_str(), " brightness by ", n.as_str())
        },
        Command::IncreaseBrightness { device, value } => {
            let who = dev_name(cfg, *device);
            let n = decimal_text(*value as u64);
            cat4("increase ", who.as_str(), " brightness by ", n.as_str())
        },
        Command::SetColor { device, r, g, b, transition } => {
            let who = dev_name(cfg, *device);
            let code = color_text(*r, *g, *b);
            let tail = over_text(*transition);
            cat5("set ", who.as_str(), " color to ", code.as_str(), tail.as_str())
        },
        Command::SetColorTemperature { device, mireds, transition } => {
            let who = dev_name(cfg, *device);
            let n = decimal_text(*mireds as u64);
            let tail = over_text(*transition);
            let mut s = cat5("set ", who.as_str(), " color temp to ", n.as_str(), " mired");
            s.append(tail.as_str());
            s
        },
        Command::SendIrCode { device, code } => {
            let who = dev_name(cfg, *device);
            cat4("send IR code '", code.as_str(), "' to ", who.as_str())
        },
        Command::ActivateScene { .. } => "activate a scene".to_owned(),
        Command::ScheduleTimer { .. } => "schedule a timer".to_owned(),
        Command::CancelTimer { .. } => "cancel a timer".to_owned(),
    }
}

/// What hovering over an edge shows: the command, then the rule's trigger, condition
/// (if any) and `for` duration.
pub open spec fn detail_words(cfg: Resolution, rule: RuleV, cmd: CommandV) -> Seq<char> {
    command_words(cfg, cmd) + "\ntrigger: "@ + trigger_words(cfg, rule.trigger) + (
    match condition_words(cfg, rule.condition) {
        Some(words) => "\nif: "@ + words,
        None => Seq::empty(),
    }) + (match rule.for_duration {
        Some(ms) => "\nfor: "@ + decimal(ms as nat) + "ms"@,
        None => Seq::empty(),
    })
}

fn edge_detail(cfg: &CompiledConfig, rule: &Rule, cmd: &Command) -> (r: String)
    ensures
        r@ == detail_words(cfg@, rule@, cmd@),
{
    let what = describe_command(cfg, cmd);
    let when = describe_trigger(cfg, &rule.trigger);
    let mut s = cat3(what.as_str(), "\ntrigger: ", when.as_str());
    let ghost head = s@;
    let ghost mut guard: Seq<char> = Seq::empty();
    if let Some(words) = describe_condition(cfg, &rule.condition) {
        let tail = cat2("\nif: ", words.as_str());
        s.append(tail.as_str());
        proof {
            guard = tail@;
        }
    } else {
        assert(s@ =~= head + guard);
    }
    let ghost so_far = s@;
    if let Some(ms) = rule.for_duration {
        let n = decimal_text(ms);
        let tail = cat3("\nfor: ", n.as_str(), "ms");
        s.append(tail.as_str());
    } else {
        assert(s@ =~= so_far + Seq::<char>::empty());
    }
    s
}

// ------------------------------------------------------------ the graph

/// A device, or the clock.
#[derive(Debug)]
pub struct Node {
    pub id: u32,
    pub label: String,
}

/// [`Node`] with its text as characters.
pub struct NodeV {
    pub id: u32,
    pub label: Seq<char>,
}

impl View for Node {
    type V = NodeV;

    open spec fn view(&self) -> NodeV {
        NodeV { id: self.id, label: self.label@ }
    }
}

/// One rule, from its trigger's device to a device that its commands act on.
#[derive(Debug)]
pub struct Edge {
    pub from: u32,
    pub to: u32,
    pub label: String,
    /// What the rule does, in several lines.
    pub detail: String,
}

/// [`Edge`] with its text as characters.
pub struct EdgeV {
    pub from: u32,
    pub to: u32,
    pub label: Seq<char>,
    pub detail: Seq<char>,
}

impl View for Edge {
    type V = EdgeV;

    open spec fn view(&self) -> EdgeV {
        EdgeV { from: self.from, to: self.to, label: self.label@, detail: self.detail@ }
    }
}

/// An owned view of the configuration's graph.
#[derive(Debug)]
pub struct GraphSnapshot {
    pub system_name: Option<String>,
    pub nodes: Vec<Node>,
    pub edges: Vec<Edge>,
}

/// [`GraphSnapshot`] with its text as characters.
pub struct GraphV {
    pub system_name: Option<Seq<char>>,
    pub nodes: Seq<NodeV>,
    pub edges: Seq<EdgeV>,
}

pub open spec fn node_views(s: Seq<Node>) -> Seq<NodeV> {
    s.map_values(|n: Node| n@)
}

pub open spec fn edge_views(s: Seq<Edge>) -> Seq<EdgeV> {
    s.map_values(|e: Edge| e@)
}

impl View for GraphSnapshot {
    type V = GraphV;

    open spec fn view(&self) -> GraphV {
        GraphV {
            system_name: opt_text(self.system_name),
            nodes: node_views(self.nodes@),
            edges: edge_views(self.edges@),
        }
    }
}

/// The device whose event fires a trigger, if any.
pub open spec fn source_device(t: TriggerV) -> Option<DeviceId> {
    match t {
        TriggerV::Action { device, .. } => Some(device),
        TriggerV::Changed { device, .. } => Some(device),
        TriggerV::Crosses { device, .. } => Some(device),
        TriggerV::Reports { device, .. } => Some(device),
        TriggerV::CommandFailed { device } => device,
        TriggerV::Timer { .. } => None,
        TriggerV::Time { .. } => None,
    }
}

/// The device whose event fires this trigger, if any. Timers, schedules and the
/// failure of any command have none: they originate at the clock.
pub fn trigger_device(t: &Trigger) -> (r: Option<DeviceId>)
    ensures
        r == source_device(t@),
{
    match t {
        Trigger::Action { device, .. } => Some(*device),
        Trigger::Changed { device, .. } => Some(*device),
        Trigger::Crosses { device, .. } => Some(*device),
        Trigger::Reports { device, .. } => Some(*device),
        Trigger::CommandFailed { device } => *device,
        Trigger::Timer { .. } => None,
        Trigger::Time { .. } => None,
    }
}

/// Where a rule's edges begin.
pub open spec fn edge_source(cfg: Resolution, r: RuleV) -> DeviceId {
    match source_device(r.trigger) {
        Some(d) => d,
        None => cfg.clock,
    }
}

/// The edges of a rule's first `n` commands: one for each that targets a device.
pub open spec fn rule_edges(cfg: Resolution, r: RuleV, n: nat) -> Seq<EdgeV>
    decreases n,
{
    if n == 0 || n > r.commands.len() {
        Seq::empty()
    } else {
        let before = rule_edges(cfg, r, (n - 1) as nat);
        match r.commands[n - 1].target() {
            Some(target) => before.push(
                EdgeV {
                    from: edge_source(cfg, r).0,
                    to: target.0,
                    label: r.name,
                    detail: detail_words(cfg, r, r.commands[n - 1]),
                },
            ),
            None => before,
        }
    }
}

/// The edges of the first `n` rules.
pub open spec fn graph_edges(cfg: Resolution, n: nat) -> Seq<EdgeV>
    decreases n,
{
    if n == 0 || n > cfg.rules.len() {
        Seq::empty()
    } else {
        graph_edges(cfg, (n - 1) as nat) + rule_edges(
            cfg,
            cfg.rules[n - 1],
            cfg.rules[n - 1].commands.len(),
        )
    }
}

/// Whether any edge begins at a node.
pub open spec fn begins_at(edges: Seq<EdgeV>, id: u32) -> bool {
    exists|i: int| 0 <= i < edges.len() && (#[trigger] edges[i]).from == id
}

/// The graph of a configuration: its devices, the clock if anything originates from
/// it, and its rules.
pub open spec fn graph_of(cfg: Resolution) -> GraphV {
    let devices = cfg.devices.map_values(|d: DeviceV| NodeV { id: d.id.0, label: d.name });
    let edges = graph_edges(cfg, cfg.rules.len());
    GraphV {
        system_name: cfg.system.name,
        nodes: if begins_at(edges, cfg.clock.0) {
            devices.push(NodeV { id: cfg.clock.0, label: "clock"@ })
        } else {
            devices
        },
        edges,
    }
}

fn add_edges(cfg: &CompiledConfig, rule: &Rule, edges: &mut Vec<Edge>)
    ensures
        edge_views(final(edges)@) == edge_views(old(edges)@) + rule_edges(
            cfg@,
            rule@,
            rule@.commands.len(),
        ),
{
    let ghost was = edge_views(edges@);
    let source = match trigger_device(&rule.trigger) {
        Some(d) => d,
        None => cfg.clock_device(),
    };
    let mut i: usize = 0;
    assert(was + rule_edges(cfg@, rule@, 0) =~= was);
    while i < rule.commands.len()
        invariant
            i <= rule.commands@.len(),
            source == edge_source(cfg@, rule@),
            edge_views(edges@) == was + rule_edges(cfg@, rule@, i as nat),
        decreases rule.commands@.len() - i,
    {
        let cmd = &rule.commands[i];
        let ghost before = edges@;
        assert(rule@.commands[i as int] == cmd@);
        if let Some(target) = cmd.target_device() {
            let edge = Edge {
                from: source.0,
                to: target.0,
                label: rule.name.clone(),
                detail: edge_detail(cfg, rule, cmd),
            };
            let ghost shown = edge@;
            edges.push(edge);
            assert(edge_views(edges@) =~= edge_views(before).push(shown));
            assert(edge_views(edges@) =~= was + rule_edges(cfg@, rule@, (i + 1) as nat));
        }
        i += 1;
    }
}

impl GraphSnapshot {
    /// Build the graph from a compiled configuration.
    pub fn from_config(cfg: &CompiledConfig) -> (r: GraphSnapshot)
        ensures
            r@ == graph_of(cfg@),
    {
        proof {
            cfg.view_is_public();
        }
        let clock = cfg.clock_device();
        let mut nodes: Vec<Node> = Vec::new();
        let mut i: usize = 0;
        while i < cfg.devices.len()
            invariant
                i <= cfg.devices@.len(),
                nodes@.len() == i,
                forall|j: int|
                    0 <= j < i ==> (#[trigger] nodes@[j])@ == (NodeV {
                        id: cfg.devices@[j].id.0,
                        label: cfg.devices@[j].name@,
                    }),
            decreases cfg.devices@.len() - i,
        {
            nodes.push(Node { id: cfg.devices[i].id.0, label: cfg.devices[i].name.clone() });
            i += 1;
        }
        let ghost devices = cfg@.devices.map_values(
            |d: DeviceV| NodeV { id: d.id.0, label: d.name },
        );
        assert(node_views(nodes@) =~= devices);
        let mut edges: Vec<Edge> = Vec::new();
        let mut k: usize = 0;
        assert(edge_views(edges@) =~= graph_edges(cfg@, 0));
        while k < cfg.rules.len()
            invariant
                k <= cfg.rules@.len(),
                cfg@.rules == crate::compile::resolve::rule_views(cfg.rules@),
                edge_views(edges@) == graph_edges(cfg@, k as nat),
            decreases cfg.rules@.len() - k,
        {
            assert(cfg@.rules[k as int] == cfg.rules@[k as int]@);
            add_edges(cfg, &cfg.rules[k], &mut edges);
            k += 1;
        }
        let ghost all = edge_views(edges@);
        let mut clock_used = false;
        let mut m: usize = 0;
        while m < edges.len()
            invariant
                m <= edges@.len(),
                all == edge_views(edges@),
                clock_used == exists|j: int| 0 <= j < m && (#[trigger] all[j]).from == clock.0,
            decreases edges@.len() - m,
        {
            assert(all[m as int].from == edges@[m as int].from);
            if edges[m].from == clock.0 {
                clock_used = true;
            }
            m += 1;
        }
        if clock_used {
            let ghost before = nodes@;
            nodes.push(Node { id: clock.0, label: "clock".to_owned() });
            assert(node_views(nodes@) =~= devices.push(NodeV { id: clock.0, label: "clock"@ }));
        }
        GraphSnapshot {
            system_name: match &cfg.system.name {
                Some(s) => Some(s.clone()),
                None => None,
            },
            nodes,
            edges,
        }
    }
}

// ------------------------------------------------------------ clusters

/// Whether a node has an id.
pub open spec fn has_node(nodes: Seq<NodeV>, id: u32) -> bool {
    exists|i: int| 0 <= i < nodes.len() && (#[trigger] nodes[i]).id == id
}

/// Whether both ends of an edge are nodes.
pub open spec fn is_inside(g: GraphV, e: EdgeV) -> bool {
    has_node(g.nodes, e.from) && has_node(g.nodes, e.to)
}

/// Whether the first `n` edges connect two ids, in whatever direction.
pub open spec fn connected(g: GraphV, n: nat, x: u32, y: u32) -> bool
    decreases n,
{
    if n == 0 || n > g.edges.len() {
        x == y
    } else {
        let e = g.edges[n - 1];
        let m = (n - 1) as nat;
        connected(g, m, x, y) || is_inside(g, e) && (connected(g, m, x, e.from) && connected(
            g,
            m,
            e.to,
            y,
        ) || connected(g, m, x, e.to) && connected(g, m, e.from, y))
    }
}

/// Whether one of the first `n` edges begins or ends at an id.
pub open spec fn touched(g: GraphV, n: nat, id: u32) -> bool {
    exists|i: int|
        0 <= i < n && i < g.edges.len() && is_inside(g, #[trigger] g.edges[i]) && (g.edges[i].from
            == id || g.edges[i].to == id)
}

/// Whether a node is touched by a rule, and no node before it is connected to it: it
/// stands for its cluster.
pub open spec fn leads_cluster(g: GraphV, i: int) -> bool {
    touched(g, g.edges.len(), g.nodes[i].id) && forall|j: int|
        0 <= j < i ==> !connected(g, g.edges.len(), (#[trigger] g.nodes[j]).id, g.nodes[i].id)
}

/// The clusters among the first `n` nodes.
pub open spec fn clusters_among(g: GraphV, n: nat) -> nat
    decreases n,
{
    if n == 0 {
        0
    } else {
        clusters_among(g, (n - 1) as nat) + if leads_cluster(g, n - 1) {
            1nat
        } else {
            0
        }
    }
}

/// The nodes among the first `n` that no rule touches.
pub open spec fn orphans_among(g: GraphV, n: nat) -> nat
    decreases n,
{
    if n == 0 {
        0
    } else {
        orphans_among(g, (n - 1) as nat) + if touched(g, g.edges.len(), g.nodes[n - 1].id) {
            0nat
        } else {
            1
        }
    }
}

fn find_node(nodes: &Vec<Node>, id: u32) -> (r: Option<usize>)
    ensures
        match r {
            Some(i) => i < nodes@.len() && nodes@[i as int].id == id && has_node(
                node_views(nodes@),
                id,
            ),
            None => !has_node(node_views(nodes@), id),
        },
{
    let ghost all = node_views(nodes@);
    let mut i: usize = 0;
    while i < nodes.len()
        invariant
            i <= nodes@.len(),
            all == node_views(nodes@),
            forall|j: int| 0 <= j < i ==> (#[trigger] all[j]).id != id,
        decreases nodes@.len() - i,
    {
        assert(all[i as int].id == nodes@[i as int].id);
        if nodes[i].id == id {
            return Some(i);
        }
        i += 1;
    }
    None
}

/// Give all that carry one label another.
fn relabel(labels: &mut Vec<u32>, was: u32, now: u32)
    ensures
        final(labels)@.len() == old(labels)@.len(),
        forall|i: int|
            0 <= i < final(labels)@.len() ==> #[trigger] final(labels)@[i] == if old(labels)@[i]
                == was {
                now
            } else {
                old(labels)@[i]
            },
{
    let ghost before = labels@;
    let mut i: usize = 0;
    while i < labels.len()
        invariant
            i <= labels@.len() == before.len(),
            forall|j: int|
                0 <= j < i ==> #[trigger] labels@[j] == if before[j] == was {
                    now
                } else {
                    before[j]
                },
            forall|j: int| i <= j < before.len() ==> #[trigger] labels@[j] == before[j],
        decreases labels@.len() - i,
    {
        if labels[i] == was {
            labels.set(i, now);
        }
        i += 1;
    }
}

/// Two nodes carry one label exactly when the first `n` edges connect them.
spec fn labelled(g: GraphV, labels: Seq<u32>, n: nat) -> bool {
    &&& labels.len() == g.nodes.len()
    &&& forall|i: int, j: int|
        0 <= i < labels.len() && 0 <= j < labels.len() ==> (#[trigger] labels[i]
            == #[trigger] labels[j] <==> connected(g, n, g.nodes[i].id, g.nodes[j].id))
}

proof fn lemma_label_step(
    g: GraphV,
    labels: Seq<u32>,
    after: Seq<u32>,
    n: nat,
    a: int,
    b: int,
)
    requires
        n < g.edges.len(),
        labelled(g, labels, n),
        0 <= a < labels.len(),
        0 <= b < labels.len(),
        g.nodes[a].id == g.edges[n as int].from,
        g.nodes[b].id == g.edges[n as int].to,
        after.len() == labels.len(),
        forall|i: int|
            0 <= i < after.len() ==> #[trigger] after[i] == if labels[i] == labels[b] {
                labels[a]
            } else {
                labels[i]
            },
    ensures
        labelled(g, after, n + 1),
{
    let e = g.edges[n as int];
    assert(has_node(g.nodes, e.from));
    assert(has_node(g.nodes, e.to));
    assert forall|i: int, j: int|
        0 <= i < after.len() && 0 <= j < after.len() implies (#[trigger] after[i]
        == #[trigger] after[j] <==> connected(g, n + 1, g.nodes[i].id, g.nodes[j].id)) by {
        let x = g.nodes[i].id;
        let y = g.nodes[j].id;
        assert(labels[i] == labels[j] <==> connected(g, n, x, y));
        assert(labels[i] == labels[a] <==> connected(g, n, x, e.from));
        assert(labels[i] == labels[b] <==> connected(g, n, x, e.to));
        assert(labels[b] == labels[j] <==> connected(g, n, e.to, y));
        assert(labels[a] == labels[j] <==> connected(g, n, e.from, y));
    }
}

/// Connectivity of a graph: the number of clusters that rules connect, and of devices
/// that no rule references at all. They answer how much of the home is one connected
/// system, and which devices are inert.
pub fn cluster_stats(g: &GraphSnapshot) -> (r: (usize, usize))
    ensures
        r.0 == clusters_among(g@, g@.nodes.len()),
        r.1 == orphans_among(g@, g@.nodes.len()),
{
    let ghost v = g@;
    let mut labels: Vec<u32> = Vec::new();
    let mut seen: Vec<bool> = Vec::new();
    let mut i: usize = 0;
    while i < g.nodes.len()
        invariant
            i <= g.nodes@.len(),
            labels@.len() == i,
            seen@.len() == i,
            forall|j: int| 0 <= j < i ==> #[trigger] labels@[j] == g.nodes@[j].id,
            forall|j: int| 0 <= j < i ==> !#[trigger] seen@[j],
        decreases g.nodes@.len() - i,
    {
        labels.push(g.nodes[i].id);
        seen.push(false);
        i += 1;
    }
    assert(labelled(v, labels@, 0));
    let mut k: usize = 0;
    while k < g.edges.len()
        invariant
            k <= g.edges@.len(),
            v == g@,
            labelled(v, labels@, k as nat),
            seen@.len() == v.nodes.len(),
            forall|j: int|
                0 <= j < seen@.len() ==> (#[trigger] seen@[j] <==> touched(
                    v,
                    k as nat,
                    v.nodes[j].id,
                )),
        decreases g.edges@.len() - k,
    {
        let from: u32 = g.edges[k].from;
        let to: u32 = g.edges[k].to;
        let ghost e = v.edges[k as int];
        assert(e.from == from && e.to == to);
        let ghost before = labels@;
        let ghost saw = seen@;
        let a = find_node(&g.nodes, from);
        let b = find_node(&g.nodes, to);
        if let (Some(a), Some(b)) = (a, b) {
            let la: u32 = labels[a];
            let lb: u32 = labels[b];
            relabel(&mut labels, lb, la);
            proof {
                lemma_label_step(v, before, labels@, k as nat, a as int, b as int);
                assert(is_inside(v, e));
            }
            let mut m: usize = 0;
            while m < seen.len()
                invariant
                    m <= seen@.len() == saw.len(),
                    saw.len() == v.nodes.len(),
                    v == g@,
                    forall|j: int|
                        0 <= j < m ==> (#[trigger] seen@[j] <==> saw[j] || v.nodes[j].id == from
                            || v.nodes[j].id == to),
                    forall|j: int| m <= j < saw.len() ==> #[trigger] seen@[j] == saw[j],
                decreases seen@.len() - m,
            {
                assert(v.nodes[m as int].id == g.nodes@[m as int].id);
                if g.nodes[m].id == from || g.nodes[m].id == to {
                    seen.set(m, true);
                }
                m += 1;
            }
            proof {
                assert forall|j: int| 0 <= j < seen@.len() implies (#[trigger] seen@[j]
                    <==> touched(v, (k + 1) as nat, v.nodes[j].id)) by {
                    lemma_touched_step(v, k as nat, v.nodes[j].id);
                }
            }
        } else {
            proof {
                assert(!is_inside(v, e));
                assert forall|x: u32, y: u32|
                    connected(v, (k + 1) as nat, x, y) == connected(v, k as nat, x, y) by {}
                assert forall|j: int| 0 <= j < seen@.len() implies (#[trigger] seen@[j]
                    <==> touched(v, (k + 1) as nat, v.nodes[j].id)) by {
                    lemma_touched_step(v, k as nat, v.nodes[j].id);
                }
            }
        }
        k += 1;
    }
    let mut clusters: usize = 0;
    let mut orphans: usize = 0;
    let mut p: usize = 0;
    while p < g.nodes.len()
        invariant
            p <= g.nodes@.len(),
            v == g@,
            labelled(v, labels@, v.edges.len()),
            seen@.len() == v.nodes.len(),
            forall|j: int|
                0 <= j < seen@.len() ==> (#[trigger] seen@[j] <==> touched(
                    v,
                    v.edges.len(),
                    v.nodes[j].id,
                )),
            clusters == clusters_among(v, p as nat),
            orphans == orphans_among(v, p as nat),
            clusters <= p,
            orphans <= p,
        decreases g.nodes@.len() - p,
    {
        if !seen[p] {
            orphans += 1;
        } else {
            let mut q: usize = 0;
            let mut first = true;
            while q < p
                invariant
                    q <= p < labels@.len(),
                    first == forall|j: int| 0 <= j < q ==> #[trigger] labels@[j] != labels@[p as int],
                decreases p - q,
            {
                if labels[q] == labels[p] {
                    first = false;
                }
                q += 1;
            }
            if first {
                clusters += 1;
            }
            proof {
                if first {
                    assert forall|j: int| 0 <= j < p implies !connected(
                        v,
                        v.edges.len(),
                        (#[trigger] v.nodes[j]).id,
                        v.nodes[p as int].id,
                    ) by {
                        assert(labels@[j] != labels@[p as int]);
                    }
                } else {
                    let j = choose|j: int| 0 <= j < p && #[trigger] labels@[j] == labels@[p as int];
                    assert(connected(v, v.edges.len(), v.nodes[j].id, v.nodes[p as int].id));
                }
            }
        }
        p += 1;
    }
    (clusters, orphans)
}

proof fn lemma_touched_step(g: GraphV, n: nat, id: u32)
    requires
        n < g.edges.len(),
    ensures
        touched(g, n + 1, id) <==> touched(g, n, id) || is_inside(g, g.edges[n as int]) && (
        g.edges[n as int].from == id || g.edges[n as int].to == id),
{
    if touched(g, n, id) {
        let i = choose|i: int|
            0 <= i < n && i < g.edges.len() && is_inside(g, #[trigger] g.edges[i]) && (
            g.edges[i].from == id || g.edges[i].to == id);
        assert(is_inside(g, g.edges[i]));
    }
}

/// Being connected goes both ways.
pub proof fn connection_is_mutual(g: GraphV, n: nat, x: u32, y: u32)
    requires
        connected(g, n, x, y),
    ensures
        connected(g, n, y, x),
    decreases n,
{
    if 0 < n && n <= g.edges.len() {
        let e = g.edges[n - 1];
        let m = (n - 1) as nat;
        if connected(g, m, x, y) {
            connection_is_mutual(g, m, x, y);
        } else if connected(g, m, x, e.from) && connected(g, m, e.to, y) {
            connection_is_mutual(g, m, x, e.from);
            connection_is_mutual(g, m, e.to, y);
        } else {
            connection_is_mutual(g, m, x, e.to);
            connection_is_mutual(g, m, e.from, y);
        }
    }
}

/// What is connected to a third is connected.
pub proof fn connection_chains(g: GraphV, n: nat, x: u32, y: u32, z: u32)
    requires
        connected(g, n, x, y),
        connected(g, n, y, z),
    ensures
        connected(g, n, x, z),
    decreases n,
{
    if 0 < n && n <= g.edges.len() {
        let e = g.edges[n - 1];
        let m = (n - 1) as nat;
        if connected(g, m, x, y) {
            if connected(g, m, y, z) {
                connection_chains(g, m, x, y, z);
            } else if connected(g, m, y, e.from) && connected(g, m, e.to, z) {
                connection_chains(g, m, x, y, e.from);
            } else {
                connection_chains(g, m, x, y, e.to);
            }
        } else if connected(g, m, x, e.from) && connected(g, m, e.to, y) {
            if connected(g, m, y, z) {
                connection_chains(g, m, e.to, y, z);
            } else if !(connected(g, m, y, e.from) && connected(g, m, e.to, z)) {
                connection_chains(g, m, x, e.from, z);
            }
        } else {
            if connected(g, m, y, z) {
                connection_chains(g, m, e.from, y, z);
            } else if connected(g, m, y, e.from) && connected(g, m, e.to, z) {
                connection_chains(g, m, x, e.to, z);
            }
        }
    }
}

// ------------------------------------------------------------ the page

/// A character as HTML text.
pub open spec fn escaped_char(c: char) -> Seq<char> {
    if c == '&' {
        "&amp;"@
    } else if c == '<' {
        "&lt;"@
    } else if c == '>' {
        "&gt;"@
    } else {
        seq![c]
    }
}

/// A text as HTML text.
pub open spec fn escaped(s: Seq<char>) -> Seq<char>
    decreases s.len(),
{
    if s.len() == 0 {
        Seq::empty()
    } else {
        escaped(s.drop_last()) + escaped_char(s.last())
    }
}

/// Escape the few characters that matter in HTML text.
pub fn html_escape(s: &str) -> (r: String)
    ensures
        r@ == escaped(s@),
{
    let cs = chars_of(s);
    let mut out = String::new();
    let mut i: usize = 0;
    assert(out@ =~= escaped(s@.take(0)));
    while i < cs.len()
        invariant
            i <= cs@.len(),
            cs@ == s@,
            out@ == escaped(s@.take(i as int)),
        decreases cs@.len() - i,
    {
        let c = cs[i];
        let ghost before = out@;
        assert(s@.take(i + 1).drop_last() =~= s@.take(i as int));
        if c == '&' {
            out.append("&amp;");
        } else if c == '<' {
            out.append("&lt;");
        } else if c == '>' {
            out.append("&gt;");
        } else {
            push_char(&mut out, c);
            assert(out@ =~= before + seq![c]);
        }
        i += 1;
    }
    assert(s@.take(i as int) =~= s@);
    out
}

/// A text without `<`, as it may stand inside a script element: `<` is written as its
/// JSON escape, which reads back as `<`.
pub open spec fn inert(s: Seq<char>) -> Seq<char>
    decreases s.len(),
{
    if s.len() == 0 {
        Seq::empty()
    } else {
        inert(s.drop_last()) + if s.last() == '<' {
            "\\u003c"@
        } else {
            seq![s.last()]
        }
    }
}

fn make_inert(s: &str) -> (r: String)
    ensures
        r@ == inert(s@),
{
    let cs = chars_of(s);
    let mut out = String::new();
    let mut i: usize = 0;
    assert(out@ =~= inert(s@.take(0)));
    while i < cs.len()
        invariant
            i <= cs@.len(),
            cs@ == s@,
            out@ == inert(s@.take(i as int)),
        decreases cs@.len() - i,
    {
        let c = cs[i];
        let ghost before = out@;
        assert(s@.take(i + 1).drop_last() =~= s@.take(i as int));
        if c == '<' {
            out.append("\\u003c");
        } else {
            push_char(&mut out, c);
            assert(out@ =~= before + seq![c]);
        }
        i += 1;
    }
    assert(s@.take(i as int) =~= s@);
    out
}

/// No element can end early: what is inert holds no `<`.
pub proof fn inert_holds_no_tag(s: Seq<char>)
    ensures
        !inert(s).contains('<'),
        !escaped(s).contains('<'),
        !escaped(s).contains('>'),
    decreases s.len(),
{
    reveal_strlit("\\u003c");
    reveal_strlit("&amp;");
    reveal_strlit("&lt;");
    reveal_strlit("&gt;");
    if s.len() > 0 {
        inert_holds_no_tag(s.drop_last());
        let a = inert(s.drop_last());
        let b = if s.last() == '<' {
            "\\u003c"@
        } else {
            seq![s.last()]
        };
        assert forall|i: int| 0 <= i < inert(s).len() implies inert(s)[i] != '<' by {
            if i < a.len() {
                assert(a.contains(a[i]));
            } else {
                assert(inert(s)[i] == b[i - a.len()]);
            }
        }
        let x = escaped(s.drop_last());
        let y = escaped_char(s.last());
        assert forall|i: int| 0 <= i < escaped(s).len() implies escaped(s)[i] != '<' && escaped(
            s,
        )[i] != '>' by {
            if i < x.len() {
                assert(x.contains(x[i]));
            } else {
                assert(escaped(s)[i] == y[i - x.len()]);
            }
        }
    }
}

/// A node as JSON text.
pub open spec fn node_json(n: NodeV) -> Seq<char> {
    "{\"id\":"@ + decimal(n.id as nat) + ",\"label\":"@ + json_text(JsonV::Text(n.label)) + "}"@
}

/// An edge as JSON text.
pub open spec fn edge_json(e: EdgeV) -> Seq<char> {
    "{\"from\":"@ + decimal(e.from as nat) + ",\"to\":"@ + decimal(e.to as nat) + ",\"label\":"@
        + json_text(JsonV::Text(e.label)) + ",\"detail\":"@ + json_text(JsonV::Text(e.detail))
        + "}"@
}

/// The graph as JSON text.
pub open spec fn graph_json(g: GraphV) -> Seq<char> {
    "{\"system_name\":"@ + json_text(
        match g.system_name {
            Some(s) => JsonV::Text(s),
            None => JsonV::Null,
        },
    ) + ",\"nodes\":["@ + joined(g.nodes.map_values(|n: NodeV| node_json(n)), ","@)
        + "],\"edges\":["@ + joined(g.edges.map_values(|e: EdgeV| edge_json(e)), ","@) + "]}"@
}

fn text_json(s: &String) -> (r: String)
    ensures
        r@ == json_text(JsonV::Text(s@)),
{
    write_json(&Json::Text(s.clone()))
}

fn nodes_text(nodes: &Vec<Node>) -> (r: String)
    ensures
        r@ == joined(node_views(nodes@).map_values(|n: NodeV| node_json(n)), ","@),
{
    let mut out: Vec<String> = Vec::new();
    let mut i: usize = 0;
    while i < nodes.len()
        invariant
            i <= nodes@.len(),
            out@.len() == i,
            forall|j: int| 0 <= j < i ==> (#[trigger] out@[j])@ == node_json(nodes@[j]@),
        decreases nodes@.len() - i,
    {
        let id = decimal_text(nodes[i].id as u64);
        let label = text_json(&nodes[i].label);
        out.push(cat5("{\"id\":", id.as_str(), ",\"label\":", label.as_str(), "}"));
        i += 1;
    }
    assert(texts(out@) =~= node_views(nodes@).map_values(|n: NodeV| node_json(n)));
    join(&out, ",")
}

fn edges_text(edges: &Vec<Edge>) -> (r: String)
    ensures
        r@ == joined(edge_views(edges@).map_values(|e: EdgeV| edge_json(e)), ","@),
{
    let mut out: Vec<String> = Vec::new();
    let mut i: usize = 0;
    while i < edges.len()
        invariant
            i <= edges@.len(),
            out@.len() == i,
            forall|j: int| 0 <= j < i ==> (#[trigger] out@[j])@ == edge_json(edges@[j]@),
        decreases edges@.len() - i,
    {
        let from = decimal_text(edges[i].from as u64);
        let to = decimal_text(edges[i].to as u64);
        let label = text_json(&edges[i].label);
        let detail = text_json(&edges[i].detail);
        let mut s = cat5("{\"from\":", from.as_str(), ",\"to\":", to.as_str(), ",\"label\":");
        s.append(label.as_str());
        s.append(",\"detail\":");
        s.append(detail.as_str());
        s.append("}");
        out.push(s);
        i += 1;
    }
    assert(texts(out@) =~= edge_views(edges@).map_values(|e: EdgeV| edge_json(e)));
    join(&out, ",")
}

fn graph_text(g: &GraphSnapshot) -> (r: String)
    ensures
        r@ == graph_json(g@),
{
    let name = write_json(
        &match &g.system_name {
            Some(s) => Json::Text(s.clone()),
            None => Json::Null,
        },
    );
    let nodes = nodes_text(&g.nodes);
    let edges = edges_text(&g.edges);
    let mut s = cat5(
        "{\"system_name\":",
        name.as_str(),
        ",\"nodes\":[",
        nodes.as_str(),
        "],\"edges\":[",
    );
    s.append(edges.as_str());
    s.append("]}");
    s
}

/// The title of the page.
pub open spec fn page_title(g: GraphV) -> Seq<char> {
    match g.system_name {
        Some(s) => s,
        None => "domiform"@,
    }
}

/// The counts in the page's header.
pub open spec fn counts_line(g: GraphV) -> Seq<char> {
    decimal(g.nodes.len()) + " device(s) · "@ + decimal(g.edges.len()) + " rule edge(s) · "@
        + decimal(clusters_among(g, g.nodes.len())) + " cluster(s) · "@ + decimal(
        orphans_among(g, g.nodes.len()),
    ) + " unconnected"@
}

/// The page up to the end of its header.
pub open spec fn page_head(g: GraphV, style: Seq<char>) -> Seq<char> {
    "<!doctype html>\n<html lang=\"en\">\n<head>\n<meta charset=\"utf-8\">\n<meta name=\"viewport\" content=\"width=device-width, initial-scale=1\">\n<title>"@
        + escaped(page_title(g)) + " — domiform</title>\n<style>"@ + style
        + "</style>\n</head>\n<body>\n<header><h1>"@ + escaped(page_title(g)) + "</h1><p>"@
        + counts_line(g)
        + " — click a device to trace what it triggers · hover an edge for its rule &amp; parameters · scroll to zoom · drag to pan · double-click to fit</p></header>\n"@
}

/// The whole page.
pub open spec fn page(g: GraphV, style: Seq<char>, script: Seq<char>) -> Seq<char> {
    if g.nodes.len() == 0 {
        page_head(g, style)
            + "<main><p class=\"empty\">No devices configured.</p></main>\n</body>\n</html>\n"@
    } else {
        page_head(g, style)
            + "<svg id=\"graph\"></svg>\n<script src=\"/dagre.js\"></script>\n<script id=\"graph-data\" type=\"application/json\">"@
            + inert(graph_json(g)) + "</script>\n<script>"@ + script
            + "</script>\n</body>\n</html>\n"@
    }
}

fn counts_text(g: &GraphSnapshot) -> (r: String)
    ensures
        r@ == counts_line(g@),
{
    let (clusters, orphans) = cluster_stats(g);
    let nodes = decimal_text(g.nodes.len() as u64);
    let edges = decimal_text(g.edges.len() as u64);
    let connected = decimal_text(clusters as u64);
    let alone = decimal_text(orphans as u64);
    let mut s = cat5(
        nodes.as_str(),
        " device(s) · ",
        edges.as_str(),
        " rule edge(s) · ",
        connected.as_str(),
    );
    s.append(" cluster(s) · ");
    s.append(alone.as_str());
    s.append(" unconnected");
    s
}

/// Render the page: the graph as inert JSON beside the style sheet and the script that
/// draws it.
pub fn render_page(g: &GraphSnapshot, style: &str, script: &str) -> (r: String)
    ensures
        r@ == page(g@, style@, script@),
{
    let title = match &g.system_name {
        Some(s) => html_escape(s.as_str()),
        None => html_escape("domiform"),
    };
    let counts = counts_text(g);
    let mut html = cat5(
        "<!doctype html>\n<html lang=\"en\">\n<head>\n<meta charset=\"utf-8\">\n<meta name=\"viewport\" content=\"width=device-width, initial-scale=1\">\n<title>",
        title.as_str(),
        " — domiform</title>\n<style>",
        style,
        "</style>\n</head>\n<body>\n<header><h1>",
    );
    html.append(title.as_str());
    html.append("</h1><p>");
    html.append(counts.as_str());
    html.append(
        " — click a device to trace what it triggers · hover an edge for its rule &amp; parameters · scroll to zoom · drag to pan · double-click to fit</p></header>\n",
    );
    assert(html@ == page_head(g@, style@));
    if g.nodes.len() == 0 {
        html.append(
            "<main><p class=\"empty\">No devices configured.</p></main>\n</body>\n</html>\n",
        );
        return html;
    }
    let json = graph_text(g);
    let data = make_inert(json.as_str());
    html.append(
        "<svg id=\"graph\"></svg>\n<script src=\"/dagre.js\"></script>\n<script id=\"graph-data\" type=\"application/json\">",
    );
    html.append(data.as_str());
    html.append("</script>\n<script>");
    html.append(script);
    html.append("</script>\n</body>\n</html>\n");
    html
}

/// What the page's server holds.
#[derive(Clone, Copy, Debug, PartialEq, Eq, Structural)]
pub enum Asset {
    Page,
    Layout,
    Missing,
}

/// What a path of the page's server stands for.
pub fn asset_at(url: &str) -> (r: Asset)
    ensures
        r == if url@ == "/"@ {
            Asset::Page
        } else if url@ == "/dagre.js"@ {
            Asset::Layout
        } else {
            Asset::Missing
        },
{
    if crate::text::same(url, "/") {
        Asset::Page
    } else if crate::text::same(url, "/dagre.js") {
        Asset::Layout
    } else {
        Asset::Missing
    }
}

} // verus!
