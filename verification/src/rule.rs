//! Rules: `trigger + condition + commands`.
//!
//! A rule fires when an incoming event matches its `trigger` AND its `condition`
//! (a small predicate algebra over the current state store) holds. It then emits
//! its `commands`. Rules are pure with respect to the state store and the
//! triggering event, which makes them independently testable.

use vstd::prelude::*;

use crate::ids::{ActionId, DeviceId, RuleId, ScheduleId};
use crate::model::{
    clone_commands, command_views, CapabilityKind, CapabilityState, Command, CommandV, Event,
    EventV, Millis, TimerKey,
};
use crate::state::{known_bool, known_int, known_state, reported, Known, StateStore};
use crate::table::Key;

verus! {

/// Direction of a numeric threshold crossing for a `Crosses` trigger.
#[derive(Clone, Copy, Debug, PartialEq, Eq, Structural)]
pub enum CrossDir {
    /// Fire when the value moves from below the bound to at or above it.
    Above,
    /// Fire when the value moves from above the bound to at or below it.
    Below,
}

impl CrossDir {
    /// Whether a value is on the far side of the bound.
    pub open spec fn beyond(self, v: i64, bound: i64) -> bool {
        match self {
            CrossDir::Above => v >= bound,
            CrossDir::Below => v <= bound,
        }
    }

    fn satisfied(self, v: i64, bound: i64) -> (r: bool)
        ensures
            r == self.beyond(v, bound),
    {
        match self {
            CrossDir::Above => v >= bound,
            CrossDir::Below => v <= bound,
        }
    }
}

/// What kind of event wakes a rule. `Timer` and `Time` make scheduler events
/// first-class triggers, identical in shape to physical events.
///
/// The on-change family (`Changed`, `Crosses`, `Reports`) matches state reports:
/// occupancy, contact, temperature and every other stateful capability ride the
/// same event. Edge triggers (`Changed`, `Crosses`) need the *prior* stored value
/// to detect a transition. A first-ever report that satisfies the predicate
/// **counts as an edge**: "already hot at boot, so turn on the fan".
#[derive(Debug)]
#[allow(inconsistent_fields)]
pub enum Trigger {
    Action { device: DeviceId, action: ActionId },
    /// Edge trigger on a bool-shaped capability changing *to* `to`. Fires only on
    /// the transition into `to`, not on repeated reports of the same value.
    Changed { device: DeviceId, kind: CapabilityKind, to: bool },
    /// Edge trigger on a numeric capability *crossing* `bound`. Fires once when the
    /// value moves from not satisfying to satisfying the threshold.
    Crosses { device: DeviceId, kind: CapabilityKind, bound: i64, dir: CrossDir },
    /// Level trigger: fires on *every* report of the capability.
    Reports { device: DeviceId, kind: CapabilityKind },
    Timer { key: TimerKey },
    Time { schedule: ScheduleId },
    /// React to a command the engine gave up on. `None` matches any failure;
    /// `Some(d)` matches failures of commands that target device `d`.
    CommandFailed { device: Option<DeviceId> },
}

/// [`Trigger`] with its text as characters.
#[allow(inconsistent_fields)]
pub enum TriggerV {
    Action { device: DeviceId, action: ActionId },
    Changed { device: DeviceId, kind: CapabilityKind, to: bool },
    Crosses { device: DeviceId, kind: CapabilityKind, bound: i64, dir: CrossDir },
    Reports { device: DeviceId, kind: CapabilityKind },
    Timer { key: Seq<char> },
    Time { schedule: ScheduleId },
    CommandFailed { device: Option<DeviceId> },
}

impl View for Trigger {
    type V = TriggerV;

    open spec fn view(&self) -> TriggerV {
        match *self {
            Trigger::Action { device, action } => TriggerV::Action { device, action },
            Trigger::Changed { device, kind, to } => TriggerV::Changed { device, kind, to },
            Trigger::Crosses { device, kind, bound, dir } => TriggerV::Crosses {
                device,
                kind,
                bound,
                dir,
            },
            Trigger::Reports { device, kind } => TriggerV::Reports { device, kind },
            Trigger::Timer { key } => TriggerV::Timer { key: key@ },
            Trigger::Time { schedule } => TriggerV::Time { schedule },
            Trigger::CommandFailed { device } => TriggerV::CommandFailed { device },
        }
    }
}

impl Clone for Trigger {
    fn clone(&self) -> (r: Self)
        ensures
            r@ == self@,
    {
        match self {
            Trigger::Action { device, action } => Trigger::Action {
                device: *device,
                action: *action,
            },
            Trigger::Changed { device, kind, to } => Trigger::Changed {
                device: *device,
                kind: *kind,
                to: *to,
            },
            Trigger::Crosses { device, kind, bound, dir } => Trigger::Crosses {
                device: *device,
                kind: *kind,
                bound: *bound,
                dir: *dir,
            },
            Trigger::Reports { device, kind } => Trigger::Reports { device: *device, kind: *kind },
            Trigger::Timer { key } => Trigger::Timer { key: key.clone() },
            Trigger::Time { schedule } => Trigger::Time { schedule: *schedule },
            Trigger::CommandFailed { device } => Trigger::CommandFailed { device: *device },
        }
    }
}

impl Trigger {
    /// Whether `ev` fires this trigger, where `prior` is what was known of the
    /// reported capability before the event.
    pub open spec fn fires(self, ev: EventV, prior: Option<CapabilityState>) -> bool {
        match (self, ev) {
            (
                Trigger::Action { device, action },
                EventV::Action { device: d, action: a },
            ) => device == d && action == a,
            (
                Trigger::Changed { device, kind, to },
                EventV::StateReported { device: d, state },
            ) => device == d && state.spec_kind() == kind && state.spec_as_bool() == Some(to) && !(
            prior is Some && prior->0.spec_as_bool() == Some(to)),
            (
                Trigger::Crosses { device, kind, bound, dir },
                EventV::StateReported { device: d, state },
            ) => device == d && state.spec_kind() == kind && state.spec_as_int() is Some
                && dir.beyond(state.spec_as_int()->0, bound) && !(prior is Some
                && prior->0.spec_as_int() is Some && dir.beyond(prior->0.spec_as_int()->0, bound)),
            (
                Trigger::Reports { device, kind },
                EventV::StateReported { device: d, state },
            ) => device == d && state.spec_kind() == kind,
            (Trigger::Timer { key }, EventV::TimerElapsed { key: k }) => key@ == k,
            (Trigger::Time { schedule }, EventV::TimeReached { schedule: s }) => schedule == s,
            (
                Trigger::CommandFailed { device },
                EventV::CommandFailed { command, .. },
            ) => device is None || command.target() == device,
            _ => false,
        }
    }

    /// The capability an edge trigger watches.
    pub open spec fn spec_watched(self) -> Option<(DeviceId, CapabilityKind)> {
        match self {
            Trigger::Changed { device, kind, .. } => Some((device, kind)),
            Trigger::Crosses { device, kind, .. } => Some((device, kind)),
            _ => None,
        }
    }

    /// Whether an edge trigger's predicate holds of what is known.
    pub open spec fn sustained(self, known: Known) -> bool {
        match self {
            Trigger::Changed { device, kind, to } => known_bool(known, device, kind) == Some(to),
            Trigger::Crosses { device, kind, bound, dir } => known_int(known, device, kind) is Some
                && dir.beyond(known_int(known, device, kind)->0, bound),
            _ => false,
        }
    }

    /// Whether `ev` fires this trigger. `prior` is the state store's value for the
    /// reported `(device, capability)` *before* the event was folded, which the
    /// edge triggers need to see the transition.
    pub fn matches(&self, ev: &Event, prior: Option<&CapabilityState>) -> (r: bool)
        ensures
            r == self.fires(
                ev@,
                match prior {
                    Some(p) => Some(*p),
                    None => None,
                },
            ),
    {
        match (self, ev) {
            (Trigger::Action { device, action }, Event::Action { device: d, action: a }) => {
                *device == *d && *action == *a
            },
            (Trigger::Changed { device, kind, to }, Event::StateReported { device: d, state }) => {
                let was: Option<bool> = match prior {
                    Some(p) => p.as_bool(),
                    None => None,
                };
                *device == *d && state.kind() == *kind && state.as_bool() == Some(*to) && was
                    != Some(*to)
            },
            (
                Trigger::Crosses { device, kind, bound, dir },
                Event::StateReported { device: d, state },
            ) => {
                if *device != *d || state.kind() != *kind {
                    return false;
                }
                let was: Option<i64> = match prior {
                    Some(p) => p.as_i64(),
                    None => None,
                };
                let before: bool = match was {
                    Some(v) => dir.satisfied(v, *bound),
                    None => false,
                };
                match state.as_i64() {
                    Some(new) => dir.satisfied(new, *bound) && !before,
                    None => false,
                }
            },
            (Trigger::Reports { device, kind }, Event::StateReported { device: d, state }) => {
                *device == *d && state.kind() == *kind
            },
            (Trigger::Timer { key }, Event::TimerElapsed { key: k }) => key.same(k),
            (Trigger::Time { schedule }, Event::TimeReached { schedule: s }) => *schedule == *s,
            (Trigger::CommandFailed { device }, Event::CommandFailed { command, .. }) => {
                match device {
                    None => true,
                    Some(d) => command.target_device() == Some(*d),
                }
            },
            _ => false,
        }
    }

    /// The `(device, capability)` an edge trigger watches, if any: the state a
    /// `for`-qualified rule must keep an eye on. Only the edge triggers support a
    /// `for` qualifier.
    pub fn watched(&self) -> (r: Option<(DeviceId, CapabilityKind)>)
        ensures
            r == self.spec_watched(),
    {
        match self {
            Trigger::Changed { device, kind, .. } => Some((*device, *kind)),
            Trigger::Crosses { device, kind, .. } => Some((*device, *kind)),
            _ => None,
        }
    }

    /// Whether the edge trigger's *predicate* currently holds against the store.
    /// `false` for non-edge triggers and for state that was never reported.
    pub fn predicate_holds(&self, state: &StateStore) -> (r: bool)
        ensures
            r == self.sustained(state@),
    {
        match self {
            Trigger::Changed { device, kind, to } => state.bool_value(*device, *kind) == Some(*to),
            Trigger::Crosses { device, kind, bound, dir } => match state.num_value(*device, *kind) {
                Some(v) => dir.satisfied(v, *bound),
                None => false,
            },
            _ => false,
        }
    }
}

/// Comparison operators for numeric state conditions.
#[derive(Clone, Copy, Debug, PartialEq, Eq, Structural)]
pub enum CmpOp {
    Lt,
    Le,
    Eq,
    Ne,
    Ge,
    Gt,
}

impl CmpOp {
    pub open spec fn holds(self, actual: i64, bound: i64) -> bool {
        match self {
            CmpOp::Lt => actual < bound,
            CmpOp::Le => actual <= bound,
            CmpOp::Eq => actual == bound,
            CmpOp::Ne => actual != bound,
            CmpOp::Ge => actual >= bound,
            CmpOp::Gt => actual > bound,
        }
    }

    fn test(self, actual: i64, bound: i64) -> (r: bool)
        ensures
            r == self.holds(actual, bound),
    {
        match self {
            CmpOp::Lt => actual < bound,
            CmpOp::Le => actual <= bound,
            CmpOp::Eq => actual == bound,
            CmpOp::Ne => actual != bound,
            CmpOp::Ge => actual >= bound,
            CmpOp::Gt => actual > bound,
        }
    }
}

/// A three-valued (Kleene) truth. `Unknown` is a first-class outcome: it means
/// "the state this leaf depends on has never been reported". It propagates
/// through the boolean operators instead of silently collapsing to `False`.
#[derive(Clone, Copy, Debug, PartialEq, Eq, Structural)]
pub enum Truth {
    True,
    False,
    Unknown,
}

impl Truth {
    pub open spec fn of(b: bool) -> Truth {
        if b {
            Truth::True
        } else {
            Truth::False
        }
    }

    pub open spec fn negated(self) -> Truth {
        match self {
            Truth::True => Truth::False,
            Truth::False => Truth::True,
            Truth::Unknown => Truth::Unknown,
        }
    }

    /// False if either side is, true if both are, else unknown.
    pub open spec fn both(self, other: Truth) -> Truth {
        if self == Truth::False || other == Truth::False {
            Truth::False
        } else if self == Truth::True && other == Truth::True {
            Truth::True
        } else {
            Truth::Unknown
        }
    }

    /// True if either side is, false if both are, else unknown.
    pub open spec fn either(self, other: Truth) -> Truth {
        if self == Truth::True || other == Truth::True {
            Truth::True
        } else if self == Truth::False && other == Truth::False {
            Truth::False
        } else {
            Truth::Unknown
        }
    }

    pub fn from_bool(b: bool) -> (r: Self)
        ensures
            r == Truth::of(b),
    {
        if b {
            Truth::True
        } else {
            Truth::False
        }
    }

    /// A rule fires only on a definite `True`. `Unknown` and `False` both hold it
    /// back.
    pub fn is_true(self) -> (r: bool)
        ensures
            r == (self == Truth::True),
    {
        self == Truth::True
    }

    fn not(self) -> (r: Self)
        ensures
            r == self.negated(),
    {
        match self {
            Truth::True => Truth::False,
            Truth::False => Truth::True,
            Truth::Unknown => Truth::Unknown,
        }
    }

    fn and(self, other: Truth) -> (r: Self)
        ensures
            r == self.both(other),
    {
        match (self, other) {
            (Truth::False, _) => Truth::False,
            (_, Truth::False) => Truth::False,
            (Truth::True, Truth::True) => Truth::True,
            _ => Truth::Unknown,
        }
    }

    fn or(self, other: Truth) -> (r: Self)
        ensures
            r == self.either(other),
    {
        match (self, other) {
            (Truth::True, _) => Truth::True,
            (_, Truth::True) => Truth::True,
            (Truth::False, Truth::False) => Truth::False,
            _ => Truth::Unknown,
        }
    }
}

/// A boolean expression over current state. Every leaf is a read of the state
/// store, so the synthetic clock device is reachable with no special syntax.
///
/// If a referenced capability has never been reported, the leaf evaluates to
/// `Truth::Unknown`, and the rule does not fire.
#[derive(Debug)]
#[allow(inconsistent_fields)]
pub enum Condition {
    Always,
    Not(Box<Condition>),
    And(Vec<Condition>),
    Or(Vec<Condition>),
    /// Boolean capability equals an expected value.
    BoolEquals { device: DeviceId, kind: CapabilityKind, value: bool },
    /// Numeric capability compared against a constant.
    Compare { device: DeviceId, kind: CapabilityKind, op: CmpOp, value: i64 },
    /// Chromatic color equals an exact sRGB triple.
    ColorEquals { device: DeviceId, r: u8, g: u8, b: u8 },
}

/// [`Condition`] with its lists as sequences.
#[allow(inconsistent_fields)]
pub enum ConditionV {
    Always,
    Not(Box<ConditionV>),
    And(Seq<ConditionV>),
    Or(Seq<ConditionV>),
    BoolEquals { device: DeviceId, kind: CapabilityKind, value: bool },
    Compare { device: DeviceId, kind: CapabilityKind, op: CmpOp, value: i64 },
    ColorEquals { device: DeviceId, r: u8, g: u8, b: u8 },
}

impl View for Condition {
    type V = ConditionV;

    open spec fn view(&self) -> ConditionV {
        condition_view(*self)
    }
}

pub open spec fn condition_view(c: Condition) -> ConditionV
    decreases c,
{
    match c {
        Condition::Always => ConditionV::Always,
        Condition::Not(inner) => ConditionV::Not(Box::new(condition_view(*inner))),
        Condition::And(cs) => ConditionV::And(condition_views(cs, cs@.len())),
        Condition::Or(cs) => ConditionV::Or(condition_views(cs, cs@.len())),
        Condition::BoolEquals { device, kind, value } => ConditionV::BoolEquals {
            device,
            kind,
            value,
        },
        Condition::Compare { device, kind, op, value } => ConditionV::Compare {
            device,
            kind,
            op,
            value,
        },
        Condition::ColorEquals { device, r, g, b } => ConditionV::ColorEquals { device, r, g, b },
    }
}

/// The views of the first `n` conditions.
pub open spec fn condition_views(cs: Vec<Condition>, n: nat) -> Seq<ConditionV>
    decreases cs, n,
{
    if n == 0 || n > cs@.len() {
        Seq::empty()
    } else {
        condition_views(cs, (n - 1) as nat).push(condition_view(cs@[n - 1]))
    }
}

impl Condition {
    /// The truth of the condition, given what is known.
    pub open spec fn truth(self, known: Known) -> Truth
        decreases self,
    {
        match self {
            Condition::Always => Truth::True,
            Condition::Not(inner) => inner.truth(known).negated(),
            Condition::And(cs) => all_of(cs, cs@.len(), known),
            Condition::Or(cs) => any_of(cs, cs@.len(), known),
            Condition::BoolEquals { device, kind, value } => match known_bool(known, device, kind) {
                Some(actual) => Truth::of(actual == value),
                None => Truth::Unknown,
            },
            Condition::Compare { device, kind, op, value } => match known_int(
                known,
                device,
                kind,
            ) {
                Some(actual) => Truth::of(op.holds(actual, value)),
                None => Truth::Unknown,
            },
            Condition::ColorEquals { device, r, g, b } => match known_state(
                known,
                device,
                CapabilityKind::Color,
            ) {
                Some(CapabilityState::Color { r: cr, g: cg, b: cb }) => Truth::of(
                    cr == r && cg == g && cb == b,
                ),
                _ => Truth::Unknown,
            },
        }
    }

    /// A second condition with the same truth in every state.
    fn duplicate(&self) -> (r: Self)
        ensures
            r@ == self@,
            forall|known: Known| #[trigger] r.truth(known) == self.truth(known),
        decreases self,
    {
        match self {
            Condition::Always => Condition::Always,
            Condition::Not(inner) => {
                let copy = inner.duplicate();
                let r = Condition::Not(Box::new(copy));
                assert forall|known: Known| #[trigger] r.truth(known) == self.truth(known) by {
                    assert(copy.truth(known) == inner.truth(known));
                }
                r
            },
            Condition::And(cs) => {
                let mut v: Vec<Condition> = Vec::new();
                let mut i: usize = 0;
                while i < cs.len()
                    invariant
                        i <= cs@.len(),
                        v@.len() == i,
                        condition_views(v, i as nat) == condition_views(*cs, i as nat),
                        forall|j: int, known: Known|
                            0 <= j < i ==> (#[trigger] v@[j].truth(known)) == cs@[j].truth(known),
                        decreases_to!(self => cs),
                    decreases cs@.len() - i,
                {
                    let ghost was = v;
                    v.push(cs[i].duplicate());
                    proof {
                        lemma_condition_views_prefix(was, v, i as nat);
                    }
                    i += 1;
                }
                let r = Condition::And(v);
                assert forall|known: Known| #[trigger] r.truth(known) == self.truth(known) by {
                    lemma_all_of_pointwise(v, *cs, v@.len(), known);
                }
                r
            },
            Condition::Or(cs) => {
                let mut v: Vec<Condition> = Vec::new();
                let mut i: usize = 0;
                while i < cs.len()
                    invariant
                        i <= cs@.len(),
                        v@.len() == i,
                        condition_views(v, i as nat) == condition_views(*cs, i as nat),
                        forall|j: int, known: Known|
                            0 <= j < i ==> (#[trigger] v@[j].truth(known)) == cs@[j].truth(known),
                        decreases_to!(self => cs),
                    decreases cs@.len() - i,
                {
                    let ghost was = v;
                    v.push(cs[i].duplicate());
                    proof {
                        lemma_condition_views_prefix(was, v, i as nat);
                    }
                    i += 1;
                }
                let r = Condition::Or(v);
                assert forall|known: Known| #[trigger] r.truth(known) == self.truth(known) by {
                    lemma_any_of_pointwise(v, *cs, v@.len(), known);
                }
                r
            },
            Condition::BoolEquals { device, kind, value } => Condition::BoolEquals {
                device: *device,
                kind: *kind,
                value: *value,
            },
            Condition::Compare { device, kind, op, value } => Condition::Compare {
                device: *device,
                kind: *kind,
                op: *op,
                value: *value,
            },
            Condition::ColorEquals { device, r, g, b } => Condition::ColorEquals {
                device: *device,
                r: *r,
                g: *g,
                b: *b,
            },
        }
    }

    pub fn eval(&self, state: &StateStore) -> (r: Truth)
        ensures
            r == self.truth(state@),
        decreases self,
    {
        match self {
            Condition::Always => Truth::True,
            Condition::Not(inner) => inner.eval(state).not(),
            Condition::And(cs) => {
                let mut acc = Truth::True;
                let mut i: usize = 0;
                while i < cs.len()
                    invariant
                        i <= cs@.len(),
                        acc == all_of(*cs, i as nat, state@),
                        decreases_to!(self => cs),
                    decreases cs@.len() - i,
                {
                    acc = acc.and(cs[i].eval(state));
                    i += 1;
                }
                acc
            },
            Condition::Or(cs) => {
                let mut acc = Truth::False;
                let mut i: usize = 0;
                while i < cs.len()
                    invariant
                        i <= cs@.len(),
                        acc == any_of(*cs, i as nat, state@),
                        decreases_to!(self => cs),
                    decreases cs@.len() - i,
                {
                    acc = acc.or(cs[i].eval(state));
                    i += 1;
                }
                acc
            },
            Condition::BoolEquals { device, kind, value } => match state.bool_value(
                *device,
                *kind,
            ) {
                Some(actual) => Truth::from_bool(actual == *value),
                None => Truth::Unknown,
            },
            Condition::Compare { device, kind, op, value } => match state.num_value(
                *device,
                *kind,
            ) {
                Some(actual) => Truth::from_bool(op.test(actual, *value)),
                None => Truth::Unknown,
            },
            Condition::ColorEquals { device, r, g, b } => match state.get(
                *device,
                CapabilityKind::Color,
            ) {
                Some(CapabilityState::Color { r: cr, g: cg, b: cb }) => Truth::from_bool(
                    *cr == *r && *cg == *g && *cb == *b,
                ),
                _ => Truth::Unknown,
            },
        }
    }
}

/// The conjunction of the first `n` conditions.
pub open spec fn all_of(cs: Vec<Condition>, n: nat, known: Known) -> Truth
    decreases cs, n,
{
    if n == 0 || n > cs@.len() {
        Truth::True
    } else {
        all_of(cs, (n - 1) as nat, known).both(cs@[n - 1].truth(known))
    }
}

/// The disjunction of the first `n` conditions.
pub open spec fn any_of(cs: Vec<Condition>, n: nat, known: Known) -> Truth
    decreases cs, n,
{
    if n == 0 || n > cs@.len() {
        Truth::False
    } else {
        any_of(cs, (n - 1) as nat, known).either(cs@[n - 1].truth(known))
    }
}

pub proof fn lemma_condition_at(cs: Vec<Condition>, n: nat)
    requires
        n <= cs@.len(),
    ensures
        condition_views(cs, n).len() == n,
        forall|i: int| 0 <= i < n ==> #[trigger] condition_views(cs, n)[i] == cs@[i]@,
    decreases n,
{
    if n > 0 {
        lemma_condition_at(cs, (n - 1) as nat);
    }
}

pub proof fn lemma_condition_views_prefix(a: Vec<Condition>, b: Vec<Condition>, n: nat)
    requires
        n <= a@.len(),
        n <= b@.len(),
        forall|j: int| 0 <= j < n ==> a@[j] == b@[j],
    ensures
        condition_views(a, n) == condition_views(b, n),
    decreases n,
{
    if n > 0 {
        lemma_condition_views_prefix(a, b, (n - 1) as nat);
    }
}

proof fn lemma_all_of_pointwise(a: Vec<Condition>, b: Vec<Condition>, n: nat, known: Known)
    requires
        n <= a@.len(),
        n <= b@.len(),
        forall|j: int| 0 <= j < n ==> (#[trigger] a@[j].truth(known)) == b@[j].truth(known),
    ensures
        all_of(a, n, known) == all_of(b, n, known),
    decreases n,
{
    if n > 0 {
        lemma_all_of_pointwise(a, b, (n - 1) as nat, known);
        assert(a@[n - 1].truth(known) == b@[n - 1].truth(known));
    }
}

proof fn lemma_any_of_pointwise(a: Vec<Condition>, b: Vec<Condition>, n: nat, known: Known)
    requires
        n <= a@.len(),
        n <= b@.len(),
        forall|j: int| 0 <= j < n ==> (#[trigger] a@[j].truth(known)) == b@[j].truth(known),
    ensures
        any_of(a, n, known) == any_of(b, n, known),
    decreases n,
{
    if n > 0 {
        lemma_any_of_pointwise(a, b, (n - 1) as nat, known);
        assert(a@[n - 1].truth(known) == b@[n - 1].truth(known));
    }
}

impl Clone for Condition {
    fn clone(&self) -> (r: Self)
        ensures
            r@ == self@,
            forall|known: Known| #[trigger] r.truth(known) == self.truth(known),
    {
        self.duplicate()
    }
}

#[derive(Debug)]
pub struct Rule {
    pub id: RuleId,
    /// The config name of this rule: a label for traces. The runtime matches on
    /// `id`, never the name.
    pub name: String,
    pub trigger: Trigger,
    pub condition: Condition,
    pub commands: Vec<Command>,
    /// When set, the commands run only if the edge trigger's predicate has held
    /// *continuously* for this many milliseconds.
    pub for_duration: Option<Millis>,
}

/// [`Rule`] with its text as characters.
pub struct RuleV {
    pub id: RuleId,
    pub name: Seq<char>,
    pub trigger: TriggerV,
    pub condition: ConditionV,
    pub commands: Seq<CommandV>,
    pub for_duration: Option<Millis>,
}

impl View for Rule {
    type V = RuleV;

    open spec fn view(&self) -> RuleV {
        RuleV {
            id: self.id,
            name: self.name@,
            trigger: self.trigger@,
            condition: self.condition@,
            commands: command_views(self.commands@),
            for_duration: self.for_duration,
        }
    }
}

impl Clone for Rule {
    fn clone(&self) -> (r: Self)
        ensures
            r@ == self@,
    {
        Rule {
            id: self.id,
            name: self.name.clone(),
            trigger: self.trigger.clone(),
            condition: self.condition.clone(),
            commands: clone_commands(&self.commands),
            for_duration: self.for_duration,
        }
    }
}

impl Rule {
    pub fn new(id: RuleId, trigger: Trigger, condition: Condition, commands: Vec<Command>) -> (r:
        Self)
        ensures
            r.id == id,
            r.name@ == Seq::<char>::empty(),
            r.trigger == trigger,
            r.condition == condition,
            r.commands == commands,
            r.for_duration is None,
    {
        Rule { id, name: String::new(), trigger, condition, commands, for_duration: None }
    }

    /// Attach the config name.
    pub fn with_name(self, name: &str) -> (r: Self)
        ensures
            r.name@ == name@,
            r.id == self.id,
            r.trigger == self.trigger,
            r.condition == self.condition,
            r.commands == self.commands,
            r.for_duration == self.for_duration,
    {
        Rule {
            id: self.id,
            name: name.to_owned(),
            trigger: self.trigger,
            condition: self.condition,
            commands: self.commands,
            for_duration: self.for_duration,
        }
    }

    /// Attach a `for` sustained-duration qualifier.
    pub fn with_for_duration(self, for_duration: Option<Millis>) -> (r: Self)
        ensures
            r == (Rule { for_duration, ..self }),
    {
        Rule {
            id: self.id,
            name: self.name,
            trigger: self.trigger,
            condition: self.condition,
            commands: self.commands,
            for_duration,
        }
    }
}

// ------------------------------------------------------------------- laws

/// `Not` undoes itself, and keeps `Unknown` unknown.
pub proof fn negation_is_an_involution(t: Truth)
    ensures
        t.negated().negated() == t,
        t.negated() == Truth::Unknown <==> t == Truth::Unknown,
{
}

/// De Morgan's laws hold of the three truths.
pub proof fn de_morgan(a: Truth, b: Truth)
    ensures
        a.both(b).negated() == a.negated().either(b.negated()),
        a.either(b).negated() == a.negated().both(b.negated()),
{
}

/// `And` over a list: false as soon as one member is, true when all are, and
/// unknown otherwise, whatever the order of the members.
pub proof fn conjunction_is_kleene(cs: Vec<Condition>, n: nat, known: Known)
    requires
        n <= cs@.len(),
    ensures
        all_of(cs, n, known) == Truth::False <==> exists|i: int|
            0 <= i < n && (#[trigger] cs@[i]).truth(known) == Truth::False,
        all_of(cs, n, known) == Truth::True <==> forall|i: int|
            0 <= i < n ==> (#[trigger] cs@[i]).truth(known) == Truth::True,
    decreases n,
{
    if n > 0 {
        conjunction_is_kleene(cs, (n - 1) as nat, known);
        let last = cs@[n - 1];
        assert(all_of(cs, n, known) == all_of(cs, (n - 1) as nat, known).both(last.truth(known)));
        if exists|i: int| 0 <= i < n && (#[trigger] cs@[i]).truth(known) == Truth::False {
            let i = choose|i: int| 0 <= i < n && (#[trigger] cs@[i]).truth(known) == Truth::False;
            if i < n - 1 {
                assert(all_of(cs, (n - 1) as nat, known) == Truth::False);
            }
        }
    }
}

/// `Or` over a list: true as soon as one member is, false when all are, and
/// unknown otherwise, whatever the order of the members.
pub proof fn disjunction_is_kleene(cs: Vec<Condition>, n: nat, known: Known)
    requires
        n <= cs@.len(),
    ensures
        any_of(cs, n, known) == Truth::True <==> exists|i: int|
            0 <= i < n && (#[trigger] cs@[i]).truth(known) == Truth::True,
        any_of(cs, n, known) == Truth::False <==> forall|i: int|
            0 <= i < n ==> (#[trigger] cs@[i]).truth(known) == Truth::False,
    decreases n,
{
    if n > 0 {
        disjunction_is_kleene(cs, (n - 1) as nat, known);
        let last = cs@[n - 1];
        assert(any_of(cs, n, known) == any_of(cs, (n - 1) as nat, known).either(last.truth(known)));
        if exists|i: int| 0 <= i < n && (#[trigger] cs@[i]).truth(known) == Truth::True {
            let i = choose|i: int| 0 <= i < n && (#[trigger] cs@[i]).truth(known) == Truth::True;
            if i < n - 1 {
                assert(any_of(cs, (n - 1) as nat, known) == Truth::True);
            }
        }
    }
}

/// A leaf that reads a capability nobody ever reported is `Unknown`, and so is
/// its negation.
pub proof fn unreported_leaf_is_unknown(
    known: Known,
    device: DeviceId,
    kind: CapabilityKind,
    value: bool,
    op: CmpOp,
    bound: i64,
)
    requires
        known_state(known, device, kind) is None,
    ensures
        (Condition::BoolEquals { device, kind, value }).truth(known) == Truth::Unknown,
        (Condition::Compare { device, kind, op, value: bound }).truth(known) == Truth::Unknown,
        Condition::Not(Box::new(Condition::BoolEquals { device, kind, value })).truth(known)
            == Truth::Unknown,
{
    reveal_with_fuel(Condition::truth, 2);
}

/// An edge trigger fires at most once per transition: once a report has fired it
/// and was folded, the same report does not fire it again.
pub proof fn edge_does_not_refire(
    trigger: Trigger,
    known: Known,
    device: DeviceId,
    state: CapabilityState,
)
    requires
        trigger.spec_watched() is Some,
    ensures
        !trigger.fires(
            EventV::StateReported { device, state },
            known_state(reported(known, device, state), device, state.spec_kind()),
        ),
{
}

/// A first-ever report that satisfies an edge trigger's predicate fires it.
pub proof fn first_report_counts_as_an_edge(
    trigger: Trigger,
    known: Known,
    device: DeviceId,
    state: CapabilityState,
)
    requires
        trigger.spec_watched() == Some((device, state.spec_kind())),
        known_state(known, device, state.spec_kind()) is None,
        trigger.sustained(reported(known, device, state)),
    ensures
        trigger.fires(EventV::StateReported { device, state }, None),
{
}

/// An edge fires only on a report after which the trigger's predicate holds.
pub proof fn edge_establishes_its_predicate(
    trigger: Trigger,
    known: Known,
    device: DeviceId,
    state: CapabilityState,
)
    requires
        trigger.spec_watched() is Some,
        trigger.fires(
            EventV::StateReported { device, state },
            known_state(known, device, state.spec_kind()),
        ),
    ensures
        trigger.sustained(reported(known, device, state)),
{
}

} // verus!
