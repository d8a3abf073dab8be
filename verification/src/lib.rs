//! A home as data: devices, scenes and rules compiled from configuration, and
//! the deterministic engine that runs them.
//!
//! Every module states what its functions return as a contract over plain
//! mathematical values, and every contract is proved.

pub mod adapters;
pub mod calendar;
pub mod causality;
pub mod cli;
pub mod color;
pub mod compile;
pub mod engine;
pub mod gui;
pub mod ids;
pub mod json;
pub mod laws;
pub mod model;
pub mod names;
pub mod nesting;
pub mod observe;
pub mod replay;
pub mod rule;
pub mod single;
pub mod state;
pub mod table;
pub mod text;

pub use adapters::clock::ClockAdapter;
pub use adapters::matter::{
    AttrReport, ClusterCommand, EndpointId, MatterAdapter, MatterController, NodeId,
};
pub use adapters::mock::MockDeviceAdapter;
pub use adapters::scheduler::SchedulerAdapter;
pub use adapters::zigbee2mqtt::{MqttMessage, MqttTransport, Zigbee2MqttAdapter};
pub use adapters::zwavejs::{DeviceKind, SetValue, ValueUpdate, ZwaveAdapter, ZwaveClient};
pub use adapters::{Adapter, DispatchOutcome};
pub use compile::assemble::build_engine;
pub use compile::diagnostic::{CompileErrors, Diagnostic};
pub use compile::resolve::CompiledConfig;
pub use engine::{Engine, RetryPolicy};
pub use ids::{ActionId, AdapterIdx, DeviceId, RuleId, SceneId, ScheduleId};
pub use model::{CapabilityKind, CapabilityState, Command, Event, Millis, TimerKey};
pub use observe::{NoopObserver, Observer};
pub use rule::{CmpOp, Condition, Rule, Trigger, Truth};
pub use state::StateStore;
