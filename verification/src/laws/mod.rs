//! What the library is for, stated apart from how it is written.
//!
//! Every function says exactly what it returns. The laws here say what those answers mean:
//! a lamp that is told to dim gets dimmer, a condition on a switch is true when the switch
//! is as it says, what is written to a device comes back as what was asked of it.

pub mod clock;
pub mod color;
pub mod config;
pub mod engine;
pub mod http;
pub mod json;
pub mod lower;
pub mod matter;
pub mod neighbors;
pub mod rest;
pub mod rules;
pub mod text;
pub mod words;
pub mod zigbee;
pub mod zwave;
