//! The adapter registration seam: how a protocol adapter tells the compiler it
//! exists. Each adapter implements [`AdapterPlugin`] in its own file; the hooks
//! mirror the compiler's per-protocol needs.

use vstd::prelude::*;

use crate::compile::ast::{RawAdapterConfig, RawExpose};
use crate::compile::diagnostic::{error_at, findings, Diagnostic, Finding};
use crate::text::texts;
use crate::compile::resolve::{DeviceDef, DeviceV};
use crate::text::{cat3, has_prefix, same, starts_with};

verus! {

/// Which way an adapter's data flows.
#[derive(Clone, Copy, Debug, PartialEq, Eq, Structural)]
pub enum Polarity {
    /// The protocol is downstream: the adapter commands the devices bound to it.
    Southbound,
    /// The consumer is upstream: the adapter exposes devices declared elsewhere and
    /// binds none of its own.
    Northbound,
}

/// Which devices a northbound adapter exposes, as declared in its config.
#[derive(Debug)]
pub enum ExposeSpec {
    /// Every device declared in the config (`expose: all`).
    All,
    /// An explicit list of device names.
    Named(Vec<String>),
}

/// [`ExposeSpec`] with its text as characters.
pub enum ExposeV {
    All,
    Named(Seq<Seq<char>>),
}

impl View for ExposeSpec {
    type V = ExposeV;

    open spec fn view(&self) -> ExposeV {
        match *self {
            ExposeSpec::All => ExposeV::All,
            ExposeSpec::Named(names) => ExposeV::Named(texts(names@)),
        }
    }
}

pub open spec fn opt_expose_view(e: Option<ExposeSpec>) -> Option<ExposeV> {
    match e {
        Some(e) => Some(e@),
        None => None,
    }
}

/// One protocol adapter, as seen by the compiler.
pub trait AdapterPlugin {
    /// The `type` of the adapter in config.
    spec fn tag(&self) -> Seq<char>;

    /// Which way its data flows.
    spec fn direction(&self) -> Polarity;

    /// What is wrong with its own config block.
    spec fn config_findings(&self, config: RawAdapterConfig, at: Seq<char>) -> Seq<Finding>;

    /// What is wrong with a device bound to it.
    spec fn device_findings(&self, device: DeviceV, at: Seq<char>) -> Seq<Finding>;

    /// Which devices it exposes.
    spec fn exposed(&self, config: RawAdapterConfig) -> Option<ExposeV>;

    fn type_tag(&self) -> (r: &'static str)
        ensures
            r@ == self.tag(),
    ;

    fn polarity(&self) -> (r: Polarity)
        ensures
            r == self.direction(),
    ;

    /// For a northbound adapter, which devices it exposes to its consumer.
    fn expose_spec(&self, config: &RawAdapterConfig) -> (r: Option<ExposeSpec>)
        ensures
            opt_expose_view(r) == self.exposed(*config),
    ;

    /// Validate this adapter's own config block.
    fn validate_config(&self, config: &RawAdapterConfig, at: &str, diags: &mut Vec<Diagnostic>)
        ensures
            findings(final(diags)@) == findings(old(diags)@) + self.config_findings(*config, at@),
    ;

    /// Validate one device bound to this adapter, typically its `address`.
    fn validate_device(&self, device: &DeviceDef, at: &str, diags: &mut Vec<Diagnostic>)
        ensures
            findings(final(diags)@) == findings(old(diags)@) + self.device_findings(
                device@,
                at@,
            ),
    ;
}

/// Note an error.
pub(crate) fn report(diags: &mut Vec<Diagnostic>, code: &'static str, msg: String, at: &str)
    ensures
        findings(final(diags)@) == findings(old(diags)@) + seq![error_at(code@, msg@, at@)],
{
    let ghost was = diags@;
    diags.push(Diagnostic::error(code, msg).at(at));
    assert(findings(diags@) =~= findings(was) + seq![error_at(code@, msg@, at@)]);
}

/// A block that could not be decoded.
pub open spec fn bad_config(why: Seq<char>, at: Seq<char>) -> Seq<Finding> {
    seq![error_at("E_ADAPTER_CONFIG"@, why, at)]
}

/// What is wrong with a choice of exposed devices: a keyword other than `all`.
pub open spec fn expose_findings(e: RawExpose, at: Seq<char>) -> Seq<Finding> {
    match e {
        RawExpose::Keyword(k) => if k@ == "all"@ {
            Seq::empty()
        } else {
            seq![
                error_at(
                    "E_ADAPTER_CONFIG"@,
                    "`expose` keyword must be 'all', got '"@ + k@ + "'"@,
                    at,
                ),
            ]
        },
        _ => Seq::empty(),
    }
}

pub(crate) fn validate_expose(e: &RawExpose, at: &str, diags: &mut Vec<Diagnostic>)
    ensures
        findings(final(diags)@) == findings(old(diags)@) + expose_findings(*e, at@),
{
    if let RawExpose::Keyword(k) = e {
        if !same(k.as_str(), "all") {
            let msg = cat3("`expose` keyword must be 'all', got '", k.as_str(), "'");
            report(diags, "E_ADAPTER_CONFIG", msg, at);
            return ;
        }
    }
    assert(findings(diags@) + Seq::<Finding>::empty() =~= findings(diags@));
}

/// The devices a choice stands for. Everything, unless some are listed.
pub open spec fn expose_choice(e: RawExpose) -> ExposeV {
    match e {
        RawExpose::Listed(names) => ExposeV::Named(texts(names@)),
        _ => ExposeV::All,
    }
}

pub(crate) fn choose_exposed(e: &RawExpose) -> (r: ExposeSpec)
    ensures
        r@ == expose_choice(*e),
{
    match e {
        RawExpose::Listed(names) => {
            let mut copy: Vec<String> = Vec::new();
            let mut i: usize = 0;
            while i < names.len()
                invariant
                    i <= names@.len(),
                    copy@.len() == i,
                    forall|j: int| 0 <= j < i ==> (#[trigger] copy@[j])@ == names@[j]@,
                decreases names@.len() - i,
            {
                copy.push(names[i].clone());
                i += 1;
            }
            assert(texts(copy@) =~= texts(names@));
            ExposeSpec::Named(copy)
        },
        _ => ExposeSpec::All,
    }
}

/// Whether a URL is a WebSocket's.
pub open spec fn is_websocket_url(url: Seq<char>) -> bool {
    has_prefix(url, "ws://"@) || has_prefix(url, "wss://"@)
}

pub(crate) fn websocket_url(url: &str) -> (r: bool)
    ensures
        r == is_websocket_url(url@),
{
    starts_with(url, "ws://") || starts_with(url, "wss://")
}

} // verus!
