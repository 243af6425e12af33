//! The filter-state directive handed to the forwarding layer: a structured
//! message naming a path, a cluster, and a connection scope.

use vstd::prelude::*;

use crate::text::str_eq;

verus! {

/// Argument expected by the host's set_envoy_filter_state call: a path
/// identifier, a string value, and an integer scope tag (wire fields 1, 2
/// and 3 of the message).
#[derive(Clone, Debug, PartialEq)]
pub struct SetEnvoyFilterStateArguments {
    pub path: String,
    pub value: String,
    pub span: i32,
}

/// The lifetime/scope of a filter-state directive.
#[derive(Clone, Copy, Debug, PartialEq, Eq, Structural, Hash, PartialOrd, Ord)]
pub enum LifeSpan {
    FilterChain,
    DownstreamRequest,
    DownstreamConnection,
}

/// The integer scope tag of each lifetime on the wire: FilterChain 0,
/// DownstreamRequest 1, DownstreamConnection 2.
pub open spec fn spec_wire_value(span: LifeSpan) -> i32 {
    match span {
        LifeSpan::FilterChain => 0,
        LifeSpan::DownstreamRequest => 1,
        LifeSpan::DownstreamConnection => 2,
    }
}

/// The variant name of each lifetime, as the wire-format definition spells it.
pub open spec fn spec_str_name(span: LifeSpan) -> Seq<char> {
    match span {
        LifeSpan::FilterChain => "FilterChain"@,
        LifeSpan::DownstreamRequest => "DownstreamRequest"@,
        LifeSpan::DownstreamConnection => "DownstreamConnection"@,
    }
}

/// The lifetime named by a variant name, if any.
pub open spec fn spec_from_str_name(value: Seq<char>) -> Option<LifeSpan> {
    if value == "FilterChain"@ {
        Some(LifeSpan::FilterChain)
    } else if value == "DownstreamRequest"@ {
        Some(LifeSpan::DownstreamRequest)
    } else if value == "DownstreamConnection"@ {
        Some(LifeSpan::DownstreamConnection)
    } else {
        None
    }
}

impl LifeSpan {
    /// The integer scope tag used on the wire.
    pub fn wire_value(&self) -> (v: i32)
        ensures
            v == spec_wire_value(*self),
    {
        match self {
            LifeSpan::FilterChain => 0,
            LifeSpan::DownstreamRequest => 1,
            LifeSpan::DownstreamConnection => 2,
        }
    }

    /// String value of the enum variant names used in the wire-format
    /// definition.
    pub fn as_str_name(&self) -> (r: &'static str)
        ensures
            r@ == spec_str_name(*self),
    {
        match self {
            LifeSpan::FilterChain => "FilterChain",
            LifeSpan::DownstreamRequest => "DownstreamRequest",
            LifeSpan::DownstreamConnection => "DownstreamConnection",
        }
    }

    /// Creates the lifetime from a variant name used in the wire-format
    /// definition.
    pub fn from_str_name(value: &str) -> (r: Option<LifeSpan>)
        ensures
            r == spec_from_str_name(value@),
    {
        if str_eq(value, "FilterChain") {
            Some(LifeSpan::FilterChain)
        } else if str_eq(value, "DownstreamRequest") {
            Some(LifeSpan::DownstreamRequest)
        } else if str_eq(value, "DownstreamConnection") {
            Some(LifeSpan::DownstreamConnection)
        } else {
            None
        }
    }
}

impl SetEnvoyFilterStateArguments {
    /// The directive that reroutes the current connection to `cluster`: the
    /// fixed path "envoy.tcp_proxy.cluster", the cluster name as the value,
    /// and the filter-chain scope.
    pub fn for_cluster(cluster: String) -> (args: Self)
        ensures
            args.path@ == "envoy.tcp_proxy.cluster"@,
            args.value == cluster,
            args.span == spec_wire_value(LifeSpan::FilterChain),
    {
        let span = LifeSpan::FilterChain.wire_value();
        SetEnvoyFilterStateArguments { path: "envoy.tcp_proxy.cluster".to_owned(), value: cluster, span }
    }
}

} // verus!
