//! Core routing decisions: cluster naming and parity-based cluster selection.

use vstd::prelude::*;

use crate::config::{spec_is_istio, Config};
use crate::text::dec_digits;
use crate::utils::{extract_last_octet, spec_extract_last_octet};

verus! {

/// The routing decider. It holds the configuration set at startup and, for
/// each connection, chooses one of two egress clusters from the last octet
/// of the connection's source address.
#[derive(Debug, Clone)]
pub struct Router {
    config: Config,
}

/// The name of the first egress cluster (even last octets route here):
/// a fully-qualified service reference under Istio, a bare name standalone.
pub open spec fn spec_cluster_first(istio: bool) -> Seq<char> {
    if istio {
        "outbound|8080||egress-router1.default.svc.cluster.local"@
    } else {
        "egress-router1"@
    }
}

/// The name of the second egress cluster (odd last octets route here).
pub open spec fn spec_cluster_second(istio: bool) -> Seq<char> {
    if istio {
        "outbound|8080||egress-router2.default.svc.cluster.local"@
    } else {
        "egress-router2"@
    }
}

/// The hostname of the router selected by parity of the last octet.
pub open spec fn spec_router_host(istio: bool, even: bool) -> Seq<char> {
    if even {
        if istio {
            "egress-router1.default.svc.cluster.local"@
        } else {
            "egress-router1"@
        }
    } else {
        if istio {
            "egress-router2.default.svc.cluster.local"@
        } else {
            "egress-router2"@
        }
    }
}

/// The routing port for a destination port: 443 maps to 8080, 80 maps to
/// 8081, and any other destination port defaults to 8080.
pub open spec fn spec_routing_port(dest_port: u16) -> u16 {
    if dest_port == 443 {
        8080
    } else if dest_port == 80 {
        8081
    } else {
        8080
    }
}

/// The decision from the source address alone: no value when no last octet
/// can be extracted; otherwise the first cluster name for an even octet and
/// the second for an odd one.
pub open spec fn spec_decide(istio: bool, addr: Seq<char>) -> Option<Seq<char>> {
    match spec_extract_last_octet(addr) {
        None => None,
        Some(octet) => if octet % 2 == 0 {
            Some(spec_cluster_first(istio))
        } else {
            Some(spec_cluster_second(istio))
        },
    }
}

/// The decision from the source address and the destination port: no value
/// when no last octet can be extracted; otherwise, under Istio, the name
/// "outbound|{routing port}||{router host}", and standalone the bare router
/// host (the routing port is computed but unused).
pub open spec fn spec_decide_with_dest(istio: bool, addr: Seq<char>, dest_port: u16) -> Option<
    Seq<char>,
> {
    match spec_extract_last_octet(addr) {
        None => None,
        Some(octet) => {
            let host = spec_router_host(istio, octet % 2 == 0);
            if istio {
                Some("outbound|"@ + dec_digits(spec_routing_port(dest_port) as nat) + "||"@ + host)
            } else {
                Some(host)
            }
        },
    }
}

/// The numerals of the two routing ports.
proof fn lemma_port_digits()
    ensures
        dec_digits(8080) == "8080"@,
        dec_digits(8081) == "8081"@,
{
    reveal_strlit("8080");
    reveal_strlit("8081");
    reveal_with_fuel(dec_digits, 5);
    assert(dec_digits(8080) =~= "8080"@);
    assert(dec_digits(8081) =~= "8081"@);
}

/// The four Istio names with a destination port, written out, equal their
/// structural form "outbound|" + routing port + "||" + router host.
proof fn lemma_outbound_names()
    ensures
        "outbound|8080||egress-router1.default.svc.cluster.local"@ == "outbound|"@ + dec_digits(
            8080,
        ) + "||"@ + "egress-router1.default.svc.cluster.local"@,
        "outbound|8080||egress-router2.default.svc.cluster.local"@ == "outbound|"@ + dec_digits(
            8080,
        ) + "||"@ + "egress-router2.default.svc.cluster.local"@,
        "outbound|8081||egress-router1.default.svc.cluster.local"@ == "outbound|"@ + dec_digits(
            8081,
        ) + "||"@ + "egress-router1.default.svc.cluster.local"@,
        "outbound|8081||egress-router2.default.svc.cluster.local"@ == "outbound|"@ + dec_digits(
            8081,
        ) + "||"@ + "egress-router2.default.svc.cluster.local"@,
{
    lemma_port_digits();
    reveal_strlit("outbound|8080||egress-router1.default.svc.cluster.local");
    reveal_strlit("outbound|8080||egress-router2.default.svc.cluster.local");
    reveal_strlit("outbound|8081||egress-router1.default.svc.cluster.local");
    reveal_strlit("outbound|8081||egress-router2.default.svc.cluster.local");
    reveal_strlit("outbound|");
    reveal_strlit("8080");
    reveal_strlit("8081");
    reveal_strlit("||");
    reveal_strlit("egress-router1.default.svc.cluster.local");
    reveal_strlit("egress-router2.default.svc.cluster.local");
    assert("outbound|8080||egress-router1.default.svc.cluster.local"@ =~= "outbound|"@ + "8080"@
        + "||"@ + "egress-router1.default.svc.cluster.local"@);
    assert("outbound|8080||egress-router2.default.svc.cluster.local"@ =~= "outbound|"@ + "8080"@
        + "||"@ + "egress-router2.default.svc.cluster.local"@);
    assert("outbound|8081||egress-router1.default.svc.cluster.local"@ =~= "outbound|"@ + "8081"@
        + "||"@ + "egress-router1.default.svc.cluster.local"@);
    assert("outbound|8081||egress-router2.default.svc.cluster.local"@ =~= "outbound|"@ + "8081"@
        + "||"@ + "egress-router2.default.svc.cluster.local"@);
}

/// The parity law: the decision by source address is the first cluster name
/// exactly on an even extracted octet, the second exactly on an odd one, and
/// no decision exactly when no octet can be extracted.
pub proof fn lemma_decide_parity(istio: bool, addr: Seq<char>)
    ensures
        (spec_decide(istio, addr) is None) == (spec_extract_last_octet(addr) is None),
        spec_extract_last_octet(addr) matches Some(octet) ==> spec_decide(istio, addr) == Some(
            if octet % 2 == 0 {
                spec_cluster_first(istio)
            } else {
                spec_cluster_second(istio)
            },
        ),
{
}

/// Purity of the operations: every operation's contract pins its result to a
/// spec function of the configuration and the inputs alone, so repeated calls
/// with identical inputs produce identical outputs. Stated for the two
/// decision operations and for configuration parsing; cluster naming and
/// octet extraction are pinned the same way by their own contracts.
pub proof fn lemma_operations_deterministic(
    istio: bool,
    addr: Seq<char>,
    dest_port: u16,
    payload: Seq<u8>,
    first_decide: Option<Seq<char>>,
    second_decide: Option<Seq<char>>,
    first_dest: Option<Seq<char>>,
    second_dest: Option<Seq<char>>,
    first_parse: bool,
    second_parse: bool,
)
    requires
        first_decide == spec_decide(istio, addr),
        second_decide == spec_decide(istio, addr),
        first_dest == spec_decide_with_dest(istio, addr, dest_port),
        second_dest == spec_decide_with_dest(istio, addr, dest_port),
        first_parse == spec_is_istio(payload),
        second_parse == spec_is_istio(payload),
    ensures
        first_decide == second_decide,
        first_dest == second_dest,
        first_parse == second_parse,
{
}

impl Router {
    /// Whether this router is configured for Istio mode.
    pub closed spec fn is_istio(&self) -> bool {
        self.config.is_istio
    }

    /// Creates a new Router with the given configuration.
    pub fn new(config: Config) -> (r: Self)
        ensures
            r.is_istio() == config.is_istio,
    {
        Router { config }
    }

    /// The names of the two egress clusters under the held configuration.
    pub fn get_cluster_names(&self) -> (names: (String, String))
        ensures
            names.0@ == spec_cluster_first(self.is_istio()),
            names.1@ == spec_cluster_second(self.is_istio()),
    {
        if self.config.is_istio {
            (
                "outbound|8080||egress-router1.default.svc.cluster.local".to_owned(),
                "outbound|8080||egress-router2.default.svc.cluster.local".to_owned(),
            )
        } else {
            ("egress-router1".to_owned(), "egress-router2".to_owned())
        }
    }

    /// Decides the egress cluster from the source address alone: the first
    /// cluster name for an even last octet, the second for an odd one, and
    /// no decision when no last octet can be extracted.
    pub fn decide_route_cluster(&self, source_address: &str) -> (r: Option<String>)
        ensures
            (r is Some) == (spec_decide(self.is_istio(), source_address@) is Some),
            r matches Some(name) ==> Some(name@) == spec_decide(
                self.is_istio(),
                source_address@,
            ),
    {
        let octet = match extract_last_octet(source_address) {
            Some(octet) => octet,
            None => {
                return None;
            },
        };
        let names = self.get_cluster_names();
        if octet % 2 == 0 {
            Some(names.0)
        } else {
            Some(names.1)
        }
    }

    /// Decides the egress cluster from the source address and the
    /// destination port. The router is chosen by parity of the last octet;
    /// destination port 443 maps to routing port 8080, port 80 to 8081, and
    /// anything else to 8080. Under Istio the name embeds the routing port;
    /// standalone, the bare router hostname is returned.
    pub fn decide_route_cluster_with_dest(&self, source_address: &str, dest_port: u16) -> (r:
        Option<String>)
        ensures
            (r is Some) == (spec_decide_with_dest(self.is_istio(), source_address@, dest_port)
                is Some),
            r matches Some(name) ==> Some(name@) == spec_decide_with_dest(
                self.is_istio(),
                source_address@,
                dest_port,
            ),
    {
        let octet = match extract_last_octet(source_address) {
            Some(octet) => octet,
            None => {
                return None;
            },
        };
        let even = octet % 2 == 0;
        if self.config.is_istio {
            proof {
                lemma_outbound_names();
            }
            let name = if dest_port == 80 {
                if even {
                    "outbound|8081||egress-router1.default.svc.cluster.local"
                } else {
                    "outbound|8081||egress-router2.default.svc.cluster.local"
                }
            } else {
                if even {
                    "outbound|8080||egress-router1.default.svc.cluster.local"
                } else {
                    "outbound|8080||egress-router2.default.svc.cluster.local"
                }
            };
            Some(name.to_owned())
        } else {
            let name = if even {
                "egress-router1"
            } else {
                "egress-router2"
            };
            Some(name.to_owned())
        }
    }
}

} // verus!
