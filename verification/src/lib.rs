//! Decision core of a connection-routing filter.
//!
//! Given the raw configuration payload of the filter and, per connection, the
//! textual source address (and optionally the destination port), the library
//! parses the configuration, extracts the final numeric component of the
//! address, and selects one of two named egress clusters by parity of that
//! component.

mod config;
mod filter_state;
mod router;
mod text;
mod utils;

pub use config::{config_text, spec_is_istio, Config};
pub use filter_state::{
    spec_from_str_name, spec_str_name, spec_wire_value, LifeSpan, SetEnvoyFilterStateArguments,
};
pub use router::{
    lemma_decide_parity, lemma_operations_deterministic, spec_cluster_first, spec_cluster_second,
    spec_decide, spec_decide_with_dest, spec_router_host, spec_routing_port, Router,
};
pub use text::{after_last, before_first, contains_seq, dec_digits, parse_uint};
pub use utils::{
    address_body, extract_dest_port, extract_last_octet, last_component,
    lemma_bracketed_mapped_quad, lemma_dotted_quad, lemma_empty_no_octet, lemma_no_octet,
    lemma_unclosed_bracket_no_octet, spec_extract_dest_port, spec_extract_last_octet,
};
