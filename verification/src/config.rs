//! Configuration parsing for the routing filter.

use vstd::prelude::*;
use vstd::utf8::{decode_utf8, valid_utf8};

use crate::text::{chars_of, contains_seq, contains_sub};

verus! {

/// The parsed configuration of the filter: whether the deployment
/// environment is an Istio-style service mesh.
#[derive(Debug, Clone, PartialEq, Eq, Structural)]
pub struct Config {
    pub is_istio: bool,
}

/// The text of a configuration payload: its UTF-8 decoding, or empty text
/// when the bytes are not valid UTF-8.
pub open spec fn config_text(bytes: Seq<u8>) -> Seq<char> {
    if valid_utf8(bytes) {
        decode_utf8(bytes)
    } else {
        Seq::empty()
    }
}

/// Whether a configuration payload selects Istio mode: its text contains
/// the token "istio".
pub open spec fn spec_is_istio(bytes: Seq<u8>) -> bool {
    contains_seq(config_text(bytes), "istio"@)
}

/// Relies on std::str::from_utf8: succeeds exactly on valid UTF-8 and
/// returns the decoded text, as vstd's `valid_utf8` and `decode_utf8`
/// describe it.
#[verifier::external_body]
fn utf8_to_str(bytes: &[u8]) -> (r: Option<&str>)
    ensures
        (r is Some) == valid_utf8(bytes@),
        r matches Some(s) ==> s@ == decode_utf8(bytes@),
{
    std::str::from_utf8(bytes).ok()
}

impl Config {
    /// Parses the configuration from a byte payload. The payload is read as
    /// UTF-8 text (as empty text when decoding fails), and Istio mode is
    /// selected exactly when that text contains "istio".
    pub fn from_bytes(bytes: &[u8]) -> (c: Self)
        ensures
            c.is_istio == spec_is_istio(bytes@),
    {
        match utf8_to_str(bytes) {
            Some(s) => {
                let hay = chars_of(s);
                let needle = chars_of("istio");
                let found = contains_sub(&hay, &needle);
                Config { is_istio: found }
            },
            None => {
                proof {
                    assert(!contains_seq(Seq::<char>::empty(), "istio"@)) by {
                        reveal_strlit("istio");
                    }
                }
                Config { is_istio: false }
            },
        }
    }
}

impl Default for Config {
    /// The default configuration: standalone mode.
    fn default() -> (c: Self)
        ensures
            !c.is_istio,
    {
        Config { is_istio: false }
    }
}

} // verus!
