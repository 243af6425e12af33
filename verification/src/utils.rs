//! Extraction of the trailing numeric components of textual network addresses.

use vstd::prelude::*;

use crate::text::{
    after_last, after_last_vec, all_dec_digits, before_first, before_first_from, chars_of,
    contains_char, dec_digits, digits_val, is_dec_digit, lemma_after_last_absent,
    lemma_after_last_is_suffix, lemma_before_first_is_prefix, lemma_dec_digits_are_digits,
    lemma_parse_dec_digits, parse_uint, parse_uint_chars, strip_leading_plus,
};

verus! {

/// The address body of `s`: for a bracketed address, the characters between
/// the opening '[' and the first ']' (no value when the bracket is never
/// closed); otherwise the characters before the first ':'.
pub open spec fn address_body(s: Seq<char>) -> Option<Seq<char>> {
    if s.len() > 0 && s[0] == '[' {
        if s.contains(']') {
            Some(before_first(s.drop_first(), ']'))
        } else {
            None
        }
    } else {
        Some(before_first(s, ':'))
    }
}

/// The trailing component of an address: within the address body, the
/// characters after the last ':' (stripping any IPv6 prefix), and within
/// that, the characters after the last '.'. No value when the address has
/// no body.
pub open spec fn last_component(s: Seq<char>) -> Option<Seq<char>> {
    match address_body(s) {
        Some(body) => Some(after_last(after_last(body, ':'), '.')),
        None => None,
    }
}

/// The last octet of an address: its trailing component read as a decimal
/// number of at most 255, with an optional leading '+'.
pub open spec fn spec_extract_last_octet(s: Seq<char>) -> Option<u8> {
    match last_component(s) {
        Some(component) => match parse_uint(component, 255) {
            Some(v) => Some(v as u8),
            None => None,
        },
        None => None,
    }
}

/// Extracts the last octet of an IP address string (v4 or v6), handling
/// "a.b.c.d", "a.b.c.d:port", "[v6]:port" and bracketed IPv4-mapped IPv6
/// addresses. Returns no value on an unclosed bracket, or when the trailing
/// component of the address body is not a number in the range 0 through 255.
pub fn extract_last_octet(ip_address: &str) -> (r: Option<u8>)
    ensures
        r == spec_extract_last_octet(ip_address@),
{
    let chars = chars_of(ip_address);
    let body: Vec<char> = if chars.len() > 0 && chars[0] == '[' {
        if !contains_char(&chars, ']') {
            return None;
        }
        let b = before_first_from(&chars, 1, ']');
        proof {
            assert(chars@.subrange(1, chars@.len() as int) =~= chars@.drop_first());
        }
        b
    } else {
        let b = before_first_from(&chars, 0, ':');
        proof {
            assert(chars@.subrange(0, chars@.len() as int) =~= chars@);
        }
        b
    };
    let mapped = after_last_vec(&body, ':');
    let tail = after_last_vec(&mapped, '.');
    match parse_uint_chars(&tail, 255) {
        Some(v) => Some(v as u8),
        None => None,
    }
}

/// The destination port of a "host:port" address: the characters after the
/// last ':' read as a decimal number of at most 65535, or 443 (the HTTPS
/// port) when they are not one.
pub open spec fn spec_extract_dest_port(s: Seq<char>) -> u16 {
    match parse_uint(after_last(s, ':'), 65535) {
        Some(v) => v as u16,
        None => 443,
    }
}

/// Reads the destination port off a destination address of the form
/// "host:port", defaulting to 443 when no port can be read.
pub fn extract_dest_port(destination_address: &str) -> (p: u16)
    ensures
        p == spec_extract_dest_port(destination_address@),
{
    let chars = chars_of(destination_address);
    let tail = after_last_vec(&chars, ':');
    match parse_uint_chars(&tail, 65535) {
        Some(v) => v as u16,
        None => 443,
    }
}

/// No character of a decimal numeral is an address delimiter.
proof fn lemma_numeral_no_delims(d: nat)
    ensures
        forall|j: int|
            0 <= j < dec_digits(d).len() ==> #[trigger] dec_digits(d)[j] != ':' && dec_digits(
                d,
            )[j] != '.' && dec_digits(d)[j] != '[' && dec_digits(d)[j] != ']',
{
    lemma_dec_digits_are_digits(d);
    assert forall|j: int|
        0 <= j < dec_digits(d).len() implies #[trigger] dec_digits(d)[j] != ':' && dec_digits(
        d,
    )[j] != '.' && dec_digits(d)[j] != '[' && dec_digits(d)[j] != ']' by {
        assert(is_dec_digit(dec_digits(d)[j]));
    }
}

/// A dotted address whose final component is the decimal numeral of `d`,
/// whether suffixed with ':' and a port or not, yields exactly `d`: the
/// dotted-quad law for "a.b.c.d" and "a.b.c.d:port".
pub proof fn lemma_dotted_quad(head: Seq<char>, d: u8, port: Seq<char>)
    requires
        !head.contains(':'),
        head.len() > 0 ==> head[0] != '[',
    ensures
        spec_extract_last_octet(head + seq!['.'] + dec_digits(d as nat)) == Some(d),
        spec_extract_last_octet(head + seq!['.'] + dec_digits(d as nat) + seq![':'] + port)
            == Some(d),
{
    let dd = dec_digits(d as nat);
    let body = head + seq!['.'] + dd;
    lemma_dec_digits_are_digits(d as nat);
    lemma_numeral_no_delims(d as nat);
    assert forall|j: int| 0 <= j < head.len() implies head[j] != ':' by {
        if head[j] == ':' {
            assert(head.contains(':'));
        }
    }
    assert(body[head.len() as int] == '.');
    assert forall|j: int| 0 <= j < body.len() implies body[j] != ':' by {
        if j < head.len() {
            assert(body[j] == head[j]);
        } else if j == head.len() {
            assert(body[j] == '.');
        } else {
            assert(body[j] == dd[j - head.len() - 1]);
        }
    }
    assert forall|j: int| head.len() + 1 <= j < body.len() implies body[j] != '.' by {
        assert(body[j] == dd[j - head.len() - 1]);
    }
    // the trailing component of the body is the numeral itself
    lemma_after_last_absent(body, ':');
    lemma_after_last_is_suffix(body, '.', head.len() + 1 as int);
    assert(body.subrange(head.len() + 1 as int, body.len() as int) =~= dd);
    lemma_parse_dec_digits(d as nat, 255);
    // without a port, the address body is the whole address
    assert(body[0] != '[');
    lemma_before_first_is_prefix(body, ':', body.len() as int);
    assert(body.subrange(0, body.len() as int) =~= body);
    assert(address_body(body) == Some(body));
    // with a port, the address body stops at the ':' before the port
    let s2 = head + seq!['.'] + dd + seq![':'] + port;
    assert(s2[0] == body[0]);
    assert forall|j: int| 0 <= j < body.len() implies s2[j] == body[j] by {}
    assert(s2[body.len() as int] == ':');
    lemma_before_first_is_prefix(s2, ':', body.len() as int);
    assert(s2.subrange(0, body.len() as int) =~= body);
    assert(address_body(s2) == Some(body));
}

/// A bracketed IPv6 literal whose body embeds a dotted component ending in
/// the decimal numeral of `d` — an IPv4-mapped address such as
/// "[::ffff:a.b.c.d]", with anything (such as ':port') after the closing
/// bracket — yields exactly `d`.
pub proof fn lemma_bracketed_mapped_quad(
    prefix: Seq<char>,
    quad_head: Seq<char>,
    d: u8,
    rest: Seq<char>,
)
    requires
        !prefix.contains(']'),
        !quad_head.contains(':'),
        !quad_head.contains(']'),
    ensures
        spec_extract_last_octet(
            seq!['['] + prefix + seq![':'] + quad_head + seq!['.'] + dec_digits(d as nat)
                + seq![']'] + rest,
        ) == Some(d),
{
    let dd = dec_digits(d as nat);
    let inner = prefix + seq![':'] + quad_head + seq!['.'] + dd;
    let s = seq!['['] + prefix + seq![':'] + quad_head + seq!['.'] + dd + seq![']'] + rest;
    lemma_dec_digits_are_digits(d as nat);
    lemma_numeral_no_delims(d as nat);
    assert forall|j: int| 0 <= j < prefix.len() implies prefix[j] != ']' by {
        if prefix[j] == ']' {
            assert(prefix.contains(']'));
        }
    }
    assert forall|j: int| 0 <= j < quad_head.len() implies quad_head[j] != ':' && quad_head[j]
        != ']' by {
        if quad_head[j] == ':' {
            assert(quad_head.contains(':'));
        }
        if quad_head[j] == ']' {
            assert(quad_head.contains(']'));
        }
    }
    assert(s[0] == '[');
    assert(s.drop_first() =~= inner + seq![']'] + rest);
    let dropped = inner + seq![']'] + rest;
    assert forall|j: int| 0 <= j < inner.len() implies dropped[j] == inner[j] by {}
    assert forall|j: int| 0 <= j < inner.len() implies inner[j] != ']' by {
        if j < prefix.len() {
            assert(inner[j] == prefix[j]);
        } else if j == prefix.len() {
            assert(inner[j] == ':');
        } else if j < prefix.len() + 1 + quad_head.len() {
            assert(inner[j] == quad_head[j - prefix.len() - 1]);
        } else if j == prefix.len() + 1 + quad_head.len() {
            assert(inner[j] == '.');
        } else {
            assert(inner[j] == dd[j - (prefix.len() + quad_head.len() + 2)]);
        }
    }
    assert(dropped[inner.len() as int] == ']');
    lemma_before_first_is_prefix(dropped, ']', inner.len() as int);
    assert(dropped.subrange(0, inner.len() as int) =~= inner);
    assert(s.contains(']')) by {
        assert(s[1 + inner.len() as int] == ']');
    }
    assert(address_body(s) == Some(inner));
    // the last ':' of the body precedes the embedded dotted component
    let tail1 = quad_head + seq!['.'] + dd;
    assert(inner[prefix.len() as int] == ':');
    assert forall|j: int| prefix.len() + 1 <= j < inner.len() implies inner[j] != ':' by {
        if j < prefix.len() + 1 + quad_head.len() {
            assert(inner[j] == quad_head[j - prefix.len() - 1]);
        } else if j == prefix.len() + 1 + quad_head.len() {
            assert(inner[j] == '.');
        } else {
            assert(inner[j] == dd[j - (prefix.len() + quad_head.len() + 2)]);
        }
    }
    lemma_after_last_is_suffix(inner, ':', prefix.len() + 1 as int);
    assert(inner.subrange(prefix.len() + 1 as int, inner.len() as int) =~= tail1);
    // the last '.' of that component precedes the numeral
    assert(tail1[quad_head.len() as int] == '.');
    assert forall|j: int| quad_head.len() + 1 <= j < tail1.len() implies tail1[j] != '.' by {
        assert(tail1[j] == dd[j - quad_head.len() - 1]);
    }
    lemma_after_last_is_suffix(tail1, '.', quad_head.len() + 1 as int);
    assert(tail1.subrange(quad_head.len() + 1 as int, tail1.len() as int) =~= dd);
    lemma_parse_dec_digits(d as nat, 255);
}

/// An address whose trailing component is not a decimal numeral of a value
/// up to 255 — it is empty (as in the empty address), holds a character that
/// is no digit, or names a value above 255 — or whose bracket is never
/// closed, yields no value.
pub proof fn lemma_no_octet(s: Seq<char>)
    requires
        ({
            match last_component(s) {
                Some(component) => {
                    let t = strip_leading_plus(component);
                    t.len() == 0 || !all_dec_digits(t) || digits_val(t) > 255
                },
                None => true,
            }
        }),
    ensures
        spec_extract_last_octet(s) is None,
{
}

/// An address that opens a bracket and never closes it yields no value.
pub proof fn lemma_unclosed_bracket_no_octet(s: Seq<char>)
    requires
        s.len() > 0,
        s[0] == '[',
        !s.contains(']'),
    ensures
        spec_extract_last_octet(s) is None,
{
}

/// The empty address yields no value.
pub proof fn lemma_empty_no_octet()
    ensures
        spec_extract_last_octet(Seq::<char>::empty()) is None,
{
    let e = Seq::<char>::empty();
    assert(before_first(e, ':') =~= e);
    assert(after_last(e, ':') =~= e);
    assert(after_last(e, '.') =~= e);
    assert(last_component(e) == Some(e));
    lemma_no_octet(e);
}

} // verus!
