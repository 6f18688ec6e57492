//! Server addresses, as a user types them.

use vstd::prelude::*;

use crate::text::{chars_of, number_of, parse_number, text_of};

verus! {

broadcast use vstd::string::group_string_axioms;

/// Whether `at` is where the last colon of a text stands.
pub open spec fn is_last_colon(input: Seq<char>, at: int) -> bool {
    &&& 0 <= at < input.len()
    &&& input[at] == ':'
    &&& forall|j: int| at < j < input.len() ==> #[trigger] input[j] != ':'
}

/// What an address means: a host alone has the default port; else the port stands behind
/// the last colon.
pub open spec fn address_of(input: Seq<char>, default_port: u16) -> Option<(Seq<char>, u16)> {
    if input.contains(':') {
        let at = choose|at: int| is_last_colon(input, at);
        match number_of(input.skip(at + 1)) {
            Some(port) => if port <= u16::MAX {
                Some((input.take(at), port as u16))
            } else {
                None
            },
            None => None,
        }
    } else {
        Some((input, default_port))
    }
}

/// Takes an address apart into a host and a port. `None` where there is no number of a
/// port behind the last colon.
pub fn parse_addr(input: &str, default_port: u16) -> (res: Option<(String, u16)>)
    ensures
        match (res, address_of(input@, default_port)) {
            (Some((host, port)), Some((wanted, number))) => host@ == wanted && port == number,
            (None, None) => true,
            _ => false,
        },
{
    let chars = chars_of(input);
    let mut at: usize = chars.len();
    while at > 0
        invariant
            chars@ == input@,
            at <= chars@.len(),
            forall|j: int| at <= j < input@.len() ==> #[trigger] input@[j] != ':',
        decreases at,
    {
        at = at - 1;
        if chars[at] == ':' {
            proof {
                assert(is_last_colon(input@, at as int));
                assert(input@.contains(':'));
                let other = choose|other: int| is_last_colon(input@, other);
                if other < at {
                    assert(input@[at as int] != ':');
                }
                if at < other {
                    assert(input@[other] != ':');
                }
            }
            let behind = vstd::slice::slice_subrange(chars.as_slice(), at + 1, chars.len());
            assert(behind@ =~= input@.skip(at + 1));
            let port = text_of(behind);
            match parse_number(port.as_str(), 65535) {
                Some(number) => {
                    let before = vstd::slice::slice_subrange(chars.as_slice(), 0, at);
                    assert(before@ =~= input@.take(at as int));
                    return Some((text_of(before), number as u16));
                },
                None => {
                    return None;
                },
            }
        }
    }
    Some((text_of(chars.as_slice()), default_port))
}

/// A host with a port behind a colon is taken apart into both, whatever the host.
pub proof fn law_address_comes_apart(host: Seq<char>, port: u16, default_port: u16)
    ensures
        address_of(host + seq![':'] + crate::text::decimal(port as nat), default_port) == Some(
            (host, port),
        ),
{
    let digits = crate::text::decimal(port as nat);
    let input = host + seq![':'] + digits;
    crate::text::lemma_decimal_digits(port as nat);
    crate::text::law_numbers_read_back(port as nat);
    let at = host.len() as int;
    assert(input[at] == ':');
    assert forall|j: int| at < j < input.len() implies #[trigger] input[j] != ':' by {
        assert(input[j] == digits[j - at - 1]);
        assert(crate::text::is_digit_char(digits[j - at - 1]));
    }
    assert(is_last_colon(input, at));
    assert(input.contains(':'));
    let other = choose|other: int| is_last_colon(input, other);
    if other < at {
        assert(input[at] != ':');
    }
    if at < other {
        assert(input[other] != ':');
    }
    assert(input.skip(at + 1) =~= digits);
    assert(input.take(at) =~= host);
}

/// What stands behind the last colon of an address is the port, where it is a number up to
/// 65535 in any notation, and what stands before it is the host.
pub proof fn law_ports_stand_behind_the_last_colon(
    host: Seq<char>,
    port: Seq<char>,
    default_port: u16,
)
    requires
        !port.contains(':'),
        number_of(port) is Some,
        number_of(port).unwrap() <= 65535,
    ensures
        address_of(host + seq![':'] + port, default_port) == Some(
            (host, number_of(port).unwrap() as u16),
        ),
{
    let input = host + seq![':'] + port;
    let at = host.len() as int;
    assert(input[at] == ':');
    assert forall|j: int| at < j < input.len() implies #[trigger] input[j] != ':' by {
        assert(input[j] == port[j - at - 1]);
        assert(port.contains(port[j - at - 1]));
    }
    assert(is_last_colon(input, at));
    assert(input.contains(':'));
    let other = choose|other: int| is_last_colon(input, other);
    if other < at {
        assert(input[at] != ':');
    }
    if at < other {
        assert(input[other] != ':');
    }
    assert(input.skip(at + 1) =~= port);
    assert(input.take(at) =~= host);
}

/// An address without a colon is a host at the default port.
pub proof fn law_hosts_have_the_default_port(input: Seq<char>, default_port: u16)
    requires
        !input.contains(':'),
    ensures
        address_of(input, default_port) == Some((input, default_port)),
{
}

/// An address with anything but a number up to 65535 behind its last colon is none.
pub proof fn law_bad_ports_are_refused(input: Seq<char>, default_port: u16)
    ensures
        forall|i: int|
            0 <= i < input.len() && input[i] == ':' && !(input.skip(i + 1).contains(':')) && (
            match number_of(#[trigger] input.skip(i + 1)) {
                Some(n) => n > 65535,
                None => true,
            }) ==> address_of(input, default_port) is None,
{
    assert forall|i: int|
        0 <= i < input.len() && input[i] == ':' && !(input.skip(i + 1).contains(':')) && (
        match number_of(#[trigger] input.skip(i + 1)) {
            Some(n) => n > 65535,
            None => true,
        }) implies address_of(input, default_port) is None by {
        assert(input.contains(':'));
        assert forall|j: int| i < j < input.len() implies #[trigger] input[j] != ':' by {
            assert(input.skip(i + 1)[j - i - 1] == input[j]);
        }
        assert(is_last_colon(input, i));
        let other = choose|other: int| is_last_colon(input, other);
        if other < i {
            assert(input[i] != ':');
        }
        if i < other {
            assert(input[other] != ':');
        }
    }
}

} // verus!
