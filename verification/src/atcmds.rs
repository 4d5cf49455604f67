//! Command lines built with the `at_commands` builder crate: the execute,
//! query and two-parameter set forms the driver sends besides its own codec.

use vstd::prelude::*;
use crate::bytes::dec_digits;

verus! {

/// An executed command renders as `AT`, the name, CRLF.
pub open spec fn spec_execute_line(name: Seq<u8>) -> Seq<u8> {
    seq![65u8, 84u8] + name + seq![13u8, 10u8]
}

/// A queried command renders as `AT`, the name, `?`, CRLF.
pub open spec fn spec_query_line(name: Seq<u8>) -> Seq<u8> {
    seq![65u8, 84u8] + name + seq![63u8, 13u8, 10u8]
}

/// A set command with two numbers renders as `AT`, the name, `=`, the first
/// number, a comma, the second, CRLF.
pub open spec fn spec_set_two_line(name: Seq<u8>, a: u32, b: u32) -> Seq<u8> {
    seq![65u8, 84u8] + name + seq![61u8] + dec_digits(a as nat) + seq![44u8] + dec_digits(b as nat)
        + seq![13u8, 10u8]
}

/// Relies on at_commands::builder::CommandBuilder: create_execute with the
/// AT prefix, named, finish render `AT{name}\r\n` into the buffer, and
/// finish succeeds whenever the 64-byte buffer holds it all. finish drops a
/// trailing comma, so the name must not end in one.
#[verifier::external_body]
fn at_execute(name: &[u8]) -> (r: Result<Vec<u8>, usize>)
    requires
        name@.len() == 0 || name@.last() != 44,
    ensures
        r is Ok ==> r.unwrap()@ == spec_execute_line(name@),
        name@.len() + 4 <= 64 ==> r is Ok,
{
    let mut buf = [0u8; 64];
    let built = at_commands::builder::CommandBuilder::create_execute(&mut buf, true)
        .named(name)
        .finish();
    match built {
        Ok(s) => Ok(s.to_vec()),
        Err(n) => Err(n),
    }
}

/// Relies on at_commands::builder::CommandBuilder: create_query with the AT
/// prefix, named, finish render `AT{name}?\r\n` into the buffer, and finish
/// succeeds whenever the 64-byte buffer holds it all.
#[verifier::external_body]
fn at_query(name: &[u8]) -> (r: Result<Vec<u8>, usize>)
    ensures
        r is Ok ==> r.unwrap()@ == spec_query_line(name@),
        name@.len() + 5 <= 64 ==> r is Ok,
{
    let mut buf = [0u8; 64];
    let built = at_commands::builder::CommandBuilder::create_query(&mut buf, true)
        .named(name)
        .finish();
    match built {
        Ok(s) => Ok(s.to_vec()),
        Err(n) => Err(n),
    }
}

/// Relies on at_commands::builder::CommandBuilder: create_set with the AT
/// prefix, named, with_int_parameter twice, finish render
/// `AT{name}={a},{b}\r\n` — finish drops the second parameter's trailing
/// comma — and finish succeeds whenever the 128-byte buffer holds it all;
/// at_commands::formatter::write_int renders a non-negative number as its
/// plain decimal digits.
#[verifier::external_body]
fn at_set_two(name: &[u8], a: i32, b: i32) -> (r: Result<Vec<u8>, usize>)
    requires
        a >= 0,
        b >= 0,
    ensures
        r is Ok ==> r.unwrap()@ == spec_set_two_line(name@, a as u32, b as u32),
        name@.len() + 27 <= 128 ==> r is Ok,
{
    let mut buf = [0u8; 128];
    let built = at_commands::builder::CommandBuilder::create_set(&mut buf, true)
        .named(name)
        .with_int_parameter(a)
        .with_int_parameter(b)
        .finish();
    match built {
        Ok(s) => Ok(s.to_vec()),
        Err(n) => Err(n),
    }
}

/// The line leaving the access point: `AT+CWQAP\r\n`.
pub fn disconnect_command() -> (r: Vec<u8>)
    ensures
        r@ == seq![65u8, 84u8, 43u8, 67u8, 87u8, 81u8, 65u8, 80u8, 13u8, 10u8],
{
    let name: [u8; 6] = [43, 67, 87, 81, 65, 80];
    match at_execute(name.as_slice()) {
        Ok(v) => {
            proof {
                assert(v@ =~= seq![65u8, 84u8, 43u8, 67u8, 87u8, 81u8, 65u8, 80u8, 13u8, 10u8]);
            }
            v
        },
        Err(_) => {
            proof {
                assert(false);
            }
            Vec::new()
        },
    }
}

/// The line scanning for access points: `AT+CWLAP\r\n`.
pub fn scan_command() -> (r: Vec<u8>)
    ensures
        r@ == seq![65u8, 84u8, 43u8, 67u8, 87u8, 76u8, 65u8, 80u8, 13u8, 10u8],
{
    let name: [u8; 6] = [43, 67, 87, 76, 65, 80];
    match at_execute(name.as_slice()) {
        Ok(v) => {
            proof {
                assert(v@ =~= seq![65u8, 84u8, 43u8, 67u8, 87u8, 76u8, 65u8, 80u8, 13u8, 10u8]);
            }
            v
        },
        Err(_) => {
            proof {
                assert(false);
            }
            Vec::new()
        },
    }
}

/// The line asking for the DHCP setting: `AT+CWDHCP?\r\n`.
pub fn dhcp_query_command() -> (r: Vec<u8>)
    ensures
        r@ == seq![65u8, 84u8, 43u8, 67u8, 87u8, 68u8, 72u8, 67u8, 80u8, 63u8, 13u8, 10u8],
{
    let name: [u8; 7] = [43, 67, 87, 68, 72, 67, 80];
    match at_query(name.as_slice()) {
        Ok(v) => {
            proof {
                assert(v@ =~= seq![
                    65u8,
                    84u8,
                    43u8,
                    67u8,
                    87u8,
                    68u8,
                    72u8,
                    67u8,
                    80u8,
                    63u8,
                    13u8,
                    10u8,
                ]);
            }
            v
        },
        Err(_) => {
            proof {
                assert(false);
            }
            Vec::new()
        },
    }
}

/// The line turning automatic reconnection on, once a second for a hundred
/// tries: `AT+CWRECONNCFG=1,100\r\n`.
pub fn reconnect_command() -> (r: Vec<u8>)
    ensures
        r@ == seq![
            65u8,
            84u8,
            43u8,
            67u8,
            87u8,
            82u8,
            69u8,
            67u8,
            79u8,
            78u8,
            78u8,
            67u8,
            70u8,
            71u8,
            61u8,
            49u8,
            44u8,
            49u8,
            48u8,
            48u8,
            13u8,
            10u8,
        ],
{
    let name: [u8; 12] = [43, 67, 87, 82, 69, 67, 79, 78, 78, 67, 70, 71];
    match at_set_two(name.as_slice(), 1, 100) {
        Ok(v) => {
            proof {
                assert(dec_digits(1) =~= seq![49u8]);
                assert(dec_digits(10) =~= seq![49u8, 48u8]);
                assert(dec_digits(100) =~= seq![49u8, 48u8, 48u8]);
                assert(v@ =~= seq![
                    65u8,
                    84u8,
                    43u8,
                    67u8,
                    87u8,
                    82u8,
                    69u8,
                    67u8,
                    79u8,
                    78u8,
                    78u8,
                    67u8,
                    70u8,
                    71u8,
                    61u8,
                    49u8,
                    44u8,
                    49u8,
                    48u8,
                    48u8,
                    13u8,
                    10u8,
                ]);
            }
            v
        },
        Err(_) => {
            proof {
                assert(false);
            }
            Vec::new()
        },
    }
}

} // verus!
