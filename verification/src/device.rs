//! How the kernel's network devices are named, and how their packets are wrapped.
use vstd::prelude::*;
use vstd::slice::slice_subrange;
use vstd::utf8::encode_utf8;

use crate::text::{chars_of, parse_unsigned, unsigned};
use crate::wire::push_bytes;

verus! {

/// The longest name of a network interface, in bytes.
pub const INTERFACE_NAME_MAX: usize = 15;

/// The name of an interface as the kernel takes it: as many of its first bytes as fit, filled up
/// with zeros, the last of which ends it.
pub open spec fn name_field(bytes: Seq<u8>) -> Seq<u8> {
    Seq::new(
        16,
        |i: int|
            if i < bytes.len() && i < INTERFACE_NAME_MAX {
                bytes[i]
            } else {
                0
            },
    )
}

/// The field that asks the kernel for the interface `name`.
pub fn interface_name(name: &str) -> (r: [u8; 16])
    ensures
        r@ == name_field(encode_utf8(name@)),
{
    let bytes = name.as_bytes();
    let len: usize = if bytes.len() < INTERFACE_NAME_MAX {
        bytes.len()
    } else {
        INTERFACE_NAME_MAX
    };
    let mut field: [u8; 16] = [0u8; 16];
    let mut i: usize = 0;
    while i < len
        invariant
            i <= len,
            len <= bytes@.len(),
            len <= INTERFACE_NAME_MAX,
            forall|j: int| 0 <= j < i ==> field@[j] == bytes@[j],
            forall|j: int| i <= j < 16 ==> field@[j] == 0,
        decreases len - i,
    {
        field[i] = bytes[i];
        i = i + 1;
    }
    assert(field@ =~= name_field(encode_utf8(name@)));
    field
}

/// The unit of the tunnel device `name`: one more than the number behind `utun`, or zero, which lets
/// the kernel choose, where there is no such number or no unit beyond it.
pub open spec fn unit_of(name: Seq<char>) -> u32 {
    if name.len() >= 4 && name.take(4) == "utun"@ {
        match unsigned(name.skip(4), u32::MAX as nat) {
            Some(n) if n < u32::MAX => (n + 1) as u32,
            _ => 0,
        }
    } else {
        0
    }
}

/// The unit of the tunnel device `name`.
pub fn utun_unit(name: &str) -> (r: u32)
    ensures
        r == unit_of(name@),
{
    proof {
        reveal_strlit("utun");
    }
    let chars = chars_of(name);
    if chars.len() < 4 || chars[0] != 'u' || chars[1] != 't' || chars[2] != 'u' || chars[3] != 'n' {
        proof {
            if name@.len() >= 4 {
                let prefix = name@.take(4);
                assert(prefix[0] == name@[0] && prefix[1] == name@[1] && prefix[2] == name@[2]
                    && prefix[3] == name@[3]);
            }
        }
        return 0;
    }
    assert(name@.take(4) =~= "utun"@);
    let mut digits: Vec<char> = Vec::new();
    let mut i: usize = 4;
    while i < chars.len()
        invariant
            4 <= i <= chars@.len(),
            chars@ == name@,
            digits@ == name@.subrange(4, i as int),
        decreases chars@.len() - i,
    {
        digits.push(chars[i]);
        i = i + 1;
        assert(digits@ =~= name@.subrange(4, i as int));
    }
    assert(digits@ =~= name@.skip(4));
    match parse_unsigned(&digits, u32::MAX) {
        Some(n) => if n < u32::MAX {
            n + 1
        } else {
            0
        },
        None => 0,
    }
}

/// What stands before every packet of a tunnel device: the address family, IPv4, as a big-endian
/// word.
pub open spec fn family_word() -> Seq<u8> {
    seq![0u8, 0u8, 0u8, 2u8]
}

/// A packet as a tunnel device takes it.
pub fn wrap_packet(packet: &[u8]) -> (r: Vec<u8>)
    ensures
        r@ == family_word() + packet@,
{
    let mut out: Vec<u8> = Vec::new();
    out.push(0);
    out.push(0);
    out.push(0);
    out.push(2);
    push_bytes(&mut out, packet);
    assert(out@ =~= family_word() + packet@);
    out
}

/// The packet that a tunnel device hands out behind its address family. Too few bytes hold an empty
/// packet.
pub fn unwrap_packet(data: &[u8]) -> (r: &[u8])
    ensures
        r@ == if data@.len() <= 4 {
            Seq::empty()
        } else {
            data@.skip(4)
        },
{
    let start: usize = if data.len() <= 4 { data.len() } else { 4 };
    let packet = slice_subrange(data, start, data.len());
    assert(data@.len() <= 4 ==> packet@ =~= Seq::<u8>::empty());
    assert(data@.len() > 4 ==> packet@ =~= data@.skip(4));
    packet
}

/// What was wrapped is unwrapped to the same packet.
pub proof fn wrapping_round_trip(packet: Seq<u8>)
    ensures
        ({
            let data = family_word() + packet;
            (if data.len() <= 4 {
                Seq::<u8>::empty()
            } else {
                data.skip(4)
            }) == packet
        }),
{
    assert((family_word() + packet).skip(4) =~= packet);
    if packet.len() == 0 {
        assert(packet =~= Seq::<u8>::empty());
    }
}

} // verus!
