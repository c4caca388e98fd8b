//! Byte order, byte strings and the one's-complement sum shared by every layer.
use vstd::prelude::*;

verus! {

/// The 16-bit number whose big-endian bytes are `hi`, `lo`.
pub open spec fn be16(hi: u8, lo: u8) -> u16 {
    (hi * 0x100 + lo) as u16
}

/// The 32-bit number whose big-endian bytes are `a`, `b`, `c`, `d`.
pub open spec fn be32(a: u8, b: u8, c: u8, d: u8) -> u32 {
    (a * 0x100_0000 + b * 0x1_0000 + c * 0x100 + d) as u32
}

/// The two big-endian bytes of `x`.
pub open spec fn be16_bytes(x: u16) -> Seq<u8> {
    seq![(x / 0x100) as u8, (x % 0x100) as u8]
}

/// The four big-endian bytes of `x`.
pub open spec fn be32_bytes(x: u32) -> Seq<u8> {
    seq![
        (x / 0x100_0000) as u8,
        (x / 0x1_0000 % 0x100) as u8,
        (x / 0x100 % 0x100) as u8,
        (x % 0x100) as u8,
    ]
}

/// The two little-endian bytes of `x`.
pub open spec fn le16_bytes(x: u16) -> Seq<u8> {
    be16_bytes(x).reverse()
}

/// The four little-endian bytes of `x`.
pub open spec fn le32_bytes(x: u32) -> Seq<u8> {
    be32_bytes(x).reverse()
}

/// The order in which a machine keeps the bytes of a number.
#[derive(Debug, Clone, Copy, PartialEq, Eq, Structural)]
pub enum ByteOrder {
    Big,
    Little,
}

/// The bytes of a number in the given order, from its big-endian bytes.
pub open spec fn in_order(big_endian: Seq<u8>, order: ByteOrder) -> Seq<u8> {
    match order {
        ByteOrder::Big => big_endian,
        ByteOrder::Little => big_endian.reverse(),
    }
}

/// The four bytes of `s` that start at `at`, as an array.
pub open spec fn array4_at(s: Seq<u8>, at: int) -> [u8; 4] {
    [s[at], s[at + 1], s[at + 2], s[at + 3]]
}

/// The six bytes of `s` that start at `at`, as an array.
pub open spec fn array6_at(s: Seq<u8>, at: int) -> [u8; 6] {
    [s[at], s[at + 1], s[at + 2], s[at + 3], s[at + 4], s[at + 5]]
}

/// The bytes of an ASCII text.
pub open spec fn ascii(text: Seq<char>) -> Seq<u8> {
    Seq::new(text.len(), |i: int| text[i] as u8)
}

/// Reading back the big-endian bytes of a 16-bit number gives the number.
pub proof fn be16_round_trip(x: u16)
    ensures
        be16(be16_bytes(x)[0], be16_bytes(x)[1]) == x,
{
}

/// Reading back the big-endian bytes of a 32-bit number gives the number.
pub proof fn be32_round_trip(x: u32)
    ensures
        be32(be32_bytes(x)[0], be32_bytes(x)[1], be32_bytes(x)[2], be32_bytes(x)[3]) == x,
{
}

/// Four bytes at an offset are the array itself when they were written from one.
pub proof fn array4_at_of_array(s: Seq<u8>, at: int, a: [u8; 4])
    requires
        0 <= at,
        at + 4 <= s.len(),
        s.subrange(at, at + 4) == a@,
    ensures
        array4_at(s, at) == a,
{
    let b = array4_at(s, at);
    let w = s.subrange(at, at + 4);
    assert(w[0] == s[at] && w[1] == s[at + 1] && w[2] == s[at + 2] && w[3] == s[at + 3]);
    assert(forall|i: int| 0 <= i < 4 ==> b[i] == a[i]);
    assert(b =~= a);
}

/// Six bytes at an offset are the array itself when they were written from one.
pub proof fn array6_at_of_array(s: Seq<u8>, at: int, a: [u8; 6])
    requires
        0 <= at,
        at + 6 <= s.len(),
        s.subrange(at, at + 6) == a@,
    ensures
        array6_at(s, at) == a,
{
    let b = array6_at(s, at);
    let w = s.subrange(at, at + 6);
    assert(w[0] == s[at] && w[1] == s[at + 1] && w[2] == s[at + 2] && w[3] == s[at + 3] && w[4]
        == s[at + 4] && w[5] == s[at + 5]);
    assert(forall|i: int| 0 <= i < 6 ==> b[i] == a[i]);
    assert(b =~= a);
}

pub fn read_be16(hi: u8, lo: u8) -> (r: u16)
    ensures
        r == be16(hi, lo),
{
    hi as u16 * 0x100 + lo as u16
}

pub fn read_be32(a: u8, b: u8, c: u8, d: u8) -> (r: u32)
    ensures
        r == be32(a, b, c, d),
{
    a as u32 * 0x100_0000 + b as u32 * 0x1_0000 + c as u32 * 0x100 + d as u32
}

pub fn read_array4(data: &[u8], at: usize) -> (r: [u8; 4])
    requires
        at + 4 <= data@.len(),
    ensures
        r == array4_at(data@, at as int),
{
    [data[at], data[at + 1], data[at + 2], data[at + 3]]
}

pub fn read_array6(data: &[u8], at: usize) -> (r: [u8; 6])
    requires
        at + 6 <= data@.len(),
    ensures
        r == array6_at(data@, at as int),
{
    [data[at], data[at + 1], data[at + 2], data[at + 3], data[at + 4], data[at + 5]]
}

/// Appends the bytes of `data` to `out`.
pub fn push_bytes(out: &mut Vec<u8>, data: &[u8])
    ensures
        final(out)@ == old(out)@ + data@,
{
    out.extend_from_slice(data);
    assert(out@ =~= old(out)@ + data@);
}

pub fn push_be16(out: &mut Vec<u8>, x: u16)
    ensures
        final(out)@ == old(out)@ + be16_bytes(x),
{
    out.push((x / 0x100) as u8);
    out.push((x % 0x100) as u8);
    assert(out@ =~= old(out)@ + be16_bytes(x));
}

pub fn push_be32(out: &mut Vec<u8>, x: u32)
    ensures
        final(out)@ == old(out)@ + be32_bytes(x),
{
    out.push((x / 0x100_0000) as u8);
    out.push((x / 0x1_0000 % 0x100) as u8);
    out.push((x / 0x100 % 0x100) as u8);
    out.push((x % 0x100) as u8);
    assert(out@ =~= old(out)@ + be32_bytes(x));
}

pub fn push_le16(out: &mut Vec<u8>, x: u16)
    ensures
        final(out)@ == old(out)@ + le16_bytes(x),
{
    out.push((x % 0x100) as u8);
    out.push((x / 0x100) as u8);
    assert(out@ =~= old(out)@ + le16_bytes(x));
}

pub fn push_le32(out: &mut Vec<u8>, x: u32)
    ensures
        final(out)@ == old(out)@ + le32_bytes(x),
{
    out.push((x % 0x100) as u8);
    out.push((x / 0x100 % 0x100) as u8);
    out.push((x / 0x1_0000 % 0x100) as u8);
    out.push((x / 0x100_0000) as u8);
    assert(out@ =~= old(out)@ + le32_bytes(x));
}

/// `u16::to_ne_bytes`, the bytes of `x` as this machine keeps them. All that is claimed is that they
/// are in one order or the other: which one is up to the machine.
#[verifier::external_body]
pub(crate) fn native_bytes(x: u16) -> (r: [u8; 2])
    ensures
        r@ == be16_bytes(x) || r@ == le16_bytes(x),
{
    x.to_ne_bytes()
}

/// The byte order of a machine that keeps the number one as `one`.
pub fn order_of(one: [u8; 2]) -> (r: ByteOrder)
    ensures
        r == if one@ == be16_bytes(1) {
            ByteOrder::Big
        } else {
            ByteOrder::Little
        },
{
    if one[0] == 0 && one[1] == 1 {
        assert(one@ =~= be16_bytes(1));
        ByteOrder::Big
    } else {
        ByteOrder::Little
    }
}

/// Whether `order` is this machine's byte order: the one that its bytes of the number one show.
pub closed spec fn native_order(order: ByteOrder) -> bool {
    exists|one: [u8; 2]| #[trigger]
        call_ensures(native_bytes, (1u16,), one) && order == if one@ == be16_bytes(1) {
            ByteOrder::Big
        } else {
            ByteOrder::Little
        }
}

/// This machine's byte order.
pub fn this_order() -> (r: ByteOrder)
    ensures
        native_order(r),
{
    let one = native_bytes(1);
    assert(call_ensures(native_bytes, (1u16,), one));
    order_of(one)
}

pub fn push_u16_in_order(out: &mut Vec<u8>, x: u16, order: ByteOrder)
    ensures
        final(out)@ == old(out)@ + in_order(be16_bytes(x), order),
{
    match order {
        ByteOrder::Big => push_be16(out, x),
        ByteOrder::Little => push_le16(out, x),
    }
}

pub fn push_u32_in_order(out: &mut Vec<u8>, x: u32, order: ByteOrder)
    ensures
        final(out)@ == old(out)@ + in_order(be32_bytes(x), order),
{
    match order {
        ByteOrder::Big => push_be32(out, x),
        ByteOrder::Little => push_le32(out, x),
    }
}

/// A copy of `data`.
pub fn copy_bytes(data: &[u8]) -> (r: Vec<u8>)
    ensures
        r@ == data@,
{
    vstd::slice::slice_to_vec(data)
}

/// Whether two byte strings are the same.
pub fn bytes_equal(a: &[u8], b: &[u8]) -> (r: bool)
    ensures
        r == (a@ == b@),
{
    if a.len() != b.len() {
        return false;
    }
    let mut i: usize = 0;
    while i < a.len()
        invariant
            i <= a@.len(),
            a@.len() == b@.len(),
            forall|j: int| 0 <= j < i ==> a@[j] == b@[j],
        decreases a@.len() - i,
    {
        if a[i] != b[i] {
            return false;
        }
        i = i + 1;
    }
    assert(a@ =~= b@);
    true
}

/// Appends the characters of an ASCII text to `out`, one byte each.
pub fn push_text(out: &mut Vec<u8>, text: &str)
    requires
        vstd::utf8::is_ascii_chars(text@),
    ensures
        final(out)@ == old(out)@ + ascii(text@),
{
    let bytes = text.as_bytes();
    proof {
        vstd::utf8::is_ascii_chars_encode_utf8(text@);
        assert(bytes@ =~= ascii(text@));
    }
    push_bytes(out, bytes);
}

/// The value of `data` read as a string of big-endian 16-bit words, all added up. An odd last byte
/// is the high byte of its word.
pub open spec fn word_sum(data: Seq<u8>) -> nat
    decreases data.len(),
{
    if data.len() == 0 {
        0
    } else {
        word_sum(data.drop_last()) + byte_value(data.last(), data.len() - 1)
    }
}

/// What the byte `b` at index `i` counts for in its 16-bit word.
pub open spec fn byte_value(b: u8, i: int) -> nat {
    if i % 2 == 0 {
        b as nat * 0x100
    } else {
        b as nat
    }
}

/// The 16-bit one's-complement sum that `total` folds to: carries out of the low 16 bits are added
/// back in. It is the number from 1 to 65535 that `total` is congruent to modulo 65535, or 0 for 0.
pub open spec fn fold16(total: nat) -> nat {
    if total == 0 {
        0
    } else {
        ((total - 1) % 65535 + 1) as nat
    }
}

/// The internet checksum of words that add up to `total`.
pub open spec fn internet_checksum(total: nat) -> u16 {
    (65535 - fold16(total)) as u16
}

/// Folding may be done after each word: only the folded sum so far matters.
pub proof fn fold16_step(total: nat, word: nat)
    requires
        word <= 65535,
    ensures
        fold16(total) <= 65535,
        fold16(total + word) == if fold16(total) + word > 65535 {
            fold16(total) + word - 65535
        } else {
            fold16(total) + word as int
        },
{
}

/// Words that add up to `total` plus their own checksum have the checksum zero.
pub proof fn checksum_closes(total: nat)
    ensures
        internet_checksum(total + internet_checksum(total) as nat) == 0,
{
    let c = internet_checksum(total) as nat;
    if total == 0 {
        assert(c == 65535);
    } else {
        let q = (total - 1) / 65535;
        assert(total - 1 == 65535 * q + (total - 1) % 65535);
        assert(total + c == 65535 * (q + 1));
        assert((65535 * (q + 1) - 1) % 65535 == 65534) by (nonlinear_arith)
            requires
                q >= 0,
        ;
    }
}

/// Overwriting one byte moves the word sum by what that byte counts for.
pub proof fn word_sum_update(s: Seq<u8>, i: int, b: u8)
    requires
        0 <= i < s.len(),
    ensures
        word_sum(s.update(i, b)) == word_sum(s) + byte_value(b, i) - byte_value(s[i], i),
    decreases s.len(),
{
    let t = s.update(i, b);
    if i == s.len() - 1 {
        assert(t.drop_last() =~= s.drop_last());
    } else {
        assert(t.drop_last() =~= s.drop_last().update(i, b));
        word_sum_update(s.drop_last(), i, b);
    }
}

/// Storing a checksum in a word that was zero adds the checksum to the word sum.
pub proof fn word_sum_store(s: Seq<u8>, at: int, x: u16)
    requires
        0 <= at,
        at + 1 < s.len(),
        at % 2 == 0,
        s[at] == 0,
        s[at + 1] == 0,
    ensures
        word_sum(s.update(at, be16_bytes(x)[0]).update(at + 1, be16_bytes(x)[1])) == word_sum(s)
            + x as nat,
{
    let t = s.update(at, be16_bytes(x)[0]);
    word_sum_update(s, at, be16_bytes(x)[0]);
    word_sum_update(t, at + 1, be16_bytes(x)[1]);
}

/// Adds the words of `data` to the folded sum of the words before them.
pub(crate) fn add_words(sum: u32, data: &[u8], Ghost(before): Ghost<nat>) -> (r: u32)
    requires
        sum == fold16(before),
    ensures
        r == fold16(before + word_sum(data@)),
        r <= 65535,
{
    let mut sum: u32 = sum;
    let mut i: usize = 0;
    assert(data@.subrange(0, 0) =~= Seq::<u8>::empty());
    while i < data.len()
        invariant
            i <= data@.len(),
            i % 2 == 0 || i == data@.len(),
            sum == fold16(before + word_sum(data@.subrange(0, i as int))),
            sum <= 65535,
        decreases data@.len() - i,
    {
        let ghost done = data@.subrange(0, i as int);
        let high = data[i] as u32 * 0x100;
        let ghost next = data@.subrange(0, i + 1);
        proof {
            assert(next.drop_last() =~= done);
            assert(next.last() == data@[i as int]);
            assert(word_sum(next) == word_sum(done) + high);
        }
        let word: u32 = if i + 1 < data.len() {
            let ghost after = data@.subrange(0, i + 2);
            proof {
                assert(after.drop_last() =~= next);
                assert(after.last() == data@[i + 1]);
                assert(word_sum(after) == word_sum(done) + high + data@[i + 1]);
            }
            high + data[i + 1] as u32
        } else {
            high
        };
        proof {
            fold16_step(before + word_sum(done), word as nat);
        }
        sum = sum + word;
        if sum > 65535 {
            sum = sum - 65535;
        }
        i = if i + 1 < data.len() { i + 2 } else { i + 1 };
    }
    assert(data@.subrange(0, data@.len() as int) =~= data@);
    sum
}

} // verus!
