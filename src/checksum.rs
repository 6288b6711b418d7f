//! Internet checksum (RFC 1071) over IPv6 packets with their pseudo-header.
use vstd::prelude::*;

verus! {

/// Sum of the 16-bit words of `b`, each read in network byte order; an odd
/// trailing byte is the high byte of a word whose low byte is zero.
pub open spec fn word_sum(b: Seq<u8>) -> nat
    decreases b.len(),
{
    if b.len() == 0 {
        0
    } else if b.len() == 1 {
        (b[0] as nat) * 256
    } else {
        (b[0] as nat) * 256 + (b[1] as nat) + word_sum(b.subrange(2, b.len() as int))
    }
}

/// The ones'-complement sum of a plain sum, as a 16-bit value: every carry out
/// of bit 15 is added back in, which is the sum modulo 0xffff, where a non-zero
/// multiple of 0xffff gives 0xffff.
pub open spec fn fold16(s: nat) -> nat {
    if s == 0 {
        0
    } else {
        ((s - 1) as nat % 0xffff) + 1
    }
}

/// The checksum field for an accumulated sum: the complement of its folded
/// value, in network byte order.
pub open spec fn checksum_bytes(s: nat) -> Seq<u8> {
    let c = 0xffff - fold16(s);
    seq![(c / 256) as u8, (c % 256) as u8]
}

/// What the IPv6 pseudo-header checksum adds up for a packet: the payload
/// length field, the next-header byte, then every byte from the source address
/// to the end of the packet.
pub open spec fn pseudo_sum(p: Seq<u8>) -> nat
    recommends
        p.len() >= 8,
{
    word_sum(p.subrange(4, 6)) + (p[6] as nat) + word_sum(p.subrange(8, p.len() as int))
}

/// Smallest packet whose pseudo-header can be read: the fixed IPv6 header.
pub const IPV6_HEADER_LEN: usize = 40;

/// Largest IPv6 packet without jumbogram extension.
pub const IPV6_MAX_PACKET_LEN: usize = 65575;

proof fn lemma_word_sum_bound(b: Seq<u8>)
    ensures
        word_sum(b) <= 32768 * (b.len() + 1),
    decreases b.len(),
{
    if b.len() >= 2 {
        lemma_word_sum_bound(b.subrange(2, b.len() as int));
    }
}

proof fn lemma_fold_step(s: nat)
    requires
        s > 0xffff,
    ensures
        fold16(s / 0x10000 + s % 0x10000) == fold16(s),
{
    let q = s / 0x10000;
    let r = s % 0x10000;
    vstd::arithmetic::div_mod::lemma_fundamental_div_mod(s as int, 0x10000);
    assert(q >= 1);
    assert((s - 1) as int == 0xffff * q + (q + r - 1));
    vstd::arithmetic::div_mod::lemma_mod_multiples_vanish(q as int, q + r - 1, 0xffff);
}

/// Adds the words of `bytes` to the running sum.
pub fn checksum_roll(sum32: &mut u32, bytes: &[u8])
    requires
        *old(sum32) as nat + word_sum(bytes@) <= u32::MAX,
    ensures
        *final(sum32) as nat == *old(sum32) as nat + word_sum(bytes@),
{
    let n = bytes.len();
    let mut i: usize = 0;
    assert(bytes@.subrange(0, n as int) =~= bytes@);
    while n - i >= 2
        invariant
            i <= n,
            n == bytes@.len(),
            *old(sum32) as nat + word_sum(bytes@) == *sum32 as nat + word_sum(
                bytes@.subrange(i as int, n as int),
            ),
            *old(sum32) as nat + word_sum(bytes@) <= u32::MAX,
        decreases n - i,
    {
        let ghost rest = bytes@.subrange(i as int, n as int);
        assert(rest.subrange(2, rest.len() as int) =~= bytes@.subrange(i + 2, n as int));
        *sum32 = *sum32 + (bytes[i] as u32) * 256 + (bytes[i + 1] as u32);
        i = i + 2;
    }
    if i < n {
        *sum32 = *sum32 + (bytes[i] as u32) * 256;
    }
}

/// Folds the carries of a running sum back into 16 bits and returns the
/// complement in network byte order.
pub fn checksum_finish(sum32: u32) -> (r: [u8; 2])
    ensures
        r@ == checksum_bytes(sum32 as nat),
{
    let mut s: u32 = sum32;
    while s > 0xffff
        invariant
            fold16(s as nat) == fold16(sum32 as nat),
        decreases s,
    {
        proof {
            lemma_fold_step(s as nat);
        }
        assert(s >> 16 == s / 0x10000) by (bit_vector);
        assert(s & 0xffff == s % 0x10000) by (bit_vector);
        s = (s >> 16) + (s & 0xffff);
    }
    assert(fold16(s as nat) == s as nat);
    let c: u32 = 0xffff - s;
    let r = [(c / 256) as u8, (c % 256) as u8];
    assert(r@ =~= checksum_bytes(sum32 as nat));
    r
}

/// Checksum of an ICMPv6 or UDP packet over IPv6, read from the whole packet:
/// the pseudo-header, then the upper-layer payload as it stands. `None` when
/// the packet is shorter than the fixed IPv6 header.
pub fn icmpv6_udp_checksum(source: &[u8]) -> (r: Option<[u8; 2]>)
    requires
        source@.len() <= IPV6_MAX_PACKET_LEN,
    ensures
        match r {
            None => source@.len() < IPV6_HEADER_LEN,
            Some(c) => source@.len() >= IPV6_HEADER_LEN && c@ == checksum_bytes(pseudo_sum(source@)),
        },
{
    if source.len() < IPV6_HEADER_LEN {
        return None;
    }
    let mut sum32: u32 = 0;
    let len_field = vstd::slice::slice_subrange(source, 4, 6);
    proof {
        lemma_word_sum_bound(source@.subrange(4, 6));
        lemma_word_sum_bound(source@.subrange(8, source@.len() as int));
    }
    checksum_roll(&mut sum32, len_field);
    sum32 = sum32 + source[6] as u32;
    let rest = vstd::slice::slice_subrange(source, 8, source.len());
    checksum_roll(&mut sum32, rest);
    Some(checksum_finish(sum32))
}

/// `z` with the checksum of its final bytes written at offset `c`.
pub open spec fn with_checksum(z: Seq<u8>, c: int) -> Seq<u8> {
    let k = checksum_bytes(pseudo_sum(z));
    z.update(c, k[0]).update(c + 1, k[1])
}

proof fn lemma_word_sum_put(b: Seq<u8>, j: int, x: u8, y: u8)
    requires
        0 <= j,
        j % 2 == 0,
        j + 1 < b.len(),
        b[j] == 0,
        b[j + 1] == 0,
    ensures
        word_sum(b.update(j, x).update(j + 1, y)) == word_sum(b) + (x as nat) * 256 + (y as nat),
    decreases j,
{
    let b2 = b.update(j, x).update(j + 1, y);
    if j == 0 {
        assert(b2.subrange(2, b2.len() as int) =~= b.subrange(2, b.len() as int));
    } else {
        let t = b.subrange(2, b.len() as int);
        lemma_word_sum_put(t, j - 2, x, y);
        assert(b2.subrange(2, b2.len() as int) =~= t.update(j - 2, x).update(j - 1, y));
    }
}

proof fn lemma_complement_folds(s: nat)
    ensures
        fold16((s + 0xffff - fold16(s)) as nat) == 0xffff,
{
    let m: int = 0xffff;
    if s > 0 {
        let q = (s - 1) as int / m;
        let r = (s - 1) as int % m;
        vstd::arithmetic::div_mod::lemma_fundamental_div_mod((s - 1) as int, m);
        assert(s + m - fold16(s) == m * (q + 1));
        assert((m * (q + 1) - 1) == m * q + (m - 1));
        vstd::arithmetic::div_mod::lemma_mod_multiples_vanish(q, m - 1, m);
    }
}

/// Writing the computed checksum into a zeroed checksum field of the payload
/// makes the packet check: its ones'-complement sum, checksum included, is
/// all ones.
pub proof fn lemma_checksum_round_trip(p: Seq<u8>, c: int)
    requires
        IPV6_HEADER_LEN <= c,
        c % 2 == 0,
        c + 1 < p.len(),
        p[c] == 0,
        p[c + 1] == 0,
    ensures
        fold16(pseudo_sum(with_checksum(p, c))) == 0xffff,
{
    let s = pseudo_sum(p);
    let k = checksum_bytes(s);
    let q = with_checksum(p, c);
    let tail = p.subrange(8, p.len() as int);
    lemma_word_sum_put(tail, c - 8, k[0], k[1]);
    assert(q.subrange(8, q.len() as int) =~= tail.update(c - 8, k[0]).update(c - 7, k[1]));
    assert(q.subrange(4, 6) =~= p.subrange(4, 6));
    assert((k[0] as nat) * 256 + (k[1] as nat) == 0xffff - fold16(s));
    lemma_complement_folds(s);
}

} // verus!
