//! Rewriting of Router Advertisements (RDNSS option) and DHCPv6 Replies
//! (DNS recursive name server option).
use vstd::prelude::*;
use crate::checksum::{
    IPV6_HEADER_LEN, checksum_bytes, fold16, icmpv6_udp_checksum, lemma_checksum_round_trip,
    pseudo_sum, with_checksum,
};

verus! {

/// Next-header value of ICMPv6.
pub const NEXT_HEADER_ICMPV6: u8 = 58;

/// Next-header value of UDP.
pub const NEXT_HEADER_UDP: u8 = 17;

/// ICMPv6 type of a Router Advertisement.
pub const ICMPV6_ROUTER_ADVERTISEMENT: u8 = 134;

/// DHCPv6 message type of a Reply.
pub const DHCPV6_REPLY: u8 = 7;

/// Router Advertisement option type of a Recursive DNS Server option.
pub const OPT_RDNSS: u8 = 25;

/// Low byte of the DHCPv6 option code of the DNS recursive name server option
/// (its high byte is zero).
pub const OPT_DNS_SERVERS: u8 = 0x17;

/// Offset of the Router Advertisement options: IPv6 header, then the 16 bytes
/// of the fixed RA header.
pub const RA_OPTIONS_START: usize = 56;

/// Offset of the DHCPv6 options: IPv6 header, UDP header, then message type and
/// transaction id.
pub const DHCP_OPTIONS_START: usize = 52;

/// `d` in front of the list in `r`, when there is one.
pub open spec fn join(d: Seq<Seq<u8>>, r: Option<Seq<Seq<u8>>>) -> Option<Seq<Seq<u8>>> {
    match r {
        Some(l) => Some(d + l),
        None => None,
    }
}

/// Splits a Router Advertisement option region into its options. Each option
/// gives its own length in units of 8 bytes, header included; a zero length or
/// one that runs past the end makes the region malformed.
pub open spec fn ra_options(b: Seq<u8>) -> Option<Seq<Seq<u8>>>
    decreases b.len(),
{
    if b.len() == 0 {
        Some(Seq::empty())
    } else if b.len() < 2 || b[1] == 0 || (b[1] as int) * 8 > b.len() {
        None
    } else {
        let l = (b[1] as int) * 8;
        join(seq![b.subrange(0, l)], ra_options(b.subrange(l, b.len() as int)))
    }
}

/// Splits a DHCPv6 option region into its options: a 2-byte code and a 2-byte
/// length of the data that follows, both big-endian.
pub open spec fn dhcp_options(b: Seq<u8>) -> Option<Seq<Seq<u8>>>
    decreases b.len(),
{
    if b.len() == 0 {
        Some(Seq::empty())
    } else if b.len() < 4 || (b[2] as int) * 256 + (b[3] as int) + 4 > b.len() {
        None
    } else {
        let l = (b[2] as int) * 256 + (b[3] as int) + 4;
        join(seq![b.subrange(0, l)], dhcp_options(b.subrange(l, b.len() as int)))
    }
}

pub open spec fn is_rdnss(o: Seq<u8>) -> bool {
    o[0] == OPT_RDNSS
}

pub open spec fn is_dns_servers(o: Seq<u8>) -> bool {
    o[0] == 0 && o[1] == OPT_DNS_SERVERS
}

/// The options of a list that are not RDNSS options, in their order.
pub open spec fn ra_kept(l: Seq<Seq<u8>>) -> Seq<Seq<u8>> {
    l.filter(|o: Seq<u8>| !is_rdnss(o))
}

/// The options of a list that are not DNS server options, in their order.
pub open spec fn dhcp_kept(l: Seq<Seq<u8>>) -> Seq<Seq<u8>> {
    l.filter(|o: Seq<u8>| !is_dns_servers(o))
}

/// Big-endian bytes of a 16-bit value.
pub open spec fn be16(n: nat) -> Seq<u8> {
    seq![(n / 256) as u8, (n % 256) as u8]
}

/// Big-endian bytes of a 32-bit value.
pub open spec fn be32(n: u32) -> Seq<u8> {
    seq![
        (n / 0x1000000) as u8,
        ((n / 0x10000) % 256) as u8,
        ((n / 0x100) % 256) as u8,
        (n % 256) as u8,
    ]
}

/// An RDNSS option carrying one address: type, length 3 (24 bytes), two
/// reserved bytes, the lifetime, the address.
pub open spec fn rdnss_option(lifetime: u32, ip: Seq<u8>) -> Seq<u8> {
    seq![OPT_RDNSS, 3u8, 0u8, 0u8] + be32(lifetime) + ip
}

/// A DHCPv6 DNS recursive name server option carrying one address.
pub open spec fn dns_servers_option(ip: Seq<u8>) -> Seq<u8> {
    seq![0u8, OPT_DNS_SERVERS, 0u8, 16u8] + ip
}

/// The fixed headers of a rewritten Router Advertisement: payload length `n`,
/// checksum zeroed, the "other configuration" flag set.
pub open spec fn ra_header(p: Seq<u8>, n: nat) -> Seq<u8> {
    let h = p.subrange(0, RA_OPTIONS_START as int);
    h.update(4, be16(n)[0]).update(5, be16(n)[1]).update(42, 0).update(43, 0).update(
        45,
        h[45] | 0x40,
    )
}

/// The fixed headers of a rewritten DHCPv6 Reply: IPv6 payload length and UDP
/// length `n`, checksum zeroed.
pub open spec fn dhcp_header(p: Seq<u8>, n: nat) -> Seq<u8> {
    let h = p.subrange(0, DHCP_OPTIONS_START as int);
    h.update(4, be16(n)[0]).update(5, be16(n)[1]).update(44, be16(n)[0]).update(
        45,
        be16(n)[1],
    ).update(46, 0).update(47, 0)
}

/// A Router Advertisement with its RDNSS options replaced by one for `ip`.
pub open spec fn ra_rewrite(p: Seq<u8>, lifetime: u32, ip: Seq<u8>) -> Option<Seq<u8>> {
    if p.len() < RA_OPTIONS_START || p[40] != ICMPV6_ROUTER_ADVERTISEMENT {
        None
    } else {
        match ra_options(p.subrange(RA_OPTIONS_START as int, p.len() as int)) {
            None => None,
            Some(l) => {
                let opts = ra_kept(l).flatten() + rdnss_option(lifetime, ip);
                let n = 16 + opts.len();
                if n > 0xffff {
                    None
                } else {
                    Some(with_checksum(ra_header(p, n) + opts, 42))
                }
            },
        }
    }
}

/// A DHCPv6 Reply with its DNS server options replaced by one for `ip`.
pub open spec fn dhcp_rewrite(p: Seq<u8>, ip: Seq<u8>) -> Option<Seq<u8>> {
    if p.len() < DHCP_OPTIONS_START || p[48] != DHCPV6_REPLY {
        None
    } else {
        match dhcp_options(p.subrange(DHCP_OPTIONS_START as int, p.len() as int)) {
            None => None,
            Some(l) => {
                let opts = dhcp_kept(l).flatten() + dns_servers_option(ip);
                let n = 12 + opts.len();
                if n > 0xffff {
                    None
                } else {
                    Some(with_checksum(dhcp_header(p, n) + opts, 46))
                }
            },
        }
    }
}

/// What `modify` makes of a packet: the rewritten Router Advertisement or
/// DHCPv6 Reply, or `None` when the packet is neither, is malformed, or would
/// not fit the 16-bit length fields.
pub open spec fn rewrite(p: Seq<u8>, lifetime: u32, ip: Seq<u8>) -> Option<Seq<u8>> {
    if p.len() < 7 {
        None
    } else if p[6] == NEXT_HEADER_ICMPV6 {
        ra_rewrite(p, lifetime, ip)
    } else if p[6] == NEXT_HEADER_UDP {
        dhcp_rewrite(p, ip)
    } else {
        None
    }
}

pub open spec fn bytes_of(r: Option<Vec<u8>>) -> Option<Seq<u8>> {
    match r {
        Some(v) => Some(v@),
        None => None,
    }
}

proof fn lemma_join_push(d: Seq<Seq<u8>>, o: Seq<u8>, r: Option<Seq<Seq<u8>>>)
    ensures
        join(d, join(seq![o], r)) == join(d.push(o), r),
{
    if let Some(x) = r {
        assert(d + (seq![o] + x) =~= d.push(o) + x);
    }
}

proof fn lemma_ra_kept_push(l: Seq<Seq<u8>>, o: Seq<u8>)
    ensures
        ra_kept(l.push(o)) == if is_rdnss(o) {
            ra_kept(l)
        } else {
            ra_kept(l).push(o)
        },
{
    reveal(Seq::filter);
    assert(l.push(o).drop_last() =~= l);
}

proof fn lemma_dhcp_kept_push(l: Seq<Seq<u8>>, o: Seq<u8>)
    ensures
        dhcp_kept(l.push(o)) == if is_dns_servers(o) {
            dhcp_kept(l)
        } else {
            dhcp_kept(l).push(o)
        },
{
    reveal(Seq::filter);
    assert(l.push(o).drop_last() =~= l);
}

fn push_bytes(out: &mut Vec<u8>, b: &[u8])
    ensures
        final(out)@ == old(out)@ + b@,
{
    let mut i: usize = 0;
    while i < b.len()
        invariant
            i <= b@.len(),
            out@ == old(out)@ + b@.subrange(0, i as int),
        decreases b@.len() - i,
    {
        out.push(b[i]);
        i = i + 1;
        assert(out@ =~= old(out)@ + b@.subrange(0, i as int));
    }
    assert(b@.subrange(0, i as int) =~= b@);
}

/// The options of a Router Advertisement option region other than RDNSS,
/// concatenated in their order; `None` when the region is malformed.
fn strip_rdnss(b: &[u8]) -> (r: Option<Vec<u8>>)
    ensures
        bytes_of(r) == match ra_options(b@) {
            Some(l) => Some(ra_kept(l).flatten()),
            None => None,
        },
{
    let n = b.len();
    let mut out: Vec<u8> = Vec::new();
    let mut at: usize = 0;
    let ghost mut done: Seq<Seq<u8>> = Seq::empty();
    assert(b@.subrange(0, n as int) =~= b@);
    assert(ra_kept(done) =~= Seq::empty()) by {
        reveal(Seq::filter);
    }
    assert(join(done, ra_options(b@)) == ra_options(b@)) by {
        if let Some(x) = ra_options(b@) {
            assert(done + x =~= x);
        }
    }
    while at < n
        invariant
            at <= n,
            n == b@.len(),
            ra_options(b@) == join(done, ra_options(b@.subrange(at as int, n as int))),
            out@ == ra_kept(done).flatten(),
        decreases n - at,
    {
        let ghost rest = b@.subrange(at as int, n as int);
        if n - at < 2 {
            return None;
        }
        let l: usize = (b[at + 1] as usize) * 8;
        if l == 0 || l > n - at {
            return None;
        }
        let ghost o = b@.subrange(at as int, (at + l) as int);
        assert(rest.subrange(0, l as int) =~= o);
        assert(rest.subrange(l as int, rest.len() as int) =~= b@.subrange((at + l) as int, n as int));
        assert(o[0] == b@[at as int]);
        if b[at] != OPT_RDNSS {
            push_bytes(&mut out, vstd::slice::slice_subrange(b, at, at + l));
        }
        proof {
            lemma_join_push(done, o, ra_options(b@.subrange((at + l) as int, n as int)));
            lemma_ra_kept_push(done, o);
            ra_kept(done).lemma_flatten_push(o);
            done = done.push(o);
        }
        at = at + l;
    }
    assert(b@.subrange(n as int, n as int) =~= Seq::<u8>::empty());
    assert(done + Seq::<Seq<u8>>::empty() =~= done);
    Some(out)
}

/// The options of a DHCPv6 option region other than DNS server options,
/// concatenated in their order; `None` when the region is malformed.
fn strip_dns_servers(b: &[u8]) -> (r: Option<Vec<u8>>)
    ensures
        bytes_of(r) == match dhcp_options(b@) {
            Some(l) => Some(dhcp_kept(l).flatten()),
            None => None,
        },
{
    let n = b.len();
    let mut out: Vec<u8> = Vec::new();
    let mut at: usize = 0;
    let ghost mut done: Seq<Seq<u8>> = Seq::empty();
    assert(b@.subrange(0, n as int) =~= b@);
    assert(dhcp_kept(done) =~= Seq::empty()) by {
        reveal(Seq::filter);
    }
    assert(join(done, dhcp_options(b@)) == dhcp_options(b@)) by {
        if let Some(x) = dhcp_options(b@) {
            assert(done + x =~= x);
        }
    }
    while at < n
        invariant
            at <= n,
            n == b@.len(),
            dhcp_options(b@) == join(done, dhcp_options(b@.subrange(at as int, n as int))),
            out@ == dhcp_kept(done).flatten(),
        decreases n - at,
    {
        let ghost rest = b@.subrange(at as int, n as int);
        if n - at < 4 {
            return None;
        }
        let l: usize = (b[at + 2] as usize) * 256 + (b[at + 3] as usize) + 4;
        if l > n - at {
            return None;
        }
        let ghost o = b@.subrange(at as int, (at + l) as int);
        assert(rest.subrange(0, l as int) =~= o);
        assert(rest.subrange(l as int, rest.len() as int) =~= b@.subrange((at + l) as int, n as int));
        assert(o[0] == b@[at as int] && o[1] == b@[at + 1]);
        if b[at] != 0 || b[at + 1] != OPT_DNS_SERVERS {
            push_bytes(&mut out, vstd::slice::slice_subrange(b, at, at + l));
        }
        proof {
            lemma_join_push(done, o, dhcp_options(b@.subrange((at + l) as int, n as int)));
            lemma_dhcp_kept_push(done, o);
            dhcp_kept(done).lemma_flatten_push(o);
            done = done.push(o);
        }
        at = at + l;
    }
    assert(b@.subrange(n as int, n as int) =~= Seq::<u8>::empty());
    assert(done + Seq::<Seq<u8>>::empty() =~= done);
    Some(out)
}

/// Writes the pseudo-header checksum of the packet at offset `c`, where the
/// field has been zeroed.
fn write_checksum(z: &mut Vec<u8>, c: usize)
    requires
        IPV6_HEADER_LEN <= c,
        c + 1 < old(z)@.len() <= IPV6_HEADER_LEN + 0xffff,
    ensures
        final(z)@ == with_checksum(old(z)@, c as int),
{
    let k = icmpv6_udp_checksum(z.as_slice());
    let k = k.unwrap();
    z[c] = k[0];
    z[c + 1] = k[1];
}

/// Rewrites a Router Advertisement or a DHCPv6 Reply so that it announces
/// `ip` as its only DNS resolver.
///
/// In a Router Advertisement the "other configuration" flag is set, every RDNSS
/// option is removed and one RDNSS option with `lifetime` (seconds) and `ip` is
/// appended. In a DHCPv6 Reply every DNS recursive name server option is
/// removed and one with `ip` is appended. Length fields and the checksum are
/// recomputed. `None` when the packet is neither, is malformed or truncated,
/// or would outgrow the 16-bit length fields.
pub fn modify(source: &[u8], lifetime: u32, ip: [u8; 16]) -> (r: Option<Vec<u8>>)
    ensures
        bytes_of(r) == rewrite(source@, lifetime, ip@),
{
    let len = source.len();
    if len < 7 {
        return None;
    }
    if source[6] == NEXT_HEADER_ICMPV6 {
        if len < RA_OPTIONS_START || source[40] != ICMPV6_ROUTER_ADVERTISEMENT {
            return None;
        }
        let kept = strip_rdnss(vstd::slice::slice_subrange(source, RA_OPTIONS_START, len));
        let mut opts = match kept {
            Some(k) => k,
            None => {
                return None;
            },
        };
        opts.push(OPT_RDNSS);
        opts.push(3);
        opts.push(0);
        opts.push(0);
        opts.push((lifetime / 0x1000000) as u8);
        opts.push(((lifetime / 0x10000) % 256) as u8);
        opts.push(((lifetime / 0x100) % 256) as u8);
        opts.push((lifetime % 256) as u8);
        push_bytes(&mut opts, ip.as_slice());
        proof {
            let l = ra_options(source@.subrange(RA_OPTIONS_START as int, len as int)).unwrap();
            assert(opts@ =~= ra_kept(l).flatten() + rdnss_option(lifetime, ip@));
        }
        if opts.len() > 0xffff - 16 {
            return None;
        }
        let n: usize = 16 + opts.len();
        let mut z = vstd::slice::slice_to_vec(vstd::slice::slice_subrange(source, 0, RA_OPTIONS_START));
        z[4] = (n / 256) as u8;
        z[5] = (n % 256) as u8;
        z[42] = 0;
        z[43] = 0;
        z[45] = source[45] | 0x40;
        proof {
            assert(z@ =~= ra_header(source@, n as nat));
        }
        push_bytes(&mut z, opts.as_slice());
        write_checksum(&mut z, 42);
        Some(z)
    } else if source[6] == NEXT_HEADER_UDP {
        if len < DHCP_OPTIONS_START || source[48] != DHCPV6_REPLY {
            return None;
        }
        let kept = strip_dns_servers(vstd::slice::slice_subrange(source, DHCP_OPTIONS_START, len));
        let mut opts = match kept {
            Some(k) => k,
            None => {
                return None;
            },
        };
        opts.push(0);
        opts.push(OPT_DNS_SERVERS);
        opts.push(0);
        opts.push(16);
        push_bytes(&mut opts, ip.as_slice());
        proof {
            let l = dhcp_options(source@.subrange(DHCP_OPTIONS_START as int, len as int)).unwrap();
            assert(opts@ =~= dhcp_kept(l).flatten() + dns_servers_option(ip@));
        }
        if opts.len() > 0xffff - 12 {
            return None;
        }
        let n: usize = 12 + opts.len();
        let mut z = vstd::slice::slice_to_vec(vstd::slice::slice_subrange(source, 0, DHCP_OPTIONS_START));
        z[4] = (n / 256) as u8;
        z[5] = (n % 256) as u8;
        z[44] = (n / 256) as u8;
        z[45] = (n % 256) as u8;
        z[46] = 0;
        z[47] = 0;
        proof {
            assert(z@ =~= dhcp_header(source@, n as nat));
        }
        push_bytes(&mut z, opts.as_slice());
        write_checksum(&mut z, 46);
        Some(z)
    } else {
        None
    }
}

/// A Router Advertisement option whose length field matches its size.
pub open spec fn ra_option_wf(o: Seq<u8>) -> bool {
    o.len() >= 2 && o[1] > 0 && o.len() == (o[1] as int) * 8
}

/// A DHCPv6 option whose length field matches its size.
pub open spec fn dhcp_option_wf(o: Seq<u8>) -> bool {
    o.len() >= 4 && o.len() == (o[2] as int) * 256 + (o[3] as int) + 4
}

proof fn lemma_ra_options_wf(b: Seq<u8>)
    ensures
        ra_options(b) is Some ==> forall|i: int|
            0 <= i < ra_options(b).unwrap().len() ==> ra_option_wf(
                #[trigger] ra_options(b).unwrap()[i],
            ),
    decreases b.len(),
{
    if b.len() > 0 && ra_options(b) is Some {
        let l = (b[1] as int) * 8;
        lemma_ra_options_wf(b.subrange(l, b.len() as int));
    }
}

proof fn lemma_dhcp_options_wf(b: Seq<u8>)
    ensures
        dhcp_options(b) is Some ==> forall|i: int|
            0 <= i < dhcp_options(b).unwrap().len() ==> dhcp_option_wf(
                #[trigger] dhcp_options(b).unwrap()[i],
            ),
    decreases b.len(),
{
    if b.len() > 0 && dhcp_options(b) is Some {
        let l = (b[2] as int) * 256 + (b[3] as int) + 4;
        lemma_dhcp_options_wf(b.subrange(l, b.len() as int));
    }
}

proof fn lemma_ra_kept_wf(l: Seq<Seq<u8>>)
    requires
        forall|i: int| 0 <= i < l.len() ==> ra_option_wf(#[trigger] l[i]),
    ensures
        forall|i: int| 0 <= i < ra_kept(l).len() ==> ra_option_wf(#[trigger] ra_kept(l)[i]),
        forall|i: int| 0 <= i < ra_kept(l).len() ==> !is_rdnss(#[trigger] ra_kept(l)[i]),
    decreases l.len(),
{
    if l.len() > 0 {
        let d = l.drop_last();
        lemma_ra_kept_wf(d);
        lemma_ra_kept_push(d, l.last());
        assert(d.push(l.last()) =~= l);
    } else {
        reveal(Seq::filter);
    }
}

proof fn lemma_dhcp_kept_wf(l: Seq<Seq<u8>>)
    requires
        forall|i: int| 0 <= i < l.len() ==> dhcp_option_wf(#[trigger] l[i]),
    ensures
        forall|i: int| 0 <= i < dhcp_kept(l).len() ==> dhcp_option_wf(#[trigger] dhcp_kept(l)[i]),
        forall|i: int| 0 <= i < dhcp_kept(l).len() ==> !is_dns_servers(#[trigger] dhcp_kept(l)[i]),
    decreases l.len(),
{
    if l.len() > 0 {
        let d = l.drop_last();
        lemma_dhcp_kept_wf(d);
        lemma_dhcp_kept_push(d, l.last());
        assert(d.push(l.last()) =~= l);
    } else {
        reveal(Seq::filter);
    }
}

proof fn lemma_ra_options_flatten(l: Seq<Seq<u8>>, tail: Seq<u8>)
    requires
        forall|i: int| 0 <= i < l.len() ==> ra_option_wf(#[trigger] l[i]),
    ensures
        ra_options(l.flatten() + tail) == join(l, ra_options(tail)),
    decreases l.len(),
{
    if l.len() == 0 {
        assert(l.flatten() + tail =~= tail);
        if let Some(x) = ra_options(tail) {
            assert(l + x =~= x);
        }
    } else {
        let o = l[0];
        let r = l.drop_first();
        assert(ra_option_wf(o));
        lemma_ra_options_flatten(r, tail);
        let b = l.flatten() + tail;
        assert(b =~= o + (r.flatten() + tail));
        assert(b.subrange(0, o.len() as int) =~= o);
        assert(b.subrange(o.len() as int, b.len() as int) =~= r.flatten() + tail);
        if let Some(x) = ra_options(tail) {
            assert(seq![o] + (r + x) =~= l + x);
        }
    }
}

proof fn lemma_dhcp_options_flatten(l: Seq<Seq<u8>>, tail: Seq<u8>)
    requires
        forall|i: int| 0 <= i < l.len() ==> dhcp_option_wf(#[trigger] l[i]),
    ensures
        dhcp_options(l.flatten() + tail) == join(l, dhcp_options(tail)),
    decreases l.len(),
{
    if l.len() == 0 {
        assert(l.flatten() + tail =~= tail);
        if let Some(x) = dhcp_options(tail) {
            assert(l + x =~= x);
        }
    } else {
        let o = l[0];
        let r = l.drop_first();
        assert(dhcp_option_wf(o));
        lemma_dhcp_options_flatten(r, tail);
        let b = l.flatten() + tail;
        assert(b =~= o + (r.flatten() + tail));
        assert(b.subrange(0, o.len() as int) =~= o);
        assert(b.subrange(o.len() as int, b.len() as int) =~= r.flatten() + tail);
        if let Some(x) = dhcp_options(tail) {
            assert(seq![o] + (r + x) =~= l + x);
        }
    }
}

proof fn lemma_be16(n: nat)
    requires
        n <= 0xffff,
    ensures
        (be16(n)[0] as nat) * 256 + (be16(n)[1] as nat) == n,
{
}

/// A well-formed Router Advertisement comes out of `modify` with the "other
/// configuration" flag set, its options other than RDNSS kept in their order
/// followed by exactly one RDNSS option for `lifetime` and `ip`, its payload
/// length field equal to its payload size, and a checksum field that equals
/// the checksum of the final bytes with that field zeroed, so that the packet
/// checks. The rewrite fails only where the payload would outgrow 16 bits.
pub proof fn lemma_router_advertisement_rewrite(p: Seq<u8>, lifetime: u32, ip: Seq<u8>)
    requires
        p.len() >= RA_OPTIONS_START,
        p[6] == NEXT_HEADER_ICMPV6,
        p[40] == ICMPV6_ROUTER_ADVERTISEMENT,
        ra_options(p.subrange(RA_OPTIONS_START as int, p.len() as int)) is Some,
        ip.len() == 16,
    ensures
        ({
            let l = ra_options(p.subrange(RA_OPTIONS_START as int, p.len() as int)).unwrap();
            let kept = ra_kept(l);
            &&& (rewrite(p, lifetime, ip) is None <==> 40 + kept.flatten().len() > 0xffff)
            &&& forall|i: int| 0 <= i < kept.len() ==> !is_rdnss(#[trigger] kept[i])
            &&& rewrite(p, lifetime, ip) matches Some(q) ==> {
                &&& q.len() >= RA_OPTIONS_START
                &&& ra_options(q.subrange(RA_OPTIONS_START as int, q.len() as int)) == Some(
                    kept.push(rdnss_option(lifetime, ip)),
                )
                &&& (q[4] as int) * 256 + (q[5] as int) == q.len() - IPV6_HEADER_LEN
                &&& seq![q[42], q[43]] == checksum_bytes(pseudo_sum(q.update(42, 0).update(43, 0)))
                &&& fold16(pseudo_sum(q)) == 0xffff
                &&& q[45] == p[45] | 0x40
                &&& forall|i: int|
                    0 <= i < RA_OPTIONS_START && i != 4 && i != 5 && i != 42 && i != 43 && i != 45
                        ==> q[i] == p[i]
            }
        }),
{
    let l = ra_options(p.subrange(RA_OPTIONS_START as int, p.len() as int)).unwrap();
    let kept = ra_kept(l);
    lemma_ra_options_wf(p.subrange(RA_OPTIONS_START as int, p.len() as int));
    lemma_ra_kept_wf(l);
    let opts = kept.flatten() + rdnss_option(lifetime, ip);
    let n = 16 + opts.len();
    if n <= 0xffff {
        let z = ra_header(p, n) + opts;
        let q = with_checksum(z, 42);
        let r = rdnss_option(lifetime, ip);
        assert(q.subrange(RA_OPTIONS_START as int, q.len() as int) =~= opts);
        lemma_ra_options_flatten(kept, r);
        let single = seq![r];
        single.lemma_flatten_singleton();
        assert(r + Seq::<u8>::empty() =~= r);
        lemma_ra_options_flatten(single, Seq::empty());
        assert(ra_options(Seq::<u8>::empty()) == Some(Seq::<Seq<u8>>::empty()));
        assert(single + Seq::<Seq<u8>>::empty() =~= single);
        assert(kept + single =~= kept.push(r));
        lemma_be16(n);
        assert(q.update(42, 0).update(43, 0) =~= z);
        lemma_checksum_round_trip(z, 42);
    }
}

/// A well-formed DHCPv6 Reply comes out of `modify` with its options other
/// than DNS recursive name server kept in their order followed by exactly one
/// such option for `ip`, its UDP length and IPv6 payload length fields both
/// equal to its payload size, and a checksum field that equals the checksum of
/// the final bytes with that field zeroed, so that the packet checks. The
/// rewrite fails only where the payload would outgrow 16 bits.
pub proof fn lemma_dhcp_reply_rewrite(p: Seq<u8>, lifetime: u32, ip: Seq<u8>)
    requires
        p.len() >= DHCP_OPTIONS_START,
        p[6] == NEXT_HEADER_UDP,
        p[48] == DHCPV6_REPLY,
        dhcp_options(p.subrange(DHCP_OPTIONS_START as int, p.len() as int)) is Some,
        ip.len() == 16,
    ensures
        ({
            let l = dhcp_options(p.subrange(DHCP_OPTIONS_START as int, p.len() as int)).unwrap();
            let kept = dhcp_kept(l);
            &&& (rewrite(p, lifetime, ip) is None <==> 32 + kept.flatten().len() > 0xffff)
            &&& forall|i: int| 0 <= i < kept.len() ==> !is_dns_servers(#[trigger] kept[i])
            &&& rewrite(p, lifetime, ip) matches Some(q) ==> {
                &&& q.len() >= DHCP_OPTIONS_START
                &&& dhcp_options(q.subrange(DHCP_OPTIONS_START as int, q.len() as int)) == Some(
                    kept.push(dns_servers_option(ip)),
                )
                &&& (q[4] as int) * 256 + (q[5] as int) == q.len() - IPV6_HEADER_LEN
                &&& (q[44] as int) * 256 + (q[45] as int) == q.len() - IPV6_HEADER_LEN
                &&& seq![q[46], q[47]] == checksum_bytes(pseudo_sum(q.update(46, 0).update(47, 0)))
                &&& fold16(pseudo_sum(q)) == 0xffff
                &&& forall|i: int|
                    0 <= i < DHCP_OPTIONS_START && !(4 <= i < 6) && !(44 <= i < 48) ==> q[i] == p[i]
            }
        }),
{
    let l = dhcp_options(p.subrange(DHCP_OPTIONS_START as int, p.len() as int)).unwrap();
    let kept = dhcp_kept(l);
    lemma_dhcp_options_wf(p.subrange(DHCP_OPTIONS_START as int, p.len() as int));
    lemma_dhcp_kept_wf(l);
    let opts = kept.flatten() + dns_servers_option(ip);
    let n = 12 + opts.len();
    if n <= 0xffff {
        let z = dhcp_header(p, n) + opts;
        let q = with_checksum(z, 46);
        let r = dns_servers_option(ip);
        assert(q.subrange(DHCP_OPTIONS_START as int, q.len() as int) =~= opts);
        lemma_dhcp_options_flatten(kept, r);
        let single = seq![r];
        single.lemma_flatten_singleton();
        assert(r + Seq::<u8>::empty() =~= r);
        lemma_dhcp_options_flatten(single, Seq::empty());
        assert(dhcp_options(Seq::<u8>::empty()) == Some(Seq::<Seq<u8>>::empty()));
        assert(single + Seq::<Seq<u8>>::empty() =~= single);
        assert(kept + single =~= kept.push(r));
        lemma_be16(n);
        assert(q.update(46, 0).update(47, 0) =~= z);
        lemma_checksum_round_trip(z, 46);
    }
}

/// `modify` does not apply to a packet whose next header is neither ICMPv6
/// nor UDP, to an ICMPv6 message other than a Router Advertisement, to a
/// DHCPv6 message other than a Reply, to a packet cut short before the field
/// that is read, or to one whose option list runs past its end.
pub proof fn lemma_inapplicable(p: Seq<u8>, lifetime: u32, ip: Seq<u8>)
    ensures
        p.len() < 7 ==> rewrite(p, lifetime, ip) is None,
        p.len() >= 7 && p[6] != NEXT_HEADER_ICMPV6 && p[6] != NEXT_HEADER_UDP ==> rewrite(
            p,
            lifetime,
            ip,
        ) is None,
        p.len() >= 7 && p[6] == NEXT_HEADER_ICMPV6 && (p.len() < RA_OPTIONS_START || p[40]
            != ICMPV6_ROUTER_ADVERTISEMENT) ==> rewrite(p, lifetime, ip) is None,
        p.len() >= 7 && p[6] == NEXT_HEADER_UDP && (p.len() < DHCP_OPTIONS_START || p[48]
            != DHCPV6_REPLY) ==> rewrite(p, lifetime, ip) is None,
        p.len() >= RA_OPTIONS_START && p[6] == NEXT_HEADER_ICMPV6 && ra_options(
            p.subrange(RA_OPTIONS_START as int, p.len() as int),
        ) is None ==> rewrite(p, lifetime, ip) is None,
        p.len() >= DHCP_OPTIONS_START && p[6] == NEXT_HEADER_UDP && dhcp_options(
            p.subrange(DHCP_OPTIONS_START as int, p.len() as int),
        ) is None ==> rewrite(p, lifetime, ip) is None,
{
}

} // verus!
