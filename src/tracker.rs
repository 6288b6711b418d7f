//! Selection of the resolver address from the host's interfaces, and the
//! polling schedule of the address tracker.
use vstd::prelude::*;

verus! {

/// An interface as listed by the host: its name and its IPv6 addresses, each
/// as 16 bytes in network order.
pub struct Interface {
    pub name: String,
    pub addrs: Vec<[u8; 16]>,
}

/// The 16-bit group `i` of an address, in network order.
pub open spec fn group(a: Seq<u8>, i: int) -> int {
    (a[2 * i] as int) * 256 + (a[2 * i + 1] as int)
}

/// Special-purpose blocks inside 2001::/23 that are globally reachable.
pub open spec fn ietf_global_exception(a: Seq<u8>) -> bool {
    let g1 = group(a, 1);
    let g2 = group(a, 2);
    let rest_zero = group(a, 2) == 0 && group(a, 3) == 0 && group(a, 4) == 0 && group(a, 5) == 0
        && group(a, 6) == 0;
    ||| (g1 == 1 && rest_zero && (group(a, 7) == 1 || group(a, 7) == 2))
    ||| g1 == 3
    ||| (g1 == 4 && g2 == 0x112)
    ||| (0x20 <= g1 <= 0x2f)
}

/// Whether an IPv6 address is globally reachable: it is none of the
/// unspecified, loopback, IPv4-mapped, IPv4/IPv6 translation, discard-only,
/// IETF protocol assignment (bar its global exceptions), 6to4, documentation,
/// unique local or link-local unicast addresses.
pub open spec fn global_ipv6(a: Seq<u8>) -> bool {
    let g = |i: int| group(a, i);
    let low_zero = g(1) == 0 && g(2) == 0 && g(3) == 0 && g(4) == 0 && g(5) == 0 && g(6) == 0;
    !{
        ||| (g(0) == 0 && low_zero && (g(7) == 0 || g(7) == 1))
        ||| (g(0) == 0 && g(1) == 0 && g(2) == 0 && g(3) == 0 && g(4) == 0 && g(5) == 0xffff)
        ||| (g(0) == 0x64 && g(1) == 0xff9b && g(2) == 1)
        ||| (g(0) == 0x100 && g(1) == 0 && g(2) == 0 && g(3) == 0)
        ||| (g(0) == 0x2001 && g(1) < 0x200 && !ietf_global_exception(a))
        ||| g(0) == 0x2002
        ||| (g(0) == 0x2001 && g(1) == 0xdb8)
        ||| (a[0] & 0xfe) == 0xfc
        ||| (g(0) == 0xfe80 || (a[0] == 0xfe && (a[1] & 0xc0) == 0x80))
    }
}

fn group_of(a: &[u8; 16], i: usize) -> (r: u32)
    requires
        i < 8,
    ensures
        r == group(a@, i as int),
{
    (a[2 * i] as u32) * 256 + (a[2 * i + 1] as u32)
}

/// Whether `a` is a globally reachable IPv6 address.
pub fn is_global_ipv6(a: &[u8; 16]) -> (r: bool)
    ensures
        r == global_ipv6(a@),
{
    let g0 = group_of(a, 0);
    let g1 = group_of(a, 1);
    let g2 = group_of(a, 2);
    let g3 = group_of(a, 3);
    let g4 = group_of(a, 4);
    let g5 = group_of(a, 5);
    let g6 = group_of(a, 6);
    let g7 = group_of(a, 7);
    let low_zero = g1 == 0 && g2 == 0 && g3 == 0 && g4 == 0 && g5 == 0 && g6 == 0;
    let unspecified_or_loopback = g0 == 0 && low_zero && (g7 == 0 || g7 == 1);
    let v4_mapped = g0 == 0 && g1 == 0 && g2 == 0 && g3 == 0 && g4 == 0 && g5 == 0xffff;
    let translation = g0 == 0x64 && g1 == 0xff9b && g2 == 1;
    let discard = g0 == 0x100 && g1 == 0 && g2 == 0 && g3 == 0;
    let exception = (g1 == 1 && g2 == 0 && g3 == 0 && g4 == 0 && g5 == 0 && g6 == 0 && (g7 == 1
        || g7 == 2)) || g1 == 3 || (g1 == 4 && g2 == 0x112) || (0x20 <= g1 && g1 <= 0x2f);
    let ietf = g0 == 0x2001 && g1 < 0x200 && !exception;
    let six_to_four = g0 == 0x2002;
    let documentation = g0 == 0x2001 && g1 == 0xdb8;
    let unique_local = (a[0] & 0xfe) == 0xfc;
    let link_local = g0 == 0xfe80 || (a[0] == 0xfe && (a[1] & 0xc0) == 0x80);
    !(unspecified_or_loopback || v4_mapped || translation || discard || ietf || six_to_four
        || documentation || unique_local || link_local)
}

/// The address that the tracker publishes: among the interfaces named `want`,
/// the last global address listed, or `None` when there is none.
pub open spec fn chosen_address(want: Seq<char>, ifaces: Seq<Interface>) -> Option<[u8; 16]>
    decreases ifaces.len(),
{
    if ifaces.len() == 0 {
        None
    } else {
        let last = ifaces.last();
        let here = if last.name@ == want {
            last_global(last.addrs@)
        } else {
            None
        };
        match here {
            Some(a) => Some(a),
            None => chosen_address(want, ifaces.drop_last()),
        }
    }
}

/// The last global address of a list.
pub open spec fn last_global(addrs: Seq<[u8; 16]>) -> Option<[u8; 16]>
    decreases addrs.len(),
{
    if addrs.len() == 0 {
        None
    } else if global_ipv6(addrs.last()@) {
        Some(addrs.last())
    } else {
        last_global(addrs.drop_last())
    }
}

/// Picks the global address to advertise from the interfaces listed by the
/// host: the last global address of the interfaces named `want`.
pub fn select_address(want: &String, ifaces: &Vec<Interface>) -> (r: Option<[u8; 16]>)
    ensures
        r == chosen_address(want@, ifaces@),
{
    let mut found: Option<[u8; 16]> = None;
    let mut i: usize = 0;
    while i < ifaces.len()
        invariant
            i <= ifaces@.len(),
            found == chosen_address(want@, ifaces@.subrange(0, i as int)),
        decreases ifaces@.len() - i,
    {
        let iface = &ifaces[i];
        if iface.name.eq(want) {
            let mut j: usize = 0;
            while j < iface.addrs.len()
                invariant
                    j <= iface.addrs@.len(),
                    iface == ifaces@[i as int],
                    iface.name@ == want@,
                    i < ifaces@.len(),
                    found == match last_global(iface.addrs@.subrange(0, j as int)) {
                        Some(a) => Some(a),
                        None => chosen_address(want@, ifaces@.subrange(0, i as int)),
                    },
                decreases iface.addrs@.len() - j,
            {
                let a = iface.addrs[j];
                let ghost s = iface.addrs@.subrange(0, j + 1);
                assert(s.drop_last() =~= iface.addrs@.subrange(0, j as int));
                if is_global_ipv6(&a) {
                    found = Some(a);
                }
                j = j + 1;
            }
            assert(iface.addrs@.subrange(0, j as int) =~= iface.addrs@);
        }
        let ghost s = ifaces@.subrange(0, i + 1);
        assert(s.drop_last() =~= ifaces@.subrange(0, i as int));
        i = i + 1;
    }
    assert(ifaces@.subrange(0, i as int) =~= ifaces@);
    found
}

/// Seconds between polls until a global address has been seen once.
pub const STARTUP_POLL_SECS: u64 = 5;

/// Polling schedule of the address tracker.
pub struct PollSchedule {
    /// Whether a global address has ever been seen.
    pub found_first: bool,
    /// Seconds between polls once an address has been seen.
    pub recheck_period: u64,
}

impl PollSchedule {
    pub fn new(recheck_period: u64) -> (r: PollSchedule)
        ensures
            !r.found_first,
            r.recheck_period == recheck_period,
    {
        PollSchedule { found_first: false, recheck_period }
    }

    /// Records the outcome of one poll and returns how many seconds to sleep
    /// before the next: the short startup interval until a global address has
    /// been seen once, the recheck period from then on.
    pub fn after_poll(&mut self, found: Option<[u8; 16]>) -> (secs: u64)
        ensures
            final(self).found_first == (old(self).found_first || found is Some),
            final(self).recheck_period == old(self).recheck_period,
            secs == if final(self).found_first {
                old(self).recheck_period
            } else {
                STARTUP_POLL_SECS
            },
    {
        if found.is_some() {
            self.found_first = true;
        }
        if self.found_first {
            self.recheck_period
        } else {
            STARTUP_POLL_SECS
        }
    }
}

/// Recheck period used when none is configured.
pub const DEFAULT_RECHECK_SECS: u64 = 60;

/// The recheck period in use: the configured one, or the default.
pub fn recheck_period(configured: Option<u64>) -> (r: u64)
    ensures
        r == match configured {
            Some(p) => p,
            None => DEFAULT_RECHECK_SECS,
        },
{
    match configured {
        Some(p) => p,
        None => DEFAULT_RECHECK_SECS,
    }
}

/// The lifetime advertised in RDNSS options for a recheck period: the period
/// itself, capped to what the 32-bit field can hold.
pub fn rdnss_lifetime(recheck_period: u64) -> (r: u32)
    ensures
        r as u64 == if recheck_period > u32::MAX as u64 {
            u32::MAX as u64
        } else {
            recheck_period
        },
{
    if recheck_period > u32::MAX as u64 {
        u32::MAX
    } else {
        recheck_period as u32
    }
}

} // verus!
