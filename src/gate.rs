//! The per-packet decision: drop, or re-inject rewritten, depending on the
//! address last published for the resolver.
use vstd::prelude::*;
use crate::packet::{bytes_of, modify, rewrite};

verus! {

/// What becomes of an intercepted packet.
#[derive(Debug)]
pub enum Verdict {
    /// The packet is discarded.
    Drop,
    /// The packet is sent on with `payload` in place of its bytes, tagged with
    /// `mark` so that the interception rule lets it through.
    Repeat { payload: Vec<u8>, mark: u32 },
}

/// State of the queue consumer: the resolver address in use, if any (without
/// one every packet is dropped), the RDNSS lifetime and the mark put on
/// re-injected packets.
pub struct PacketGate {
    pub known: Option<[u8; 16]>,
    pub lifetime: u32,
    pub mark: u32,
}

/// The address in use after an update from the address tracker: a published
/// value (an address, or none) replaces the one in use; no update keeps it.
pub open spec fn next_known(known: Option<[u8; 16]>, update: Option<Option<[u8; 16]>>) -> Option<
    [u8; 16],
> {
    match update {
        Some(u) => u,
        None => known,
    }
}

/// The bytes to re-inject for a packet, or `None` when it is dropped: without
/// an address every packet is dropped; with one, the packet is rewritten for
/// it, and dropped where the rewrite does not apply.
pub open spec fn decision(known: Option<[u8; 16]>, lifetime: u32, payload: Seq<u8>) -> Option<
    Seq<u8>,
> {
    match known {
        None => None,
        Some(ip) => rewrite(payload, lifetime, ip@),
    }
}

/// The bytes that a verdict re-injects, with its mark, or `None` for `Drop`.
pub open spec fn verdict_bytes(v: Verdict) -> Option<(Seq<u8>, u32)> {
    match v {
        Verdict::Drop => None,
        Verdict::Repeat { payload, mark } => Some((payload@, mark)),
    }
}

impl PacketGate {
    /// A gate with no address yet, which drops every packet.
    pub fn new(lifetime: u32, mark: u32) -> (r: PacketGate)
        ensures
            r.known is None,
            r.lifetime == lifetime,
            r.mark == mark,
    {
        PacketGate { known: None, lifetime, mark }
    }

    /// Handles one received packet. `update` is what the address tracker
    /// published since the previous packet, taken once: `Some(Some(ip))` for a
    /// new address, `Some(None)` for its loss, `None` for nothing new. Exactly
    /// one verdict comes back.
    pub fn on_packet(&mut self, update: Option<Option<[u8; 16]>>, payload: &[u8]) -> (v: Verdict)
        ensures
            final(self).known == next_known(old(self).known, update),
            final(self).lifetime == old(self).lifetime,
            final(self).mark == old(self).mark,
            verdict_bytes(v) == match decision(final(self).known, old(self).lifetime, payload@) {
                Some(q) => Some((q, old(self).mark)),
                None => None,
            },
    {
        match update {
            Some(u) => {
                self.known = u;
            },
            None => {},
        }
        match self.known {
            None => Verdict::Drop,
            Some(ip) => match modify(payload, self.lifetime, ip) {
                Some(q) => Verdict::Repeat { payload: q, mark: self.mark },
                None => Verdict::Drop,
            },
        }
    }
}

/// While no address is known and none is published, every packet is dropped;
/// the first packet after an address is published is already rewritten for
/// that address where the rewrite applies, and dropped where it does not.
pub proof fn lemma_drop_until_known(
    known: Option<[u8; 16]>,
    update: Option<Option<[u8; 16]>>,
    lifetime: u32,
    payload: Seq<u8>,
)
    ensures
        known is None && (update is None || update == Some(None::<[u8; 16]>)) ==> decision(
            next_known(known, update),
            lifetime,
            payload,
        ) is None,
        update matches Some(Some(ip)) ==> decision(next_known(known, update), lifetime, payload)
            == rewrite(payload, lifetime, ip@),
        update == Some(None::<[u8; 16]>) ==> decision(next_known(known, update), lifetime, payload)
            is None,
{
}

} // verus!
