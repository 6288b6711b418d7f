//! Rewrites intercepted IPv6 Router Advertisements and DHCPv6 Replies so that
//! they announce a chosen DNS resolver, and decides the verdict for each
//! intercepted packet.

pub mod checksum;
pub mod packet;
pub mod gate;
pub mod tracker;
