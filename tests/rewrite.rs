use inject_dns::checksum::{checksum_finish, checksum_roll, icmpv6_udp_checksum};
use inject_dns::packet::modify;

const ADDR: [u8; 16] = [0, 1, 0, 2, 0, 3, 0, 4, 0, 5, 0, 6, 0, 7, 0, 8];

const PAYLOAD_RA1: &[u8] = &[
    // IPv6
    0x6b,
    0x80,
    0x00,
    0x00,
    0x00,
    0x20,
    0x3a,
    0xff,
    0xfe,
    0x80,
    0x00,
    0x00,
    0x00,
    0x00,
    0x00,
    0x00,
    0x4a,
    0x2e,
    0x72,
    0xff,
    0xfe,
    0x63,
    0x7d,
    0x10,
    0xff,
    0x02,
    0x00,
    0x00,
    0x00,
    0x00,
    0x00,
    0x00,
    0x00,
    0x00,
    0x00,
    0x00,
    0x00,
    0x00,
    0x00,
    0x01,
    // ICMPv6
    0x86,
    0x00,
    // Zero'd checksum
    0x00,
    0x00,
    0x40,
    0xc0,
    0x07,
    0x08,
    0x00,
    0x04,
    0x93,
    0xe0,
    0x00,
    0x00,
    0x27,
    0x10,
    0x01,
    0x01,
    0x48,
    0x2e,
    0x72,
    0x63,
    0x7d,
    0x10,
    0x05,
    0x01,
    0x00,
    0x00,
    0x00,
    0x00,
    0x05,
    0xdc,
];
const PAYLOAD_DHCP1: &[u8] = &[
    // IPv6
    0x6b,
    0x80,
    0x00,
    0x00,
    0x00,
    0x91,
    0x11,
    0x01,
    0xfe,
    0x80,
    0x00,
    0x00,
    0x00,
    0x00,
    0x00,
    0x00,
    0x00,
    0x00,
    0x40,
    0xff,
    0xfe,
    0x12,
    0x20,
    0x0a,
    0xfe,
    0x80,
    0x00,
    0x00,
    0x00,
    0x00,
    0x00,
    0x00,
    0xb2,
    0x6e,
    0xbf,
    0xff,
    0xfe,
    0x39,
    0xbf,
    0x7b,
    // UDP
    0x02,
    0x23,
    0x02,
    0x22,
    0x00,
    0x91,
    // Checksum (zeroed)
    0x00,
    0x00,
    // DHCPv6
    0x07,
    0x56,
    0x20,
    0xfd,
    0x00,
    0x02,
    0x00,
    0x0a,
    0x00,
    0x03,
    0x00,
    0x01,
    0x00,
    0x19,
    0xaa,
    0xbc,
    0xfa,
    0x1b,
    0x00,
    0x01,
    0x00,
    0x0e,
    0x00,
    0x02,
    0x00,
    0x00,
    0xab,
    0x11,
    0xfc,
    0x72,
    0xdb,
    0x43,
    0x6a,
    0xc5,
    0xca,
    0x1f,
    0x00,
    0x17,
    0x00,
    0x20,
    0x24,
    0x04,
    0x01,
    0xa8,
    0x7f,
    0x01,
    0x00,
    0x0b,
    0x00,
    0x00,
    0x00,
    0x00,
    0x00,
    0x00,
    0x00,
    0x03,
    0x24,
    0x04,
    0x01,
    0xa8,
    0x7f,
    0x01,
    0x00,
    0x0a,
    0x00,
    0x00,
    0x00,
    0x00,
    0x00,
    0x00,
    0x00,
    0x03,
    0x00,
    0x18,
    0x00,
    0x19,
    0x0a,
    0x66,
    0x6c,
    0x65,
    0x74,
    0x73,
    0x2d,
    0x65,
    0x61,
    0x73,
    0x74,
    0x02,
    0x6a,
    0x70,
    0x00,
    0x05,
    0x69,
    0x70,
    0x74,
    0x76,
    0x66,
    0x02,
    0x6a,
    0x70,
    0x00,
    0x00,
    0x1f,
    0x00,
    0x20,
    0x24,
    0x04,
    0x01,
    0xa8,
    0x11,
    0x02,
    0x00,
    0x00,
    0x00,
    0x00,
    0x00,
    0x00,
    0x00,
    0x00,
    0x00,
    0x0b,
    0x24,
    0x04,
    0x01,
    0xa8,
    0x11,
    0x02,
    0x00,
    0x00,
    0x00,
    0x00,
    0x00,
    0x00,
    0x00,
    0x00,
    0x00,
    0x0a,
];

#[test]
fn test_checksum_roll_ex1() {
    let mut sum32 = 0u32;

    // Wikipedia, checksum set to 0 first
    checksum_roll(
        &mut sum32,
        &[
            0x45,
            0x00,
            0x00,
            0x73,
            0x00,
            0x00,
            0x40,
            0x00,
            0x40,
            0x11,
            0x00,
            0x00,
            0xc0,
            0xa8,
            0x00,
            0x01,
            0xc0,
            0xa8,
            0x00,
            0xc7,
        ],
    );
    assert_eq!(checksum_finish(sum32), [0xb8, 0x61]);
}

#[test]
fn test_checksum_roll_ex2() {
    let mut sum32 = 0u32;

    // RFC 1071 example 1
    checksum_roll(&mut sum32, &[0x00, 0x01, 0xf2, 0x03, 0xf4, 0xf5, 0xf6, 0xf7]);
    assert_eq!(checksum_finish(sum32), [!0xdd, !0xf2]);
}

#[test]
fn test_checksum_roll_ex3() {
    let mut sum32 = 0u32;

    // RFC 1071 example 2a
    checksum_roll(&mut sum32, &[0x00, 0x01, 0xf2]);
    assert_eq!(checksum_finish(sum32), [!0xf2, !0x01]);
}

#[test]
fn test_checksum_roll_ex4() {
    let mut sum32 = 0u32;

    // RFC 1071 example 2b but shifted by 1
    checksum_roll(&mut sum32, &[0x03, 0xf4, 0xf5, 0xf6, 0xf7]);
    assert_eq!(checksum_finish(sum32), [!0xf0, !0xeb]);
}

#[test]
fn test_checksum_ex1() {
    assert_eq!(icmpv6_udp_checksum(PAYLOAD_RA1).unwrap(), [0xfd, 0x40]);
}

#[test]
fn test_checksum_ex2() {
    const PAYLOAD: &[u8] = &[
        0x00,
        0x00,
        0x00,
        0x00,
        // Payload len 32
        0x00,
        0x20,
        // Next header 58
        0x3a,
        0x00,
        // Source
        0xfe,
        0x80,
        0x00,
        0x00,
        0x00,
        0x00,
        0x00,
        0x00,
        0x88,
        0xc5,
        0x75,
        0x41,
        0xaa,
        0x0c,
        0x58,
        0xee,
        // Dest
        0xff,
        0x02,
        0x00,
        0x00,
        0x00,
        0x00,
        0x00,
        0x00,
        0x00,
        0x00,
        0x00,
        0x00,
        0x00,
        0x00,
        0x00,
        0x01,
        // Icmpv6 type
        0x88,
        // Code
        0x00,
        // Checksum
        0x00,
        0x00,
        // Body
        0x20,
        0x00,
        0x00,
        0x00,
        0xfe,
        0x80,
        0x00,
        0x00,
        0x00,
        0x00,
        0x00,
        0x00,
        0x88,
        0xc5,
        0x75,
        0x41,
        0xaa,
        0x0c,
        0x58,
        0xee,
        0x02,
        0x01,
        0x38,
        0xea,
        0xa7,
        0x89,
        0xbe,
        0x59,
    ];
    assert_eq!(icmpv6_udp_checksum(PAYLOAD).unwrap(), [0xb8, 0xcc]);
}

#[test]
fn test_modify_ra_ex1() {
    let got = modify(PAYLOAD_RA1, 30, ADDR).unwrap();
    let mut want = vec![
        // IPv6
        0x6b,
        0x80,
        0x00,
        0x00,
        // Length
        0x00,
        0x38,
        0x3a,
        0xff,
        0xfe,
        0x80,
        0x00,
        0x00,
        0x00,
        0x00,
        0x00,
        0x00,
        0x4a,
        0x2e,
        0x72,
        0xff,
        0xfe,
        0x63,
        0x7d,
        0x10,
        0xff,
        0x02,
        0x00,
        0x00,
        0x00,
        0x00,
        0x00,
        0x00,
        0x00,
        0x00,
        0x00,
        0x00,
        0x00,
        0x00,
        0x00,
        0x01,
        // ICMPv6
        0x86,
        0x00,
        // New checksum
        0xe3,
        0xe3,
        0x40,
        0xc0,
        0x07,
        0x08,
        0x00,
        0x04,
        0x93,
        0xe0,
        0x00,
        0x00,
        0x27,
        0x10,
        0x01,
        0x01,
        0x48,
        0x2e,
        0x72,
        0x63,
        0x7d,
        0x10,
        0x05,
        0x01,
        0x00,
        0x00,
        0x00,
        0x00,
        0x05,
        0xdc,
        // # Extra rdnss start
        //
        // Type
        25,
        // Length
        (1 + 1 + 2 + 4 + 16) / 8,
        // Reserved
        0,
        0,
        // Lifetime
        0,
        0,
        0,
        30,
        // IP
        0,
        1,
        0,
        2,
        0,
        3,
        0,
        4,
        0,
        5,
        0,
        6,
        0,
        7,
        0,
        8
    ];
    if want.len() < got.len() {
        want.resize(got.len(), 0);
    }
    for (i, (got, want)) in Iterator::zip(got.iter(), want.iter()).enumerate() {
        let got = *got;
        let want = *want;
        println!("{:03}: {:x} {} {:x}", i, got, if got == want {
            "=="
        } else {
            "!="
        }, want);
    }
    assert_eq!(got, want);
}

#[test]
fn test_modify_dhcp_ex1() {
    let got = modify(PAYLOAD_DHCP1, 30, ADDR).unwrap();
    let mut want = vec![
        // IPv6
        0x6b,
        0x80,
        0x00,
        0x00,
        // Length
        0x00,
        0x81,
        0x11,
        0x01,
        0xfe,
        0x80,
        0x00,
        0x00,
        0x00,
        0x00,
        0x00,
        0x00,
        0x00,
        0x00,
        0x40,
        0xff,
        0xfe,
        0x12,
        0x20,
        0x0a,
        0xfe,
        0x80,
        0x00,
        0x00,
        0x00,
        0x00,
        0x00,
        0x00,
        0xb2,
        0x6e,
        0xbf,
        0xff,
        0xfe,
        0x39,
        0xbf,
        0x7b,
        // UDP
        0x02,
        0x23,
        0x02,
        0x22,
        // UDP length
        0x00,
        0x81,
        // Checksum
        0xe6,
        0xc9,
        // DHCPv6
        0x07,
        0x56,
        0x20,
        0xfd,
        0x00,
        0x02,
        0x00,
        0x0a,
        0x00,
        0x03,
        0x00,
        0x01,
        0x00,
        0x19,
        0xaa,
        0xbc,
        0xfa,
        0x1b,
        0x00,
        0x01,
        0x00,
        0x0e,
        0x00,
        0x02,
        0x00,
        0x00,
        0xab,
        0x11,
        0xfc,
        0x72,
        0xdb,
        0x43,
        0x6a,
        0xc5,
        0xca,
        0x1f,
        0x00,
        0x18,
        0x00,
        0x19,
        0x0a,
        0x66,
        0x6c,
        0x65,
        0x74,
        0x73,
        0x2d,
        0x65,
        0x61,
        0x73,
        0x74,
        0x02,
        0x6a,
        0x70,
        0x00,
        0x05,
        0x69,
        0x70,
        0x74,
        0x76,
        0x66,
        0x02,
        0x6a,
        0x70,
        0x00,
        0x00,
        0x1f,
        0x00,
        0x20,
        0x24,
        0x04,
        0x01,
        0xa8,
        0x11,
        0x02,
        0x00,
        0x00,
        0x00,
        0x00,
        0x00,
        0x00,
        0x00,
        0x00,
        0x00,
        0x0b,
        0x24,
        0x04,
        0x01,
        0xa8,
        0x11,
        0x02,
        0x00,
        0x00,
        0x00,
        0x00,
        0x00,
        0x00,
        0x00,
        0x00,
        0x00,
        0x0a,
        // DNS option
        0x00,
        0x17,
        // Length 16
        0,
        16,
        // IP
        0,
        1,
        0,
        2,
        0,
        3,
        0,
        4,
        0,
        5,
        0,
        6,
        0,
        7,
        0,
        8
    ];
    if want.len() < got.len() {
        want.resize(got.len(), 0);
    }
    for (i, (got, want)) in Iterator::zip(got.iter(), want.iter()).enumerate() {
        let got = *got;
        let want = *want;
        println!("{:03}: {:x} {} {:x}", i, got, if got == want {
            "=="
        } else {
            "!="
        }, want);
    }
    assert_eq!(got, want);
}

fn payload_length(p: &[u8]) -> usize {
    (p[4] as usize) * 256 + p[5] as usize
}

#[test]
fn finish_folds_every_carry() {
    // 0x1fffe folds to 0xffff, whose complement is zero.
    assert_eq!(checksum_finish(0x1fffe), [0x00, 0x00]);
    // 0x12345 folds to 0x2346.
    assert_eq!(checksum_finish(0x12345), [0xdc, 0xb9]);
    // Carries that spill again after the first fold.
    assert_eq!(checksum_finish(0xffffffff), [0x00, 0x00]);
    assert_eq!(checksum_finish(0), [0xff, 0xff]);
}

#[test]
fn roll_continues_from_running_sum() {
    let mut sum32 = 0x0100u32;
    checksum_roll(&mut sum32, &[0x00, 0x01, 0xf2]);
    assert_eq!(sum32, 0x0100 + 0x0001 + 0xf200);
}

#[test]
fn checksum_needs_fixed_header() {
    assert_eq!(icmpv6_udp_checksum(&PAYLOAD_RA1[..39]), None);
    assert!(icmpv6_udp_checksum(&PAYLOAD_RA1[..40]).is_some());
}

#[test]
fn written_checksum_makes_packet_check() {
    let mut p = PAYLOAD_RA1.to_vec();
    let c = icmpv6_udp_checksum(&p).unwrap();
    p[42] = c[0];
    p[43] = c[1];
    assert_eq!(icmpv6_udp_checksum(&p).unwrap(), [0x00, 0x00]);

    let got = modify(PAYLOAD_DHCP1, 30, ADDR).unwrap();
    assert_eq!(icmpv6_udp_checksum(&got).unwrap(), [0x00, 0x00]);
    let got = modify(PAYLOAD_RA1, 30, ADDR).unwrap();
    assert_eq!(icmpv6_udp_checksum(&got).unwrap(), [0x00, 0x00]);
}

#[test]
fn ra_rewrite_replaces_existing_rdnss() {
    let mut with_rdnss = PAYLOAD_RA1.to_vec();
    // An RDNSS option for another resolver, lifetime 600.
    with_rdnss.extend_from_slice(&[25, 3, 0, 0, 0, 0, 2, 0x58]);
    with_rdnss.extend_from_slice(&[0x20, 0x01, 0x0d, 0xb8, 0, 0, 0, 0, 0, 0, 0, 0, 0, 0, 0, 0x53]);
    // A source link-layer address option after it.
    with_rdnss.extend_from_slice(&[1, 1, 0x48, 0x2e, 0x72, 0x63, 0x7d, 0x11]);
    with_rdnss[5] = (with_rdnss.len() - 40) as u8;
    let got = modify(&with_rdnss, 30, ADDR).unwrap();
    let plain = modify(PAYLOAD_RA1, 30, ADDR).unwrap();
    assert_eq!(got.len(), plain.len() + 8);
    assert_eq!(payload_length(&got), got.len() - 40);
    // Kept options in order, then the new RDNSS option.
    assert_eq!(&got[56..72], &PAYLOAD_RA1[56..72]);
    assert_eq!(&got[72..80], &[1, 1, 0x48, 0x2e, 0x72, 0x63, 0x7d, 0x11]);
    assert_eq!(&got[80..88], &[25, 3, 0, 0, 0, 0, 0, 30]);
    assert_eq!(&got[88..104], &ADDR);
    assert_eq!(icmpv6_udp_checksum(&got).unwrap(), [0x00, 0x00]);
}

#[test]
fn ra_rewrite_sets_other_config_flag() {
    let mut p = PAYLOAD_RA1.to_vec();
    p[45] = 0x80;
    let got = modify(&p, 7, ADDR).unwrap();
    assert_eq!(got[45], 0xc0);
    assert_eq!(&got[got.len() - 20..got.len() - 16], &[0, 0, 0, 7]);
}

#[test]
fn ra_without_options_gets_one() {
    let got = modify(&PAYLOAD_RA1[..56], 0x01020304, ADDR).unwrap();
    assert_eq!(got.len(), 80);
    assert_eq!(payload_length(&got), 40);
    assert_eq!(&got[56..64], &[25, 3, 0, 0, 1, 2, 3, 4]);
}

#[test]
fn dhcp_rewrite_drops_old_dns_option() {
    let got = modify(PAYLOAD_DHCP1, 30, ADDR).unwrap();
    // The original option of 0x20 bytes of data is gone, the new one is last.
    assert_eq!(got.len(), PAYLOAD_DHCP1.len() - 36 + 20);
    assert_eq!(payload_length(&got), got.len() - 40);
    assert_eq!((got[44] as usize) * 256 + got[45] as usize, got.len() - 40);
    let mut count = 0;
    let mut at = 52;
    while at < got.len() {
        if got[at] == 0 && got[at + 1] == 0x17 {
            count += 1;
        }
        at += 4 + (got[at + 2] as usize) * 256 + got[at + 3] as usize;
    }
    assert_eq!(at, got.len());
    assert_eq!(count, 1);
}

#[test]
fn dhcp_without_options_gets_one() {
    let got = modify(&PAYLOAD_DHCP1[..52], 30, ADDR).unwrap();
    assert_eq!(got.len(), 72);
    assert_eq!(payload_length(&got), 32);
    assert_eq!(&got[52..56], &[0, 0x17, 0, 16]);
    assert_eq!(&got[56..72], &ADDR);
}

#[test]
fn inapplicable_packets() {
    // Next header neither ICMPv6 nor UDP.
    let mut p = PAYLOAD_RA1.to_vec();
    p[6] = 6;
    assert_eq!(modify(&p, 30, ADDR), None);
    // ICMPv6 other than a Router Advertisement.
    let mut p = PAYLOAD_RA1.to_vec();
    p[40] = 135;
    assert_eq!(modify(&p, 30, ADDR), None);
    // DHCPv6 other than a Reply.
    let mut p = PAYLOAD_DHCP1.to_vec();
    p[48] = 2;
    assert_eq!(modify(&p, 30, ADDR), None);
    // Truncated before the next-header byte, the ICMPv6 type, the RA header,
    // the DHCPv6 type and the DHCPv6 header.
    assert_eq!(modify(&PAYLOAD_RA1[..6], 30, ADDR), None);
    assert_eq!(modify(&PAYLOAD_RA1[..40], 30, ADDR), None);
    assert_eq!(modify(&PAYLOAD_RA1[..50], 30, ADDR), None);
    assert_eq!(modify(&PAYLOAD_DHCP1[..48], 30, ADDR), None);
    assert_eq!(modify(&PAYLOAD_DHCP1[..51], 30, ADDR), None);
    // Options that run past the end.
    assert_eq!(modify(&PAYLOAD_RA1[..60], 30, ADDR), None);
    assert_eq!(modify(&PAYLOAD_DHCP1[..60], 30, ADDR), None);
    // An RA option of length zero.
    let mut p = PAYLOAD_RA1.to_vec();
    p[57] = 0;
    assert_eq!(modify(&p, 30, ADDR), None);
    // An empty buffer.
    assert_eq!(modify(&[], 30, ADDR), None);
}

#[test]
fn rewrite_refuses_payload_over_sixteen_bits() {
    let mut p = PAYLOAD_DHCP1[..52].to_vec();
    // One option with 0xffe8 bytes of data: 52 + 4 + 0xffe8 bytes, payload
    // 0xfff8 before the new option, 0x1000c after it.
    p.extend_from_slice(&[0, 0x20, 0xff, 0xe8]);
    p.resize(p.len() + 0xffe8, 0);
    assert_eq!(modify(&p, 30, ADDR), None);
    p.truncate(52);
    p.extend_from_slice(&[0, 0x20, 0xff, 0xdb]);
    p.resize(p.len() + 0xffdb, 0);
    let got = modify(&p, 30, ADDR).unwrap();
    assert_eq!(payload_length(&got), 0xffff);
    assert_eq!(got.len(), 40 + 0xffff);
}
