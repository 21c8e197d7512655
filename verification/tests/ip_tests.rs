use panopticon::ip::{is_forbidden_ip, parse_ip, Ip};

fn v6(s: &str) -> Option<[u16; 8]> {
    match parse_ip(s) {
        Some(Ip::V6(g)) => Some(g),
        _ => None,
    }
}

fn v4(s: &str) -> Option<[u8; 4]> {
    match parse_ip(s) {
        Some(Ip::V4(o)) => Some(o),
        _ => None,
    }
}

#[test]
fn ipv4_text() {
    assert_eq!(v4("1.2.3.4"), Some([1, 2, 3, 4]));
    assert_eq!(v4("0.0.0.0"), Some([0, 0, 0, 0]));
    assert_eq!(v4("255.255.255.255"), Some([255, 255, 255, 255]));
    assert_eq!(parse_ip("256.1.1.1").is_none(), true);
    assert!(parse_ip("01.2.3.4").is_none());
    assert!(parse_ip("1.2.3").is_none());
    assert!(parse_ip("1.2.3.4.5").is_none());
    assert!(parse_ip("1.2.3.").is_none());
    assert!(parse_ip("1..3.4").is_none());
    assert!(parse_ip(" 1.2.3.4").is_none());
    assert!(parse_ip("").is_none());
    assert!(parse_ip("1000.2.3.4").is_none());
}

#[test]
fn ipv6_text() {
    assert_eq!(v6("::"), Some([0; 8]));
    assert_eq!(v6("::1"), Some([0, 0, 0, 0, 0, 0, 0, 1]));
    assert_eq!(v6("1::"), Some([1, 0, 0, 0, 0, 0, 0, 0]));
    assert_eq!(v6("1:2:3:4:5:6:7:8"), Some([1, 2, 3, 4, 5, 6, 7, 8]));
    assert_eq!(v6("1:2:3:4:5:6:7::"), Some([1, 2, 3, 4, 5, 6, 7, 0]));
    assert_eq!(v6("::2:3:4:5:6:7:8"), Some([0, 2, 3, 4, 5, 6, 7, 8]));
    assert_eq!(v6("fe80::aBcD"), Some([0xfe80, 0, 0, 0, 0, 0, 0, 0xabcd]));
    assert_eq!(v6("::ffff:1.2.3.4"), Some([0, 0, 0, 0, 0, 0xffff, 0x0102, 0x0304]));
    assert_eq!(v6("::1.2.3.4"), Some([0, 0, 0, 0, 0, 0, 0x0102, 0x0304]));
    assert_eq!(v6("1:2:3:4:5:6:1.2.3.4"), Some([1, 2, 3, 4, 5, 6, 0x0102, 0x0304]));
    assert_eq!(v6("0001:2::"), Some([1, 2, 0, 0, 0, 0, 0, 0]));
    assert!(parse_ip("1:2:3:4:5:6:7:1.2.3.4").is_none());
    assert!(parse_ip("1:2:3:4:5:6:7:8:9").is_none());
    assert!(parse_ip("1:2:3:4:5:6:7:8::").is_none());
    assert!(parse_ip("::1:2:3:4:5:6:7:8").is_none());
    assert!(parse_ip("1::2::3").is_none());
    assert!(parse_ip(":::").is_none());
    assert!(parse_ip(":1::").is_none());
    assert!(parse_ip("1:").is_none());
    assert!(parse_ip("12345::").is_none());
    assert!(parse_ip("1.2.3.4::").is_none());
    assert!(parse_ip("g::").is_none());
    assert!(parse_ip("[::1]").is_none());
    assert!(parse_ip("1:2:3:4:5:6::1.2.3.4").is_none());
}

#[test]
fn loopback_addresses() {
    assert!(Ip::V4([127, 0, 0, 1]).is_loopback());
    assert!(Ip::V4([127, 9, 9, 9]).is_loopback());
    assert!(!Ip::V4([128, 0, 0, 1]).is_loopback());
    assert!(Ip::V6([0, 0, 0, 0, 0, 0, 0, 1]).is_loopback());
    assert!(!Ip::V6([0, 0, 0, 0, 0, 0xffff, 0x7f00, 1]).is_loopback());
}

#[test]
fn forbidden_v4() {
    for o in [
        [127, 0, 0, 1], [10, 1, 2, 3], [172, 16, 0, 1], [172, 31, 255, 255], [192, 168, 0, 1],
        [169, 254, 169, 254], [0, 0, 0, 0], [255, 255, 255, 255], [224, 0, 0, 1], [239, 1, 1, 1],
        [192, 0, 2, 7], [198, 51, 100, 7], [203, 0, 113, 7], [100, 64, 0, 1], [100, 127, 255, 255],
        [0, 1, 2, 3], [240, 0, 0, 1], [250, 1, 2, 3], [255, 0, 0, 0], [198, 18, 0, 1], [198, 19, 255, 255],
    ] {
        assert!(is_forbidden_ip(Ip::V4(o)), "{o:?}");
    }
    for o in [[8, 8, 8, 8], [172, 32, 0, 1], [172, 15, 0, 1], [100, 128, 0, 1], [100, 63, 0, 1], [192, 0, 3, 1], [1, 1, 1, 1], [223, 255, 255, 255], [198, 17, 0, 1], [198, 20, 0, 1]] {
        assert!(!is_forbidden_ip(Ip::V4(o)), "{o:?}");
    }
}

#[test]
fn forbidden_v6() {
    let bad: [[u16; 8]; 7] = [
        [0, 0, 0, 0, 0, 0, 0, 1],
        [0; 8],
        [0xff02, 0, 0, 0, 0, 0, 0, 1],
        [0xfd12, 0, 0, 0, 0, 0, 0, 1],
        [0xfe80, 0, 0, 0, 0, 0, 0, 1],
        [0x2001, 0x0db8, 0, 0, 0, 0, 0, 1],
        [0, 0, 0, 0, 0, 0xffff, 0x0a00, 0x0001],
    ];
    for g in bad {
        assert!(is_forbidden_ip(Ip::V6(g)), "{g:?}");
    }
    let good: [[u16; 8]; 3] = [
        [0x2606, 0x4700, 0, 0, 0, 0, 0, 0x1111],
        [0, 0, 0, 0, 0, 0xffff, 0x0808, 0x0808],
        [0xfec0, 0, 0, 0, 0, 0, 0, 1],
    ];
    for g in good {
        assert!(!is_forbidden_ip(Ip::V6(g)), "{g:?}");
    }
}

#[test]
fn mapped_addresses_judged_as_ipv4() {
    for o in [[127u8, 0, 0, 1], [8, 8, 4, 4], [192, 168, 1, 1], [100, 64, 3, 4]] {
        let g = [0, 0, 0, 0, 0, 0xffff, (o[0] as u16) << 8 | o[1] as u16, (o[2] as u16) << 8 | o[3] as u16];
        assert_eq!(is_forbidden_ip(Ip::V6(g)), is_forbidden_ip(Ip::V4(o)));
    }
}
