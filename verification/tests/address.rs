use media_service::address::{
    resolve, Host, Ipv4Host, Ipv6Host, ListenAddress, ResolveError, LISTENING_PREFIX,
};
use media_service::config::DEFAULT_LISTEN_ADDRESS;

fn invalid(text: &str) {
    assert_eq!(resolve(text), Err(ResolveError::InvalidAddress), "{:?}", text);
}

fn v6(groups: [u16; 8], scope: u32, port: u16) -> ListenAddress {
    let host = Ipv6Host {
        g0: groups[0],
        g1: groups[1],
        g2: groups[2],
        g3: groups[3],
        g4: groups[4],
        g5: groups[5],
        g6: groups[6],
        g7: groups[7],
        scope,
    };
    ListenAddress::with_host(Host::V6(host), port)
}

fn resolves(text: &str, groups: [u16; 8], scope: u32, port: u16) {
    let addr = v6(groups, scope, port);
    assert_eq!(resolve(text), Ok(addr), "{:?}", text);
    assert_eq!(resolve(&addr.to_text()), Ok(addr), "{:?}", text);
}

#[test]
fn resolves_loopback_with_an_ephemeral_port() {
    let addr = resolve("127.0.0.1:0").unwrap();
    assert_eq!(addr.host, Host::V4(Ipv4Host { a: 127, b: 0, c: 0, d: 1 }));
    assert_eq!(addr.port, 0);
    assert_eq!(Ipv4Host { a: 1, b: 2, c: 3, d: 4 }.octets(), [1, 2, 3, 4]);
    assert_eq!(addr, ListenAddress::with_host(Host::V4(Ipv4Host { a: 127, b: 0, c: 0, d: 1 }), 0));
}

#[test]
fn resolves_the_largest_octets_and_port() {
    assert_eq!(resolve("255.255.255.255:65535"), Ok(ListenAddress::new(255, 255, 255, 255, 65535)));
    assert_eq!(resolve("0.0.0.0:0"), Ok(ListenAddress::new(0, 0, 0, 0, 0)));
    assert_eq!(resolve("1.20.139.200:443"), Ok(ListenAddress::new(1, 20, 139, 200, 443)));
}

#[test]
fn a_port_may_have_leading_zeros() {
    assert_eq!(resolve("1.2.3.4:0080"), Ok(ListenAddress::new(1, 2, 3, 4, 80)));
    assert_eq!(resolve("1.2.3.4:000000000065535"), Ok(ListenAddress::new(1, 2, 3, 4, 65535)));
    assert_eq!(resolve("1.2.3.4:00"), Ok(ListenAddress::new(1, 2, 3, 4, 0)));
}

#[test]
fn an_octet_may_not_have_leading_zeros() {
    invalid("01.2.3.4:80");
    invalid("1.02.3.4:80");
    invalid("1.2.003.4:80");
    invalid("1.2.3.00:80");
}

#[test]
fn rejects_numbers_out_of_range() {
    invalid("256.1.1.1:80");
    invalid("1.256.1.1:80");
    invalid("1.1.1.999:80");
    invalid("1.1.1.1000:80");
    invalid("1.2.3.4:65536");
    invalid("1.2.3.4:99999");
    invalid("1.2.3.4:100000000000000000000000");
}

#[test]
fn rejects_what_is_no_host_and_port() {
    invalid("");
    invalid(":");
    invalid("nonsense");
    invalid("1.2.3.4");
    invalid("1.2.3.4:");
    invalid(":80");
    invalid("1.2.3:80");
    invalid("1.2.3.4.5:80");
    invalid("1..3.4:80");
    invalid(".1.2.3.4:80");
    invalid("1.2.3.4.:80");
    invalid("1.2.3.4:8a");
    invalid("1.2.3.4:-1");
    invalid("1.2.3.4:+1");
    invalid("1.2.3.4:80 ");
    invalid(" 1.2.3.4:80");
    invalid("1.2.3.4 :80");
    invalid("1.2.3.4::80");
    invalid("1.2.3.4:80:");
    invalid("localhost:80");
    invalid("example.com:443");
    invalid("a.b.c.d:1");
}

#[test]
fn rejects_text_that_is_not_ascii() {
    invalid("1.2.3.4:８０");
    invalid("١.٢.٣.٤:80");
    invalid("é:80");
    invalid("[é]:80");
    invalid("1.2.3.4:80é");
}

#[test]
fn a_bracketed_literal_resolves_to_its_groups() {
    resolves("[::1]:50051", [0, 0, 0, 0, 0, 0, 0, 1], 0, 50051);
    resolves("[::]:0", [0, 0, 0, 0, 0, 0, 0, 0], 0, 0);
    resolves("[::]:50051", [0, 0, 0, 0, 0, 0, 0, 0], 0, 50051);
    resolves("[2001:db8::1]:443", [0x2001, 0xdb8, 0, 0, 0, 0, 0, 1], 0, 443);
    resolves("[FE80::A]:65535", [0xfe80, 0, 0, 0, 0, 0, 0, 0xa], 0, 65535);
    resolves("[fE80::aBcD]:1", [0xfe80, 0, 0, 0, 0, 0, 0, 0xabcd], 0, 1);
    resolves("[1:2:3:4:5:6:7:8]:1", [1, 2, 3, 4, 5, 6, 7, 8], 0, 1);
    resolves("[0:0:0:0:0:0:0:0]:0", [0, 0, 0, 0, 0, 0, 0, 0], 0, 0);
    resolves(
        "[ffff:ffff:ffff:ffff:ffff:ffff:ffff:ffff]:65535",
        [0xffff, 0xffff, 0xffff, 0xffff, 0xffff, 0xffff, 0xffff, 0xffff],
        0,
        65535,
    );
    resolves("[1::]:1", [1, 0, 0, 0, 0, 0, 0, 0], 0, 1);
    resolves("[0001:0002::]:1", [1, 2, 0, 0, 0, 0, 0, 0], 0, 1);
    resolves("[::0001]:0080", [0, 0, 0, 0, 0, 0, 0, 1], 0, 80);
    resolves("[1:2:3::6:7:8]:1", [1, 2, 3, 0, 0, 6, 7, 8], 0, 1);
    resolves("[1:2:3:4:5:6:7::]:1", [1, 2, 3, 4, 5, 6, 7, 0], 0, 1);
    resolves("[::2:3:4:5:6:7:8]:1", [0, 2, 3, 4, 5, 6, 7, 8], 0, 1);
    resolves("[1::8]:1", [1, 0, 0, 0, 0, 0, 0, 8], 0, 1);
    resolves("[1:2::7:8]:1", [1, 2, 0, 0, 0, 0, 7, 8], 0, 1);
}

#[test]
fn an_ipv6_literal_may_end_in_a_dotted_host() {
    resolves("[::ffff:1.2.3.4]:80", [0, 0, 0, 0, 0, 0xffff, 0x0102, 0x0304], 0, 80);
    resolves("[::1.2.3.4]:80", [0, 0, 0, 0, 0, 0, 0x0102, 0x0304], 0, 80);
    resolves("[1:2:3:4:5:6:1.2.3.4]:1", [1, 2, 3, 4, 5, 6, 0x0102, 0x0304], 0, 1);
    resolves("[1:2:3:4:5::1.2.3.4]:80", [1, 2, 3, 4, 5, 0, 0x0102, 0x0304], 0, 80);
    resolves(
        "[64:ff9b::255.255.255.255]:80",
        [0x64, 0xff9b, 0, 0, 0, 0, 0xffff, 0xffff],
        0,
        80,
    );
    resolves("[::0.0.0.0]:80", [0, 0, 0, 0, 0, 0, 0, 0], 0, 80);
    resolves("[::10.0.255.1]:80", [0, 0, 0, 0, 0, 0, 0x0a00, 0xff01], 0, 80);
    invalid("[1.2.3.4]:80");
    invalid("[1.2.3.4::]:80");
    invalid("[1.2.3.4::1]:80");
    invalid("[::1.2.3.4:5]:80");
    invalid("[::1.2.3]:80");
    invalid("[::1.2.3.4.5]:80");
    invalid("[::01.2.3.4]:80");
    invalid("[::256.1.1.1]:80");
    invalid("[1:2:3:4:5:6:7:1.2.3.4]:80");
    invalid("[1:2:3:4:5:1.2.3.4]:80");
    invalid("[1:2:3:4:5:6::1.2.3.4]:80");
}

#[test]
fn an_ipv6_literal_may_have_a_numeric_scope() {
    resolves("[fe80::1%1]:80", [0xfe80, 0, 0, 0, 0, 0, 0, 1], 1, 80);
    resolves("[fe80::1%0]:80", [0xfe80, 0, 0, 0, 0, 0, 0, 1], 0, 80);
    resolves("[::1%007]:80", [0, 0, 0, 0, 0, 0, 0, 1], 7, 80);
    resolves("[::1%4294967295]:80", [0, 0, 0, 0, 0, 0, 0, 1], 4294967295, 80);
    resolves("[1:2:3:4:5:6:7:8%42]:80", [1, 2, 3, 4, 5, 6, 7, 8], 42, 80);
    invalid("[::1%4294967296]:80");
    invalid("[fe80::1%eth0]:80");
    invalid("[fe80::1%]:80");
    invalid("[fe80::1%1%1]:80");
    invalid("[%1]:80");
    invalid("[fe80::1%-1]:80");
}

#[test]
fn brackets_around_what_is_no_ipv6_literal_are_invalid() {
    invalid("[1]:1");
    invalid("[.]:1");
    invalid("[:]:80");
    invalid("[::::]:0");
    invalid("[:::]:80");
    invalid("[12345::]:80");
    invalid("[::12345]:80");
    invalid("[1:2:3:4:5:6:7]:80");
    invalid("[1:2:3:4:5:6:7:8:9]:80");
    invalid("[1:2:3:4:5:6:7:8::]:80");
    invalid("[::1:2:3:4:5:6:7:8]:80");
    invalid("[1:2:3:4::5:6:7:8]:80");
    invalid("[1::2::3]:80");
    invalid("[1:]:80");
    invalid("[:1]:80");
    invalid("[1:::2]:80");
    invalid("[::g]:80");
    invalid("[::1 ]:80");
    invalid("[ ::1]:80");
    invalid("[[::1]]:80");
    invalid("[localhost]:80");
    invalid("[]:80");
}

#[test]
fn a_bracketed_literal_needs_its_brackets_and_a_port() {
    invalid("[::1]");
    invalid("[::1]:");
    invalid("[::1]:65536");
    invalid("[::1]:8a");
    invalid("[::1:80");
    invalid("::1]:80");
    invalid("::1:80");
    invalid("[::1]x:80");
    invalid("x[::1]:80");
}

#[test]
fn writes_an_address() {
    assert_eq!(ListenAddress::new(192, 168, 1, 10, 8080).to_text(), "192.168.1.10:8080");
    assert_eq!(ListenAddress::new(0, 0, 0, 0, 0).to_text(), "0.0.0.0:0");
    assert_eq!(ListenAddress::new(255, 255, 255, 255, 65535).to_text(), "255.255.255.255:65535");
    assert_eq!(ListenAddress::new(10, 100, 9, 99, 10000).to_text(), "10.100.9.99:10000");
    assert_eq!(ListenAddress::new(0, 0, 0, 0, 50051).to_text(), DEFAULT_LISTEN_ADDRESS);
}

#[test]
fn text_round_trips_for_every_octet() {
    let mut n: u16 = 0;
    while n <= 255 {
        let o: u8 = n as u8;
        let addr = ListenAddress::new(o, 255 - o, o / 2, o ^ 0x55, n * 257);
        let text = addr.to_text();
        assert_eq!(resolve(&text), Ok(addr), "{}", text);
        assert_eq!(resolve(&text).unwrap().to_text(), text);
        n += 1;
    }
}

#[test]
fn text_round_trips_for_every_port() {
    let mut p: u32 = 0;
    while p <= 65535 {
        let addr = ListenAddress::new(127, 0, 0, 1, p as u16);
        let text = addr.to_text();
        assert_eq!(text, format!("127.0.0.1:{}", p));
        assert_eq!(resolve(&text), Ok(addr));
        p += 1;
    }
}

#[test]
fn resolved_text_is_written_back_without_leading_zeros() {
    let addr = resolve("10.0.0.1:00443").unwrap();
    assert_eq!(addr.to_text(), "10.0.0.1:443");
    assert_eq!(resolve(&addr.to_text()), Ok(addr));
    let same = resolve("10.0.0.1:443").unwrap();
    assert_eq!(same.to_text(), "10.0.0.1:443");
}

#[test]
fn the_startup_line_reports_the_address() {
    assert_eq!(LISTENING_PREFIX, "Server listening on ");
    assert_eq!(
        ListenAddress::new(0, 0, 0, 0, 50051).listening_line(),
        "Server listening on 0.0.0.0:50051"
    );
    assert_eq!(
        resolve("127.0.0.1:0").unwrap().listening_line(),
        "Server listening on 127.0.0.1:0"
    );
}


#[test]
fn writes_an_address_of_the_second_family() {
    assert_eq!(v6([0, 0, 0, 0, 0, 0, 0, 1], 0, 50051).to_text(), "[0:0:0:0:0:0:0:1]:50051");
    assert_eq!(v6([0, 0, 0, 0, 0, 0, 0, 0], 0, 0).to_text(), "[0:0:0:0:0:0:0:0]:0");
    assert_eq!(
        v6([0x2001, 0xdb8, 0, 0, 0, 0x10, 0xabcd, 0xffff], 0, 443).to_text(),
        "[2001:db8:0:0:0:10:abcd:ffff]:443"
    );
    assert_eq!(
        v6([0xfe80, 0, 0, 0, 0, 0, 0, 1], 3, 80).to_text(),
        "[fe80:0:0:0:0:0:0:1%3]:80"
    );
    assert_eq!(
        v6([0xffff, 0xffff, 0xffff, 0xffff, 0xffff, 0xffff, 0xffff, 0xffff], 4294967295, 65535)
            .to_text(),
        "[ffff:ffff:ffff:ffff:ffff:ffff:ffff:ffff%4294967295]:65535"
    );
    assert_eq!(
        v6([0, 0, 0, 0, 0, 0xffff, 0x0102, 0x0304], 0, 8080).listening_line(),
        "Server listening on [0:0:0:0:0:ffff:102:304]:8080"
    );
    let host = Ipv6Host { g0: 1, g1: 2, g2: 3, g3: 4, g4: 5, g5: 6, g6: 7, g7: 8, scope: 9 };
    assert_eq!(host.groups(), [1, 2, 3, 4, 5, 6, 7, 8]);
}

#[test]
fn text_of_the_second_family_round_trips_for_every_group() {
    let mut n: u32 = 0;
    while n <= 0xffff {
        let g: u16 = n as u16;
        let addr = v6([g, !g, g / 3, g ^ 0x5555, g.rotate_left(4), 0, g, 0xffff - g], n * 65537, g);
        let text = addr.to_text();
        assert_eq!(resolve(&text), Ok(addr), "{}", text);
        assert_eq!(resolve(&text).unwrap().to_text(), text);
        n += 1;
    }
}

#[test]
fn a_text_and_the_text_written_back_resolve_to_the_same_address() {
    let texts = [
        "[::1]:50051",
        "[2001:DB8::1]:0443",
        "[::ffff:192.168.1.10]:80",
        "[fe80::1%0012]:80",
        "[1:2:3:4:5:6:7:8]:8",
        "10.0.0.1:0080",
        "0.0.0.0:50051",
    ];
    for text in texts.iter() {
        let addr = resolve(text).unwrap();
        let back = addr.to_text();
        assert_eq!(resolve(&back), Ok(addr));
        assert_eq!(resolve(&back).unwrap().to_text(), back);
    }
    assert_eq!(resolve("[2001:DB8::1]:0443").unwrap().to_text(), "[2001:db8:0:0:0:0:0:1]:443");
    assert_eq!(
        resolve("[::ffff:192.168.1.10]:80").unwrap().to_text(),
        "[0:0:0:0:0:ffff:c0a8:10a]:80"
    );
}

#[test]
fn no_text_is_refused_for_its_family() {
    let texts = [
        "",
        "nonsense",
        "localhost:80",
        "[::1]:80",
        "[::1]",
        "[1]:1",
        "1.2.3.4:80",
        "1.2.3.4",
        "[fe80::1%eth0]:80",
        "[::ffff:1.2.3.4]:80",
    ];
    for text in texts.iter() {
        assert!(resolve(text) != Err(ResolveError::UnsupportedFamily), "{:?}", text);
    }
}
