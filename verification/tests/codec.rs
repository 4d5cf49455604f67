use argon::commands::At;
use argon::commands::DHCPSet;
use argon::commands::GetDNSCmd;
use argon::commands::HttpCmd;
use argon::commands::IPCmd;
use argon::commands::ParseError;
use argon::commands::SetDNSCmd;
use argon::commands::WifiConnect;
use argon::commands::AT_MAX_LEN;
use argon::commands::DHCP_SET_MAX_LEN;
use argon::commands::GET_DNS_MAX_LEN;
use argon::commands::HTTP_CMD_MAX_LEN;
use argon::commands::IP_CMD_MAX_LEN;
use argon::commands::SET_DNS_MAX_LEN;
use argon::commands::WIFI_CONNECT_MAX_LEN;
use argon::responses::WifiConnectResponse;
use argon::types::ContentType;
use argon::types::DNSMode;
use argon::types::HTTPMethode;
use argon::types::Header;
use argon::types::Ipv4Addr;
use argon::types::TransportType;

#[test]
fn at_probe_encodes() {
    let v = At.as_bytes();
    assert_eq!(v, b"AT\r\n".to_vec());
    assert!(v.len() <= AT_MAX_LEN);
}

#[test]
fn dhcp_set_encodes() {
    let v = DHCPSet { operate: 1, mode: 1 }.as_bytes();
    assert_eq!(v, b"AT+CWDHCP=1,1\r\n".to_vec());
    assert!(v.len() <= DHCP_SET_MAX_LEN);
    let wide = DHCPSet { operate: 255, mode: 0 }.as_bytes();
    assert_eq!(wide, b"AT+CWDHCP=255,0\r\n".to_vec());
    assert!(wide.len() <= DHCP_SET_MAX_LEN);
}

#[test]
fn wifi_connect_encodes() {
    let cmd = WifiConnect { ssid: b"mynet".to_vec(), pw: b"secret".to_vec() };
    let v = cmd.as_bytes();
    assert_eq!(v, b"AT+CWJAP=\"mynet\",\"secret\"\r\n".to_vec());
    assert!(v.len() <= WIFI_CONNECT_MAX_LEN);
}

#[test]
fn wifi_connect_encode_fills_capacity() {
    let cmd = WifiConnect { ssid: vec![b'a'; 64], pw: vec![b'b'; 128] };
    let v = cmd.as_bytes();
    assert!(v.len() <= WIFI_CONNECT_MAX_LEN);
    assert_eq!(&v[v.len() - 2..], b"\r\n");
}

#[test]
fn ip_query_encodes() {
    let v = IPCmd {}.as_bytes();
    assert_eq!(v, b"AT+CIFSR\r\n".to_vec());
    assert!(v.len() <= IP_CMD_MAX_LEN);
}

#[test]
fn dns_query_encodes() {
    let v = GetDNSCmd {}.as_bytes();
    assert_eq!(v, b"AT+CIPDNS?\r\n".to_vec());
    assert!(v.len() <= GET_DNS_MAX_LEN);
}

#[test]
fn dns_set_encodes() {
    let cmd = SetDNSCmd {
        dns_mode: DNSMode::MANUAL,
        dns_ip1: Some(Ipv4Addr::new(8, 8, 8, 8)),
        dns_ip2: Some(Ipv4Addr::new(1, 1, 1, 1)),
        dns_ip3: None,
    };
    let v = cmd.as_bytes();
    assert_eq!(v, b"AT+CIPDNS=1,\"8.8.8.8\",\"1.1.1.1\"\r\n".to_vec());
    assert!(v.len() <= SET_DNS_MAX_LEN);
}

#[test]
fn dns_set_automatic_encodes_bare() {
    let cmd =
        SetDNSCmd { dns_mode: DNSMode::AUTOMATIC, dns_ip1: None, dns_ip2: None, dns_ip3: None };
    assert_eq!(cmd.as_bytes(), b"AT+CIPDNS=0\r\n".to_vec());
}

#[test]
fn http_get_encodes() {
    let cmd = HttpCmd::new(HTTPMethode::GET, b"https://example.test/x", None);
    let v = cmd.as_bytes();
    assert_eq!(v, b"AT+HTTPCLIENT=2,3,\"https://example.test/x\",,,2\r\n".to_vec());
    assert!(v.len() <= HTTP_CMD_MAX_LEN);
}

#[test]
fn http_full_encodes() {
    let cmd = HttpCmd {
        methode: HTTPMethode::POST,
        content_type: ContentType::JSON,
        url: b"https://example.test/api".to_vec(),
        host: Some(b"example.test".to_vec()),
        path: Some(b"/api".to_vec()),
        transport_type: TransportType::TCP,
        data: Some(b"{}".to_vec()),
        header: Some(vec![
            Header { key: b"a".to_vec(), value: b"1".to_vec() },
            Header { key: b"b".to_vec(), value: b"2".to_vec() },
        ]),
    };
    let v = cmd.as_bytes();
    assert_eq!(
        v,
        b"AT+HTTPCLIENT=3,1,\"https://example.test/api\",\"example.test\",\"/api\",1,\"{}\",\"a=1&b=2\"\r\n"
            .to_vec()
    );
    assert!(v.len() <= HTTP_CMD_MAX_LEN);
}

#[test]
fn join_reply_parses_quoted_sentinels() {
    let cmd = WifiConnect { ssid: b"n".to_vec(), pw: b"p".to_vec() };
    let reply = b"+CWJAP:\"WIFI CONNECTED\"\r\n+CWJAP:\"WIFI GOT IP\"\r\n";
    let r = cmd.parse(reply).unwrap();
    assert_eq!(r, WifiConnectResponse { connected: true, got_ip: true });
}

#[test]
fn join_reply_parses_every_flag_set() {
    let cmd = WifiConnect { ssid: b"n".to_vec(), pw: b"p".to_vec() };
    let cases: [(&[u8], bool, bool); 4] = [
        (b"WIFI DISCONNECTED\r\n", false, false),
        (b"WIFI CONNECTED\r\n", true, false),
        (b"WIFI CONNECTED\r\nWIFI GOT IP\r\n", true, true),
        (b"WIFI DISCONNECTED\r\nWIFI GOT IP\r\n", false, true),
    ];
    for (reply, connected, got_ip) in cases {
        let r = cmd.parse(reply).unwrap();
        assert_eq!(r, WifiConnectResponse { connected, got_ip });
    }
}

#[test]
fn join_reply_skips_unknown_lines() {
    let cmd = WifiConnect { ssid: b"n".to_vec(), pw: b"p".to_vec() };
    let r = cmd.parse(b"chatter\r\nWIFI CONNECTED\r\nmore chatter\r\nOK\r\n").unwrap();
    assert_eq!(r, WifiConnectResponse { connected: true, got_ip: false });
}

#[test]
fn join_reply_rejects_non_ascii() {
    let cmd = WifiConnect { ssid: b"n".to_vec(), pw: b"p".to_vec() };
    let r = cmd.parse(&[0x80, b'O', b'K']);
    assert_eq!(r, Err(ParseError::InvalidText));
}

#[test]
fn ip_reply_parses_addresses() {
    let reply = b"+CIFSR:STAIP,\"192.168.1.5\"\r\n+CIFSR:STAMAC,\"aa:bb:cc:dd:ee:ff\"\r\nOK\r\n";
    let r = IPCmd {}.parse(reply).unwrap();
    assert_eq!(r.stat_ip, b"192.168.1.5".to_vec());
    assert_eq!(r.stat_mac, b"aa:bb:cc:dd:ee:ff".to_vec());
}

#[test]
fn ip_reply_without_markers_is_empty() {
    let r = IPCmd {}.parse(b"nothing here\r\nOK\r\n").unwrap();
    assert!(r.stat_ip.is_empty());
    assert!(r.stat_mac.is_empty());
}

#[test]
fn dns_reply_parses_servers() {
    let reply = b"+CIPDNS:1,\"8.8.8.8\",\"1.1.1.1\"\r\nOK\r\n";
    let r = GetDNSCmd {}.parse(reply).unwrap();
    assert_eq!(r.dns_mode, DNSMode::MANUAL);
    assert_eq!(r.dns_1, Some(b"8.8.8.8".to_vec()));
    assert_eq!(r.dns_2, Some(b"1.1.1.1".to_vec()));
    assert_eq!(r.dns_3, None);
}

#[test]
fn dns_reply_parses_automatic() {
    let r = GetDNSCmd {}.parse(b"+CIPDNS:0\r\nOK\r\n").unwrap();
    assert_eq!(r.dns_mode, DNSMode::AUTOMATIC);
    assert_eq!(r.dns_1, None);
    assert_eq!(r.dns_2, None);
    assert_eq!(r.dns_3, None);
}

#[test]
fn http_reply_parses_size_and_body() {
    let cmd = HttpCmd::new(HTTPMethode::GET, b"u", None);
    let r = cmd.parse(b"+HTTPCLIENT:5,hello\r\nOK\r\n").unwrap();
    assert_eq!(r.size, 5);
    assert_eq!(r.data, b"hello".to_vec());
}

#[test]
fn http_reply_overflows_past_capacity() {
    let cmd = HttpCmd::new(HTTPMethode::GET, b"u", None);
    let r = cmd.parse(b"+HTTPCLIENT:4096,data\r\n");
    assert_eq!(r, Err(ParseError::Overflow));
}

#[test]
fn http_reply_overflows_on_huge_size() {
    let cmd = HttpCmd::new(HTTPMethode::GET, b"u", None);
    let r = cmd.parse(b"+HTTPCLIENT:99999999999999999999,x\r\n");
    assert_eq!(r, Err(ParseError::Overflow));
}

#[test]
fn http_reply_boundary_size_is_kept() {
    let cmd = HttpCmd::new(HTTPMethode::GET, b"u", None);
    let r = cmd.parse(b"+HTTPCLIENT:2048,\r\n").unwrap();
    assert_eq!(r.size, 2048);
    assert_eq!(r.data, b"".to_vec());
}

#[test]
fn http_reply_skips_malformed_marker_line() {
    let cmd = HttpCmd::new(HTTPMethode::GET, b"u", None);
    let r = cmd.parse(b"+HTTPCLIENT:abc\r\nOK\r\n").unwrap();
    assert_eq!(r.size, 0);
    assert_eq!(r.data, b"".to_vec());
}

#[test]
fn empty_reply_commands_always_parse() {
    assert!(At.parse(b"whatever").is_ok());
    assert!(DHCPSet { operate: 1, mode: 1 }.parse(b"OK\r\n").is_ok());
    let dns =
        SetDNSCmd { dns_mode: DNSMode::AUTOMATIC, dns_ip1: None, dns_ip2: None, dns_ip3: None };
    assert!(dns.parse(b"ERROR\r\n").is_ok());
}

#[test]
fn enum_ordinals_are_stable() {
    assert_eq!(DNSMode::AUTOMATIC.ordinal(), 0);
    assert_eq!(DNSMode::MANUAL.ordinal(), 1);
    assert_eq!(HTTPMethode::HEAD.ordinal(), 1);
    assert_eq!(HTTPMethode::GET.ordinal(), 2);
    assert_eq!(HTTPMethode::POST.ordinal(), 3);
    assert_eq!(HTTPMethode::PUT.ordinal(), 4);
    assert_eq!(HTTPMethode::DELTE.ordinal(), 5);
    assert_eq!(ContentType::X_WWW_FORM_URLENCODED.ordinal(), 0);
    assert_eq!(ContentType::JSON.ordinal(), 1);
    assert_eq!(ContentType::MULTIPART_FORM_DATA.ordinal(), 2);
    assert_eq!(ContentType::TEXT_XML.ordinal(), 3);
    assert_eq!(TransportType::TCP.ordinal(), 1);
    assert_eq!(TransportType::SSL.ordinal(), 2);
}
