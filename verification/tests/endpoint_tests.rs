use onvif_client::connection::{
    decode_text, send_soap_request, BodyCollector, BodyPhase, FrameEvent,
};
use onvif_client::endpoint::{decimal_text, hex_text, parse_endpoint, Endpoint, HostAddress};
use onvif_client::error::OnvifError;

fn v4(a: u8, b: u8, c: u8, d: u8, port: u16) -> Endpoint {
    Endpoint { host: HostAddress::V4([a, b, c, d]), port, scope_id: 0 }
}

fn v6(groups: [u16; 8], port: u16, scope_id: u32) -> Endpoint {
    Endpoint { host: HostAddress::V6(groups), port, scope_id }
}

#[test]
fn parse_reads_host_and_port() {
    assert_eq!(parse_endpoint("10.66.3.2:80"), Ok(v4(10, 66, 3, 2, 80)));
}

#[test]
fn parse_accepts_the_limits() {
    assert_eq!(parse_endpoint("255.0.0.255:65535"), Ok(v4(255, 0, 0, 255, 65535)));
    assert_eq!(parse_endpoint("0.0.0.0:0"), Ok(v4(0, 0, 0, 0, 0)));
}

#[test]
fn parse_accepts_zeros_in_front_of_a_port() {
    assert_eq!(parse_endpoint("10.66.3.2:080"), Ok(v4(10, 66, 3, 2, 80)));
    assert_eq!(parse_endpoint("10.66.3.2:0000000000000000000000080"), Ok(v4(10, 66, 3, 2, 80)));
    assert_eq!(parse_endpoint("[::1]:00443"), Ok(v6([0, 0, 0, 0, 0, 0, 0, 1], 443, 0)));
}

#[test]
fn parse_rejects_text_that_is_no_address() {
    assert_eq!(parse_endpoint("not-an-address").err(), Some(OnvifError::AddressParseError));
    assert_eq!(parse_endpoint("").err(), Some(OnvifError::AddressParseError));
    assert_eq!(parse_endpoint("10.66.3.2").err(), Some(OnvifError::AddressParseError));
}

#[test]
fn parse_rejects_numbers_out_of_range() {
    assert_eq!(parse_endpoint("256.1.1.1:80").err(), Some(OnvifError::AddressParseError));
    assert_eq!(parse_endpoint("1.1.1.1:65536").err(), Some(OnvifError::AddressParseError));
    assert_eq!(
        parse_endpoint("1.1.1.1:99999999999999999999").err(),
        Some(OnvifError::AddressParseError)
    );
}

#[test]
fn parse_rejects_malformed_fields() {
    for text in [
        "1.1.1:80", "1.1.1.1", "1.1.1.1:", "1.1.1.1.1:80", "01.1.1.1:80", "1.1.1.1:+80",
        "1..1.1:80", "a.b.c.d:80", "1.1.1.1:8o", " 1.1.1.1:80", "1.1.1.1:80 ", "１.1.1.1:80",
        "1.1.1.1:80:80", "1000.1.1.1:80", "1.1.1.00:80",
    ] {
        assert_eq!(parse_endpoint(text).err(), Some(OnvifError::AddressParseError));
    }
}

#[test]
fn parse_reads_bracketed_ipv6_hosts() {
    assert_eq!(parse_endpoint("[::1]:8080"), Ok(v6([0, 0, 0, 0, 0, 0, 0, 1], 8080, 0)));
    assert_eq!(
        parse_endpoint("[fe80::1:AbCd]:80"),
        Ok(v6([0xfe80, 0, 0, 0, 0, 0, 1, 0xabcd], 80, 0))
    );
    assert_eq!(parse_endpoint("[1:2:3:4:5:6:7:8]:65535"), Ok(v6([1, 2, 3, 4, 5, 6, 7, 8], 65535, 0)));
    assert_eq!(parse_endpoint("[::]:0"), Ok(v6([0; 8], 0, 0)));
    assert_eq!(parse_endpoint("[1::]:1"), Ok(v6([1, 0, 0, 0, 0, 0, 0, 0], 1, 0)));
    assert_eq!(parse_endpoint("[1:2:3:4:5:6:7::]:1"), Ok(v6([1, 2, 3, 4, 5, 6, 7, 0], 1, 0)));
    assert_eq!(parse_endpoint("[::2:3:4:5:6:7:8]:1"), Ok(v6([0, 2, 3, 4, 5, 6, 7, 8], 1, 0)));
    assert_eq!(parse_endpoint("[0001:00a::0]:1"), Ok(v6([1, 10, 0, 0, 0, 0, 0, 0], 1, 0)));
}

#[test]
fn parse_reads_dotted_quads_inside_ipv6() {
    assert_eq!(
        parse_endpoint("[::ffff:10.66.3.2]:80"),
        Ok(v6([0, 0, 0, 0, 0, 0xffff, 0x0a42, 0x0302], 80, 0))
    );
    assert_eq!(
        parse_endpoint("[::ffff:a42:302]:80"),
        Ok(v6([0, 0, 0, 0, 0, 0xffff, 0x0a42, 0x0302], 80, 0))
    );
    assert_eq!(
        parse_endpoint("[1:2:3:4:5:6:1.2.3.4]:80"),
        Ok(v6([1, 2, 3, 4, 5, 6, 0x0102, 0x0304], 80, 0))
    );
    assert_eq!(parse_endpoint("[::1.2.3.4]:80"), Ok(v6([0, 0, 0, 0, 0, 0, 0x0102, 0x0304], 80, 0)));
    assert_eq!(
        parse_endpoint("[64:ff9b::255.255.255.255]:1"),
        Ok(v6([0x64, 0xff9b, 0, 0, 0, 0, 0xffff, 0xffff], 1, 0))
    );
}

#[test]
fn parse_reads_a_scope_number() {
    assert_eq!(parse_endpoint("[fe80::1%3]:80"), Ok(v6([0xfe80, 0, 0, 0, 0, 0, 0, 1], 80, 3)));
    assert_eq!(
        parse_endpoint("[fe80::1%04294967295]:80"),
        Ok(v6([0xfe80, 0, 0, 0, 0, 0, 0, 1], 80, 4294967295))
    );
}

#[test]
fn parse_rejects_malformed_ipv6_hosts() {
    for text in [
        "[1:2:3:4:5:6:7]:80", "[1:2:3:4:5:6:7:8:9]:80", "[1::2::3]:80", "[:1::2]:80",
        "[1::2:]:80", "[12345::]:80", "[::1]", "[::1]:", "[::1]80", "::1:80", "[g::1]:80",
        "[:::]:80", "[1:2:3:4:5:6:7::8]:80", "[]:80", "[::1]:65536", "[::1:80", "[:1:2:3:4:5:6:7]:80",
        "[1:2:3:4:5:6:7:]:80", "[1.2.3.4]:80", "[1.2.3.4::]:80", "[1:2:3:4:5:6:7:1.2.3.4]:80",
        "[::1.2.3.4.5]:80", "[::1.2.3]:80", "[::1.2.3.256]:80", "[::01.2.3.4]:80",
        "[1:2:3:4:5:6::1.2.3.4]:80", "[::1.2.3.4:5]:80", "[::1%]:80", "[::1%x]:80",
        "[::1%4294967296]:80", "[::1%1%2]:80", "[%1]:80", "[::1] :80",
    ] {
        assert_eq!(parse_endpoint(text).err(), Some(OnvifError::AddressParseError));
    }
}

#[test]
fn host_text_is_canonical() {
    assert_eq!(v4(10, 66, 3, 2, 80).host_text(), "10.66.3.2");
    assert_eq!(v6([0; 8], 1, 0).host_text(), "::");
    assert_eq!(v6([0, 0, 0, 0, 0, 0, 0, 1], 1, 0).host_text(), "::1");
    assert_eq!(v6([1, 0, 0, 0, 0, 0, 0, 0], 1, 0).host_text(), "1::");
    assert_eq!(v6([0xfe80, 0, 0, 0, 0, 0, 1, 0xabcd], 1, 7).host_text(), "fe80::1:abcd");
    assert_eq!(v6([1, 0, 0, 2, 0, 0, 0, 3], 1, 0).host_text(), "1:0:0:2::3");
    assert_eq!(v6([1, 0, 0, 2, 0, 0, 3, 4], 1, 0).host_text(), "1::2:0:0:3:4");
    assert_eq!(v6([1, 0, 2, 3, 4, 5, 6, 7], 1, 0).host_text(), "1:0:2:3:4:5:6:7");
    assert_eq!(v6([1, 2, 3, 4, 5, 6, 7, 8], 1, 0).host_text(), "1:2:3:4:5:6:7:8");
    assert_eq!(v6([0, 0, 0, 0, 0, 0, 0x0102, 0x0304], 1, 0).host_text(), "::102:304");
    assert_eq!(v6([0x2001, 0xdb8, 0, 0, 1, 0, 0, 1], 1, 0).host_text(), "2001:db8::1:0:0:1");
    assert_eq!(v6([0xffff; 8], 1, 0).host_text(), "ffff:ffff:ffff:ffff:ffff:ffff:ffff:ffff");
}

#[test]
fn mapped_address_is_written_as_ipv4() {
    let dotted = parse_endpoint("[::ffff:10.66.3.2]:80").unwrap();
    assert_eq!(dotted.host_text(), "10.66.3.2");
    assert_eq!(dotted.authority(), "10.66.3.2:80");
    assert!(!dotted.writes_as_ipv6());
    let hex = parse_endpoint("[::ffff:a42:302]:80").unwrap();
    assert_eq!(hex.authority(), "10.66.3.2:80");
    let req = send_soap_request(&hex, "");
    assert_eq!(req.uri, "http://10.66.3.2:80/onvif/device_service");
    assert_eq!(req.host_header, "10.66.3.2:80");
}

#[test]
fn hex_text_writes_lower_case_without_zeros_in_front() {
    assert_eq!(hex_text(0), "0");
    assert_eq!(hex_text(10), "a");
    assert_eq!(hex_text(0x0abc), "abc");
    assert_eq!(hex_text(0xffff), "ffff");
}

#[test]
fn decimal_text_writes_numbers() {
    assert_eq!(decimal_text(0), "0");
    assert_eq!(decimal_text(7), "7");
    assert_eq!(decimal_text(80), "80");
    assert_eq!(decimal_text(65535), "65535");
    assert_eq!(decimal_text(u64::MAX), "18446744073709551615");
}

#[test]
fn body_is_three_chunks_in_order() {
    let mut c = BodyCollector::new();
    assert_eq!(c.accept(FrameEvent::Data(vec![1, 2])), BodyPhase::Reading);
    assert_eq!(c.accept(FrameEvent::Data(vec![3])), BodyPhase::Reading);
    assert_eq!(c.accept(FrameEvent::Data(vec![4, 5, 6])), BodyPhase::Reading);
    assert_eq!(c.accept(FrameEvent::End), BodyPhase::Complete);
    assert_eq!(c.into_body(), Ok(vec![1, 2, 3, 4, 5, 6]));
}

#[test]
fn body_skips_frames_without_data() {
    let mut c = BodyCollector::new();
    c.accept(FrameEvent::Data(vec![1]));
    assert_eq!(c.accept(FrameEvent::Other), BodyPhase::Reading);
    c.accept(FrameEvent::Data(vec![2]));
    c.accept(FrameEvent::End);
    assert_eq!(c.into_body(), Ok(vec![1, 2]));
}

#[test]
fn empty_body_is_a_body() {
    let mut c = BodyCollector::new();
    assert_eq!(c.accept(FrameEvent::End), BodyPhase::Complete);
    assert_eq!(c.into_body(), Ok(Vec::new()));
}

#[test]
fn broken_frame_gives_no_partial_body() {
    let mut c = BodyCollector::new();
    c.accept(FrameEvent::Data(vec![1, 2]));
    assert_eq!(c.accept(FrameEvent::Failed), BodyPhase::Broken);
    assert_eq!(c.accept(FrameEvent::Data(vec![3])), BodyPhase::Broken);
    assert_eq!(c.accept(FrameEvent::End), BodyPhase::Broken);
    assert_eq!(c.into_body(), Err(OnvifError::FrameReadError));
}

#[test]
fn unfinished_body_is_no_body() {
    let mut c = BodyCollector::new();
    c.accept(FrameEvent::Data(vec![1, 2]));
    assert_eq!(c.into_body(), Err(OnvifError::FrameReadError));
}

#[test]
fn frames_after_the_end_change_nothing() {
    let mut c = BodyCollector::new();
    c.accept(FrameEvent::Data(vec![1]));
    c.accept(FrameEvent::End);
    assert_eq!(c.accept(FrameEvent::Data(vec![2])), BodyPhase::Complete);
    assert_eq!(c.accept(FrameEvent::Failed), BodyPhase::Complete);
    assert_eq!(c.into_body(), Ok(vec![1]));
}

#[test]
fn decode_text_reads_utf8() {
    assert_eq!(decode_text("héllo".as_bytes().to_vec()), Ok(String::from("héllo")));
    assert_eq!(decode_text(Vec::new()), Ok(String::new()));
}

#[test]
fn decode_text_rejects_bytes_that_are_no_text() {
    assert_eq!(decode_text(vec![0xff, 0xfe]), Err(OnvifError::Utf8DecodeError));
    assert_eq!(decode_text(vec![b'a', 0xc3]), Err(OnvifError::Utf8DecodeError));
}

#[test]
fn authority_is_host_colon_port() {
    assert_eq!(v4(10, 66, 3, 2, 8080).authority(), "10.66.3.2:8080");
}

#[test]
fn authority_brackets_ipv6_hosts() {
    let e = parse_endpoint("[FE80:0:0:0:0:0:0:1%2]:080").unwrap();
    assert!(e.writes_as_ipv6());
    assert_eq!(e.authority(), "[fe80::1]:80");
    let req = send_soap_request(&e, "");
    assert_eq!(req.uri, "http://[fe80::1]:80/onvif/device_service");
    assert_eq!(req.host_header, "[fe80::1]:80");
}

#[test]
fn soap_request_is_a_post_to_the_device_service() {
    let req = send_soap_request(&v4(10, 66, 3, 2, 80), "<body/>");
    assert_eq!(req.method, "POST");
    assert_eq!(req.uri, "http://10.66.3.2:80/onvif/device_service");
    assert_eq!(req.host_header, "10.66.3.2:80");
    assert_eq!(req.body, "<body/>");
}
