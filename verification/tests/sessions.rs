use aes67_vsc::descriptor::RxDescriptor;
use aes67_vsc::duration::Millis;
use aes67_vsc::error::RxError;
use aes67_vsc::network::{IpAddress, SocketAddress};
use aes67_vsc::session::{read_clock_offset, read_rtpmap, RtpMap, SessionInfo};
use aes67_vsc::socket::{
    find_stream_source, plan_ipv4_rx_socket, plan_ipv6_rx_socket, plan_socket, GroupJoin,
};

const SDP: &str = "v=0\r\no=- 17 3 IN IP4 10.0.1.2\r\ns=My sample flow\r\nt=0 0\r\n\
                   m=audio 5004 RTP/AVP 98\r\nc=IN IP4 239.69.11.44/32\r\n\
                   a=rtpmap:98 L24/48000/4\r\na=ptime:1\r\na=mediaclk:direct=963214424\r\n";

fn millis(value: f32) -> Millis {
    Millis { bits: value.to_bits() }
}

fn session(text: &str) -> SessionInfo {
    SessionInfo::parse(text).unwrap()
}

fn describe(text: &str, ptime: Option<Millis>) -> Result<RxDescriptor, RxError> {
    let sd = session(text);
    RxDescriptor::try_new(7, &sd, millis(4.0), ptime, Ok(IpAddress::V4(0x0a000102))).unwrap()
}

fn invalid(error: Result<RxDescriptor, RxError>) -> String {
    match error {
        Err(RxError::InvalidSdp(text)) => text,
        other => panic!("{other:?}"),
    }
}

#[test]
fn session_descriptions_are_read() {
    let sd = session(SDP);
    assert_eq!(sd.name, "My sample flow");
    assert_eq!((sd.id, sd.version), (17, 3));
    assert_eq!(sd.origin, "10.0.1.2");
    assert!(sd.connection.is_none());
    assert_eq!(sd.media.len(), 1);
    let media = &sd.media[0];
    assert_eq!(media.media, "audio");
    assert_eq!(media.port, 5004);
    assert_eq!(media.protos, vec!["RTP".to_owned(), "AVP".to_owned()]);
    assert_eq!(media.formats, vec!["98".to_owned()]);
    let connection = media.connection.as_ref().unwrap();
    assert_eq!(connection.network_type, "IN");
    assert_eq!(connection.address_type, "IP4");
    assert_eq!(connection.address.as_deref(), Some("239.69.11.44/32"));
    assert_eq!(media.attribute("rtpmap"), Some("98 L24/48000/4"));
    assert_eq!(media.attribute("recvonly"), None);
    assert_eq!(sd.packet_time(), Some("1"));
    assert_eq!(RxDescriptor::session_id_from_sdp(&sd), "17 3");
}

#[test]
fn errors_of_the_parser_are_passed_on() {
    assert_eq!(SessionInfo::parse("x=1").unwrap_err(), "SdpInvalidSyntax: x=");
}

#[test]
fn receivers_are_described() {
    let desc = describe(SDP, Some(millis(1.0))).unwrap();
    assert_eq!(desc.id, 7);
    assert_eq!(desc.session_name, "My sample flow");
    assert_eq!(desc.bit_depth, 24);
    assert_eq!(desc.sampling_rate, 48000);
    assert_eq!(desc.channels, 4);
    assert_eq!(desc.packet_time, millis(1.0));
    assert_eq!(desc.link_offset, millis(4.0));
    assert_eq!(desc.origin_ip, IpAddress::V4(0x0a000102));
    assert_eq!(desc.rtp_offset, 963214424);
    let same = RxDescriptor::new(
        7,
        &session(SDP),
        millis(4.0),
        Some(millis(1.0)),
        Ok(IpAddress::V4(0x0a000102)),
    )
    .unwrap();
    assert_eq!(format!("{same:?}"), format!("{desc:?}"));
}

#[test]
fn each_part_of_a_stream_is_needed() {
    let without = |line: &str| SDP.replace(line, "");
    let ptime = Some(millis(1.0));
    let media = SDP.find("m=").unwrap();
    assert_eq!(invalid(describe(&SDP[..media], ptime)), "no media description found");
    assert_eq!(
        invalid(describe(&without("a=rtpmap:98 L24/48000/4\r\n"), ptime)),
        "no rtpmap found"
    );
    assert_eq!(invalid(describe(&SDP.replace("/4\r\n", "\r\n"), ptime)), "malformed rtpmap");
    assert_eq!(
        invalid(describe(&SDP.replace("rtpmap:98", "rtpmap:97"), ptime)),
        "rtpmap and media description payload types do not match"
    );
    assert_eq!(invalid(describe(SDP, None)), "no ptime");
    assert_eq!(
        invalid(describe(&without("a=mediaclk:direct=963214424\r\n"), ptime)),
        "mediaclk"
    );
    assert_eq!(
        invalid(describe(&SDP.replace("direct=", "sender="), ptime)),
        "malformed mediaclk"
    );
    let mut sd = session(SDP);
    sd.media[0].formats.clear();
    let described = RxDescriptor::describe(
        0,
        &sd,
        millis(4.0),
        None,
        ptime,
        None,
        Ok(IpAddress::V4(1)),
    );
    assert_eq!(invalid(described), "no media format found");
}

#[test]
fn origin_needs_an_address() {
    let described = RxDescriptor::try_new(
        0,
        &session(SDP),
        millis(4.0),
        Some(millis(1.0)),
        Err("invalid IP address syntax".to_owned()),
    );
    match described {
        Some(Err(RxError::Other(text))) => {
            assert_eq!(text, "error parsing origin IP: invalid IP address syntax")
        }
        other => panic!("{other:?}"),
    }
}

#[test]
fn numbers_have_to_fit() {
    let ptime = Some(millis(1.0));
    let origin = || Ok(IpAddress::V4(1));
    let clock = session(&SDP.replace("963214424", "4294967296"));
    assert!(!clock.numbers_fit(ptime));
    assert!(RxDescriptor::try_new(0, &clock, millis(4.0), ptime, origin()).is_none());
    // without a packet time the clock is not read
    assert!(clock.numbers_fit(None));
    let rate = session(&SDP.replace("L24/48000/4", "L24/99999999999999999999/4"));
    assert!(!rate.numbers_fit(ptime));
    let largest = session(&SDP.replace("963214424", "4294967295"));
    let desc = RxDescriptor::try_new(0, &largest, millis(4.0), ptime, origin()).unwrap().unwrap();
    assert_eq!(desc.rtp_offset, u32::MAX);
}

#[test]
fn groups_of_a_match_are_read() {
    let group = |text: &str| Some(text.to_owned());
    let groups =
        vec![group("98 L24/48000/2"), group("98"), group("24"), group("48000"), group("2")];
    let RtpMap { payload_type, bit_depth, sampling_rate, channels } = read_rtpmap(&groups).unwrap();
    assert_eq!(payload_type, "98");
    assert_eq!((bit_depth, sampling_rate, channels), (24, 48000, 2));
    assert!(read_rtpmap(&vec![None, group("98")]).is_none());
    assert!(read_rtpmap(&vec![None, None, group("1"), group("1"), group("1")]).is_none());
    assert_eq!(read_clock_offset(&vec![None, group("12")]), Some(12));
    assert_eq!(read_clock_offset(&vec![None, group("4294967296")]), None);
    assert_eq!(read_clock_offset(&vec![None, group("x")]), None);
}

fn source_error(text: &str) -> String {
    match find_stream_source(&session(text)) {
        Err(RxError::InvalidSdp(text)) => text,
        other => panic!("{other:?}"),
    }
}

#[test]
fn streams_have_an_address() {
    let source = find_stream_source(&session(SDP)).unwrap();
    assert_eq!(source.address, "239.69.11.44/32");
    assert_eq!(source.ip, "239.69.11.44");
    assert_eq!(source.port, 5004);
    let global = SDP
        .replace("c=IN IP4 239.69.11.44/32\r\n", "")
        .replace("t=0 0", "c=IN IP4 239.1.1.1/1\r\nt=0 0");
    assert_eq!(find_stream_source(&session(&global)).unwrap().ip, "239.1.1.1");
}

#[test]
fn lower_bits_of_a_number_are_the_port() {
    let mut sd = session(SDP);
    let mut port = |number: isize| {
        sd.media[0].port = number;
        find_stream_source(&sd).unwrap().port
    };
    assert_eq!(port(65535), 65535);
    assert_eq!(port(65536), 0);
    assert_eq!(port(-1), 65535);
}

#[test]
fn streams_without_a_usable_address_are_refused() {
    let media = SDP.find("m=").unwrap();
    let twice = format!("{SDP}{}", &SDP[media..]);
    assert_eq!(source_error(&twice), "redundant streams aren't supported yet");
    assert_eq!(source_error(&SDP[..media]), "media description is missing");
    assert_eq!(
        source_error(&SDP.replace("m=audio", "m=video")),
        "unsupported media type: video"
    );
    assert_eq!(
        source_error(&SDP.replace("RTP/AVP", "RTP/SAVP")),
        "unsupported media protocols: [\"RTP\", \"SAVP\"]; only RTP/AVP is supported"
    );
    let connection = "c=IN IP4 239.69.11.44/32\r\n";
    assert_eq!(source_error(&SDP.replace(connection, "")), "connection data is missing");
    assert_eq!(
        source_error(&SDP.replace(connection, "c=IN IP4\r\n")),
        "connection-address is missing"
    );
    assert_eq!(
        source_error(&SDP.replace("44/32", "44")),
        "invalid ip address: 239.69.11.44"
    );
    let mut sd = session(SDP);
    sd.media[0].connection.as_mut().unwrap().network_type = "ATM".to_owned();
    match find_stream_source(&sd) {
        Err(RxError::InvalidSdp(text)) => assert_eq!(text, "unsupported nettype: ATM"),
        other => panic!("{other:?}"),
    }
    sd.media[0].connection.as_mut().unwrap().address_type = "IP5".to_owned();
    match find_stream_source(&sd) {
        Err(RxError::InvalidSdp(text)) => assert_eq!(text, "unsupported addrtype: IP5"),
        other => panic!("{other:?}"),
    }
}

#[test]
fn groups_are_joined_and_others_are_not() {
    let plan = plan_ipv4_rx_socket(0xef450b2c, 0x0a000003, 5004);
    assert_eq!(plan.join, Some(GroupJoin::V4(0xef450b2c, 0x0a000003)));
    assert_eq!(plan.bind, SocketAddress { ip: IpAddress::V4(0xef450b2c), port: 5004 });
    let plan = plan_ipv4_rx_socket(0x0a000009, 0x0a000003, 5004);
    assert_eq!(plan.join, None);
    assert_eq!(plan.bind, SocketAddress { ip: IpAddress::V4(0x0a000003), port: 5004 });
    let plan = plan_ipv6_rx_socket(0xff02 << 112, 5, 5004);
    assert_eq!(plan.join, Some(GroupJoin::V6(0xff02 << 112, 0)));
    assert_eq!(plan.bind, SocketAddress { ip: IpAddress::V6(0xff02 << 112), port: 5004 });
    let plan = plan_ipv6_rx_socket(9, 5, 5004);
    assert_eq!(plan.join, None);
    assert_eq!(plan.bind, SocketAddress { ip: IpAddress::V6(5), port: 5004 });
}

#[test]
fn sockets_are_of_one_kind() {
    let source = find_stream_source(&session(SDP)).unwrap();
    let v4 = IpAddress::V4(0xef450b2c);
    let v6 = IpAddress::V6(0xff02 << 112);
    assert_eq!(
        plan_socket(&source, Some(v4), IpAddress::V4(1)).unwrap(),
        plan_ipv4_rx_socket(0xef450b2c, 1, 5004)
    );
    assert_eq!(
        plan_socket(&source, Some(v6), IpAddress::V6(1)).unwrap(),
        plan_ipv6_rx_socket(0xff02 << 112, 1, 5004)
    );
    match plan_socket(&source, Some(v4), IpAddress::V6(1)) {
        Err(RxError::Other(text)) => {
            assert_eq!(text, "Cannot receive IPv4 stream when bound to local IPv6 address")
        }
        other => panic!("{other:?}"),
    }
    match plan_socket(&source, Some(v6), IpAddress::V4(1)) {
        Err(RxError::Other(text)) => {
            assert_eq!(text, "Cannot receive IPv6 stream when bound to local IPv4 address")
        }
        other => panic!("{other:?}"),
    }
    match plan_socket(&source, None, IpAddress::V4(1)) {
        Err(RxError::InvalidSdp(text)) => {
            assert_eq!(text, "invalid ip address: 239.69.11.44/32")
        }
        other => panic!("{other:?}"),
    }
}
