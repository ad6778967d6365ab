use aes67_vsc::descriptor::RxDescriptor;
use aes67_vsc::discovery::{
    discovery_action, discovery_pattern, removal_id, AnnouncedSessions, DiscoveryAction,
    KnownSessions, Session,
    SessionComp,
};
use aes67_vsc::duration::Millis;
use aes67_vsc::error::RxError;
use aes67_vsc::format::SampleFormat;
use aes67_vsc::matrix::{Channel, OutputMatrix};
use aes67_vsc::media_clock::MediaClockTimestamp;
use aes67_vsc::network::{IpAddress, SocketAddress};
use aes67_vsc::playout::OutputEvent;
use aes67_vsc::receivers::{Preparation, Receivers};
use aes67_vsc::session::SessionInfo;
use aes67_vsc::status::{rooted, to_action, Action, Output, Receiver, Status, StatusValue};

fn sdp(id: u64, channels: usize) -> String {
    format!(
        "v=0\r\no=- {id} 1 IN IP4 10.0.1.2\r\ns=flow\r\nt=0 0\r\nm=audio 5004 RTP/AVP 98\r\n\
         c=IN IP4 239.69.11.44/32\r\na=rtpmap:98 L24/48000/{channels}\r\na=ptime:1\r\n\
         a=mediaclk:direct=0\r\n"
    )
}

fn prepare(receivers: &mut Receivers, id: u64, channels: usize) -> Preparation {
    let sd = SessionInfo::parse(&sdp(id, channels)).unwrap();
    let millis = Millis { bits: 0 };
    receivers.prepare(&sd, millis, Some(millis), Ok(IpAddress::V4(1))).unwrap()
}

fn create(receivers: &mut Receivers, id: u64, channels: usize) -> Vec<usize> {
    let desc = prepare(receivers, id, channels).receiver.unwrap();
    assert!(receivers.can_activate(&desc));
    receivers.activate(desc)
}

#[test]
fn receivers_get_numbers_and_ports() {
    let mut receivers = Receivers::new(4);
    assert_eq!(create(&mut receivers, 10, 2), vec![0, 1]);
    assert_eq!(create(&mut receivers, 11, 1), vec![2]);
    assert_eq!(
        receivers.output_ports(),
        &vec![Some((0, 0)), Some((1, 0)), Some((0, 1)), None]
    );
    assert_eq!(
        receivers.output_matrix().get_outputs(&Channel::new(0, 1)),
        Some(&vec![1])
    );
    assert_eq!(format!("{:?}", receivers.channel_consumption()), "UsedOutputChannels(3, 4)");
}

#[test]
fn deleting_undoes_creating() {
    let mut receivers = Receivers::new(4);
    create(&mut receivers, 10, 2);
    create(&mut receivers, 11, 1);
    assert_eq!(receivers.delete_receiver(0).unwrap().session_id, 10);
    assert_eq!(receivers.output_ports(), &vec![None, None, Some((0, 1)), None]);
    assert_eq!(format!("{:?}", receivers.channel_consumption()), "UsedOutputChannels(1, 4)");
    assert_eq!(create(&mut receivers, 12, 3), vec![0, 1, 3]);
    assert!(matches!(receivers.delete_receiver(3), Err(RxError::InvalidReceiverId(3))));
    assert!(matches!(receivers.delete_receiver(9), Err(RxError::InvalidReceiverId(9))));
}

#[test]
fn session_that_is_created_again_keeps_its_number() {
    let mut receivers = Receivers::new(4);
    create(&mut receivers, 10, 1);
    create(&mut receivers, 11, 1);
    let prepared = prepare(&mut receivers, 10, 2);
    let desc = prepared.receiver.unwrap();
    assert_eq!(desc.id, 0);
    assert_eq!(prepared.replaced, Some(0));
    // the channels of the new receiver are not reserved yet when the old one is deleted
    assert_eq!(prepared.report.len(), 2);
    assert!(matches!(&prepared.report[0], Status::Receiver(Receiver::Deleted(d)) if d.channels == 1));
    assert!(matches!(&prepared.report[1], Status::UsedOutputChannels(1, 4)));
    assert_eq!(receivers.activate(desc), vec![0, 2]);
}

#[test]
fn there_are_no_more_channels_than_there_are() {
    let mut receivers = Receivers::new(2);
    assert!(matches!(
        prepare(&mut receivers, 10, 3).receiver,
        Err(RxError::MaxChannelsExceeded(2))
    ));
    create(&mut receivers, 10, 1);
    create(&mut receivers, 11, 1);
    assert!(matches!(
        prepare(&mut receivers, 12, 1).receiver,
        Err(RxError::MaxChannelsExceeded(2))
    ));
}

#[test]
fn channels_stay_reserved_where_a_receiver_does_not_begin() {
    let mut receivers = Receivers::new(2);
    assert!(prepare(&mut receivers, 10, 2).receiver.is_ok());
    assert_eq!(format!("{:?}", receivers.channel_consumption()), "UsedOutputChannels(2, 2)");
    assert!(matches!(prepare(&mut receivers, 10, 1).receiver, Err(RxError::InvalidReceiverId(0))));
    assert!(matches!(
        prepare(&mut receivers, 11, 1).receiver,
        Err(RxError::MaxChannelsExceeded(2))
    ));
}

#[test]
fn receiver_without_channels_takes_a_port() {
    let mut receivers = Receivers::new(1);
    assert_eq!(create(&mut receivers, 10, 0), vec![0]);
    let other = RxDescriptor { id: 0, ..prepare_only(1) };
    assert!(!receivers.can_activate(&other));
}

fn prepare_only(channels: usize) -> RxDescriptor {
    let mut receivers = Receivers::new(8);
    prepare(&mut receivers, 99, channels).receiver.unwrap()
}

#[test]
fn created_and_deleted_receivers_are_published() {
    let mut receivers = Receivers::new(4);
    let text = sdp(10, 1);
    let desc = prepare(&mut receivers, 10, 1).receiver.unwrap();
    receivers.activate(desc.clone());
    let report = receivers.created_statuses(desc.clone(), &text);
    assert_eq!(report.len(), 2);
    match &report[0] {
        Status::Receiver(Receiver::Created(created, Some(sdp))) => {
            assert_eq!(created.id, desc.id);
            assert_eq!(sdp, &text);
        }
        other => panic!("{other:?}"),
    }
    // line ends are written anew
    match &receivers.created_statuses(desc.clone(), &text.replace("\r\n", "\n"))[0] {
        Status::Receiver(Receiver::Created(_, Some(sdp))) => assert_eq!(sdp, &text),
        other => panic!("{other:?}"),
    }
    let report = receivers.deleted_statuses(desc);
    assert!(matches!(&report[0], Status::Receiver(Receiver::Deleted(desc)) if desc.id == 0));
    assert_eq!(format!("{:?}", report[1]), "UsedOutputChannels(1, 4)");
}

#[test]
fn underruns_are_published_for_ports_in_use() {
    let mut receivers = Receivers::new(2);
    create(&mut receivers, 10, 1);
    let at = MediaClockTimestamp::new(77, 48000);
    let status = receivers.process_output_event(OutputEvent::BufferUnderrun(0), at).unwrap();
    match status {
        Status::Receiver(Receiver::BufferUnderrun(channel, when)) => {
            assert_eq!(channel, Channel::new(0, 0));
            assert_eq!(when, at);
        }
        other => panic!("{other:?}"),
    }
    assert!(receivers.process_output_event(OutputEvent::BufferUnderrun(1), at).is_none());
}

#[test]
fn matrix_routes_to_the_lowest_vacant_ports() {
    let desc = prepare_only(2);
    let mut matrix = OutputMatrix::default(3);
    assert_eq!(matrix.free_ports(), 3);
    assert_eq!(matrix.auto_route(4, 2, desc.clone()), Some(vec![0, 1]));
    assert_eq!(matrix.auto_route(5, 2, desc.clone()), None);
    assert_eq!(matrix.get_outputs(&Channel::new(4, 1)), Some(&vec![1]));
    assert_eq!(matrix.get_outputs(&Channel::new(5, 0)), None);
    assert_eq!(matrix.get_channel(0).unwrap().0, Channel::new(4, 0));
    assert!(matrix.get_channel(2).is_none());
    matrix.update_rev_mapping();
    assert_eq!(matrix.get_outputs(&Channel::new(4, 1)), Some(&vec![1]));
    assert_eq!(matrix.get_channel(1).unwrap().0, Channel::new(4, 1));
    assert_eq!(matrix.auto_unroute(4), vec![0, 1]);
    assert_eq!(matrix.free_ports(), 3);
    assert_eq!(matrix.get_outputs(&Channel::new(4, 1)), None);
}

fn stored(status: Status) -> Vec<(String, String)> {
    match to_action(status) {
        Action::Store(list) => list.into_iter().map(|(k, v)| (k, format!("{v:?}"))).collect(),
        other => panic!("{other:?}"),
    }
}

fn published(status: Status) -> Vec<(String, String)> {
    match to_action(status) {
        Action::Publish(list) => list.into_iter().map(|(k, v)| (k, format!("{v:?}"))).collect(),
        other => panic!("{other:?}"),
    }
}

fn pair(key: &str, value: &str) -> (String, String) {
    (key.to_owned(), value.to_owned())
}

#[test]
fn created_receiver_is_stored() {
    let desc = RxDescriptor { id: 3, ..prepare_only(2) };
    let status = Status::Receiver(Receiver::Created(desc.clone(), Some("sdp text".to_owned())));
    assert_eq!(
        stored(status),
        vec![
            pair("receivers/3/config/sampleFormat", "Format(Some(L24))"),
            pair("receivers/3/config/channels", "Count(2)"),
            pair("receivers/3/config/packetTimeMs", "Duration(Millis { bits: 0 })"),
            pair("receivers/3/config/sampleRate", "Count(48000)"),
            pair("receivers/3/config/session/id", "Number(99)"),
            pair("receivers/3/config/session/version", "Number(1)"),
            pair("receivers/3/config/session/name", "Text(\"flow\")"),
            pair("sessions/99/1/name", "Text(\"flow\")"),
            pair("sessions/99/1/receiver", "Count(3)"),
            pair("receivers/3/config/sdp", "Text(\"sdp text\")"),
        ]
    );
    assert_eq!(stored(Status::Receiver(Receiver::Created(desc.clone(), None))).len(), 9);
    match to_action(Status::Receiver(Receiver::Deleted(desc))) {
        Action::Delete(keys) => assert_eq!(keys, vec!["receivers/3/#", "sessions/99/#"]),
        other => panic!("{other:?}"),
    }
}

#[test]
fn changes_of_receivers_are_stored() {
    let receiver = |receiver: Receiver| stored(Status::Receiver(receiver));
    assert_eq!(
        receiver(Receiver::LinkOffset(1, 20)),
        vec![pair("receivers/1/linkOffsetMs", "Count(20)")]
    );
    let address = SocketAddress { ip: IpAddress::V4(1), port: 2 };
    assert_eq!(
        receiver(Receiver::MulticastAddress(1, address))[0].0,
        "receivers/1/multicastAddress"
    );
    assert_eq!(
        receiver(Receiver::PacketTime(1, 4)),
        vec![pair("receivers/1/packetTimeMs", "Count(4)")]
    );
    assert_eq!(
        receiver(Receiver::SessionIdAndVersion(1, 8, 9)),
        vec![
            pair("receivers/1/session/id", "Number(8)"),
            pair("receivers/1/session/version", "Number(9)")
        ]
    );
    assert_eq!(
        receiver(Receiver::SessionName(1, "n".to_owned())),
        vec![pair("receivers/1/session/name", "Text(\"n\")")]
    );
    assert_eq!(
        receiver(Receiver::Sdp(1, "s".to_owned())),
        vec![pair("receivers/1/sdp", "Text(\"s\")")]
    );
}

#[test]
fn events_of_receivers_are_published() {
    let receiver = |receiver: Receiver| published(Status::Receiver(receiver));
    let at = MediaClockTimestamp::new(5, 48000);
    assert_eq!(
        receiver(Receiver::Meter(1, 2, 300)),
        vec![pair("receivers/1/meter/2", "Level(300)")]
    );
    assert_eq!(
        receiver(Receiver::BufferUnderrun(Channel::new(1, 2), at)),
        vec![pair("receivers/1/buffer/underrun/2", "Timestamp(5)")]
    );
    assert_eq!(
        receiver(Receiver::BufferOverflow(Channel::new(1, 2), at)),
        vec![pair("receivers/1/buffer/overflow/2", "Timestamp(5)")]
    );
    assert_eq!(
        receiver(Receiver::BufferUsage(1, 2, 8, 25)),
        vec![
            pair("receivers/1/buffer/size", "Count(8)"),
            pair("receivers/1/buffer/used", "Count(2)"),
            pair("receivers/1/buffer/used/percent", "Count(25)")
        ]
    );
    assert_eq!(
        receiver(Receiver::DroppedPackets(1, 6)),
        vec![pair("receivers/1/packets/dropped", "Count(6)")]
    );
    assert_eq!(
        receiver(Receiver::OutOfOrderPackets(1, 6)),
        vec![pair("receivers/1/packets/outOfOrder", "Count(6)")]
    );
}

#[test]
fn outputs_and_resources_have_keys() {
    let at = MediaClockTimestamp::new(5, 48000);
    assert_eq!(
        published(Status::Output(Output::Meter(1, 2, 3))),
        vec![pair("receivers/1/meter/2", "Level(3)")]
    );
    assert_eq!(
        published(Status::Output(Output::BufferUnderrun(1, at))),
        vec![pair("outputs/1/buffer/underrun", "Timestamp(5)")]
    );
    assert_eq!(
        published(Status::Output(Output::BufferOverflow(1, at))),
        vec![pair("outputs/1/buffer/overflow", "Timestamp(5)")]
    );
    assert_eq!(
        stored(Status::UsedInputChannels(1, 2)),
        vec![
            pair("resources/inputChannels/used", "Count(1)"),
            pair("resources/inputChannels/max", "Count(2)")
        ]
    );
    assert_eq!(
        stored(Status::UsedOutputChannels(1, 2)),
        vec![
            pair("resources/outputChannels/used", "Count(1)"),
            pair("resources/outputChannels/max", "Count(2)")
        ]
    );
    assert_eq!(rooted("a/b", "c"), "a/b/c");
    assert!(matches!(StatusValue::Format(Some(SampleFormat::L16)), StatusValue::Format(_)));
}

#[test]
fn sessions_of_one_origin_replace_each_other() {
    let session = |ip: u32, id: u64, version: u64| Session { ip: IpAddress::V4(ip), id, version };
    assert_eq!(session(1, 2, 3).compare(&session(1, 2, 9)), SessionComp::Same);
    assert_eq!(session(1, 2, 3).compare(&session(1, 3, 3)), SessionComp::Unrelated);
    assert_eq!(session(1, 2, 3).compare(&session(2, 2, 3)), SessionComp::Unrelated);

    let mut known = KnownSessions::new();
    let announce = |known: &mut KnownSessions, key: &str, session: Session| {
        known.announced(key.to_owned(), Some(session))
    };
    assert!(announce(&mut known, "a", session(1, 2, 3)).is_empty());
    assert!(announce(&mut known, "b", session(1, 7, 3)).is_empty());
    assert_eq!(announce(&mut known, "c", session(1, 2, 4)), vec!["a"]);
    assert!(known.announced("d".to_owned(), None).is_empty());
    known.deleted("a");
    assert_eq!(announce(&mut known, "e", session(1, 2, 5)), vec!["c"]);
    assert_eq!(announce(&mut known, "b", session(1, 7, 4)), vec!["b"]);
}

#[test]
fn announcements_are_read() {
    let session = SessionInfo::parse(&sdp(5, 1));
    assert_eq!(
        Session::announced(&session, Some(IpAddress::V4(9))),
        Some(Session { ip: IpAddress::V4(9), id: 5, version: 1 })
    );
    assert_eq!(Session::announced(&session, None), None);
    assert_eq!(Session::announced(&Err("x".to_owned()), Some(IpAddress::V4(9))), None);
    let session = session.unwrap();
    assert_eq!(removal_id(&session), "5 1");
    assert_eq!(removal_id(&session), RxDescriptor::session_id_from_sdp(&session));
}

#[test]
fn sessions_are_announced_until_they_are_removed() {
    let one = SessionInfo::parse(&sdp(5, 1)).unwrap();
    let other = SessionInfo::parse(&sdp(6, 1)).unwrap();
    let mut announced = AnnouncedSessions::new();
    assert!(!announced.removed(&removal_id(&one)));
    announced.added(RxDescriptor::session_id_from_sdp(&one), true);
    announced.added(RxDescriptor::session_id_from_sdp(&one), true);
    announced.added(RxDescriptor::session_id_from_sdp(&other), true);
    assert!(announced.removed(&removal_id(&one)));
    assert!(!announced.removed(&removal_id(&one)));
    assert!(announced.removed(&removal_id(&other)));
    announced.added(RxDescriptor::session_id_from_sdp(&one), false);
    assert!(!announced.removed(&removal_id(&one)));
}

#[test]
fn discovered_sessions_have_keys() {
    match discovery_action("root", "10.0.0.1", 4711, false, "text".to_owned()) {
        DiscoveryAction::Store(key, sdp) => {
            assert_eq!(key, "root/discovery/sap/10.0.0.1/4711/sdp");
            assert_eq!(sdp, "text");
        }
        other => panic!("{other:?}"),
    }
    match discovery_action("root", "10.0.0.1", 4711, true, "text".to_owned()) {
        DiscoveryAction::Delete(key) => assert_eq!(key, "root/discovery/sap/10.0.0.1/4711/sdp"),
        other => panic!("{other:?}"),
    }
    assert_eq!(discovery_pattern("root"), "root/discovery/?/?/?/sdp");
}

#[test]
fn receivers_are_found_by_their_number() {
    let mut receivers = Receivers::new(2);
    create(&mut receivers, 10, 1);
    assert_eq!(receivers.receiver(0).unwrap().session_id, 10);
    assert!(receivers.receiver(1).is_none());
    assert!(receivers.receiver(2).is_none());
}

#[test]
fn numbers_in_a_session_are_read_once_it_has_a_number() {
    let millis = Millis { bits: 0 };
    let text = sdp(11, 1).replace("direct=0", "direct=4294967296");
    let sd = SessionInfo::parse(&text).unwrap();
    let mut receivers = Receivers::new(1);
    assert!(receivers.prepare(&sd, millis, Some(millis), Ok(IpAddress::V4(1))).is_none());
    create(&mut receivers, 10, 1);
    assert!(matches!(
        receivers.prepare(&sd, millis, Some(millis), Ok(IpAddress::V4(1))),
        Some(Preparation {
            receiver: Err(RxError::MaxChannelsExceeded(1)),
            replaced: None,
            ..
        })
    ));
}

#[test]
fn pattern_has_the_parts_of_the_keys() {
    let key = match discovery_action("root", "10.0.0.1", 7, true, "".to_owned()) {
        DiscoveryAction::Delete(key) => key,
        other => panic!("{other:?}"),
    };
    assert_eq!(key, "root/discovery/sap/10.0.0.1/7/sdp");
    let pattern = discovery_pattern("root");
    let parts = pattern.split('/').zip(key.split('/'));
    assert!(parts.into_iter().all(|(wanted, part)| wanted == "?" || wanted == part));
    assert_eq!(pattern.split('/').count(), key.split('/').count());
}

#[test]
fn announcements_have_keys_of_their_own() {
    let key = |source: &str, hash: u16| match discovery_action("r", source, hash, true, "".to_owned()) {
        DiscoveryAction::Delete(key) => key,
        other => panic!("{other:?}"),
    };
    assert_eq!(key("10.0.0.1", 12), "r/discovery/sap/10.0.0.1/12/sdp");
    assert_ne!(key("10.0.0.1", 12), key("10.0.0.11", 2));
    assert_ne!(key("10.0.0.1", 12), key("10.0.0.1", 2));
}
