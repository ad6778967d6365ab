use aes67_vsc::duration::Millis;
use aes67_vsc::host::{
    configuration_entries, get_network_iface, host_interface, interface_list, namespace_key, stays,
    unresponsive_clients, NetworkInterface, StartError, TimeServer, WriteOutcome,
};
use aes67_vsc::matrix::InputMatrix;
use aes67_vsc::network::{IpAddress, SocketAddress};
use aes67_vsc::ptp::{
    current_offset, ethernet_input, event_input, instance_settings, pending_timestamp,
    port_settings, port_step, report_stats, EventInput, InstanceStats, MessageTarget, PortRequest,
    PortStep, PortTask, PortTimer, TaskAction, TaskEvent, TaskState, TimerState, Transport,
};
use aes67_vsc::receive_loop::RxConfig;
use aes67_vsc::transmitters::TxDescriptor;
use aes67_vsc::web::{
    listen_address, receiver_deleted, receiving_stream, transmitter_created, web_address_text,
    web_config, web_link_at,
};

fn interface(name: &str, ips: Vec<IpAddress>, mac: Option<[u8; 6]>) -> NetworkInterface {
    NetworkInterface { name: name.to_owned(), up: true, running: true, loopback: false, ips, mac }
}

fn interfaces() -> Vec<NetworkInterface> {
    let local = IpAddress::V4(0x7f000001);
    let address = IpAddress::V4(0xc0a80002);
    let mac = Some([1, 2, 3, 4, 5, 6]);
    vec![
        NetworkInterface { loopback: true, ..interface("lo", vec![local], mac) },
        interface("bare", vec![address], None),
        interface("local", vec![local, IpAddress::V6(1)], mac),
        interface("eth0", vec![local, address], mac),
        NetworkInterface { running: false, ..interface("eth1", vec![address], mac) },
        interface("eth2", vec![], mac),
    ]
}

#[test]
fn usable_interfaces_are_listed() {
    assert_eq!(
        interface_list(&interfaces()),
        "No network interface specified. Available network interfaces:\n\tlocal\n\teth0\n"
    );
    assert_eq!(get_network_iface(&interfaces(), None), Some(2));
    assert_eq!(get_network_iface(&interfaces(), Some("eth1")), Some(4));
    assert_eq!(get_network_iface(&interfaces(), Some("eth9")), None);
}

#[test]
fn host_needs_an_interface_with_addresses() {
    let host = host_interface(&interfaces(), Some("eth0")).unwrap();
    assert_eq!(host.index, 3);
    assert_eq!(host.ip, IpAddress::V4(0xc0a80002));
    assert_eq!(host.mac, [1, 2, 3, 4, 5, 6]);
    let error = |name: Option<&str>| host_interface(&interfaces(), name).unwrap_err();
    assert_eq!(error(None), StartError::NotSpecified);
    assert_eq!(error(Some("x")).text(), "network interface not found");
    assert_eq!(error(Some("local")).text(), "network interface has no IP");
    assert_eq!(error(Some("bare")).text(), "network interface has no MAC address");
    assert_eq!(StartError::NotSpecified.text(), "network interface not specified");
}

#[test]
fn configuration_has_keys() {
    assert_eq!(namespace_key("host"), "aes67-vsc/host");
    let entries: Vec<(String, String)> =
        configuration_entries("ns", Millis { bits: 1 }, 2, 3, "10.0.0.1".to_owned(), 9090)
            .into_iter()
            .map(|(key, value)| (key, format!("{value:?}")))
            .collect();
    let pair = |key: &str, value: &str| (key.to_owned(), value.to_owned());
    assert_eq!(
        entries,
        vec![
            pair("ns/config/audio/linkOffsetMs", "Duration(Millis { bits: 1 })"),
            pair("ns/config/io/inputs", "Count(2)"),
            pair("ns/config/io/outputs", "Count(3)"),
            pair("ns/config/network/ip", "Text(\"10.0.0.1\")"),
            pair("ns/config/network/port", "Level(9090)"),
        ]
    );
}

#[test]
fn each_tenth_offset_is_published() {
    let mut server = TimeServer::new();
    let published: Vec<usize> = (1..=30).filter(|_| server.tick()).collect();
    assert_eq!(published, vec![10, 20, 30]);
}

#[test]
fn unresponsive_clients_leave() {
    let client = |port: u16| SocketAddress { ip: IpAddress::V4(1), port };
    let unresponsive = vec![client(2), client(4)];
    assert!(stays(client(1), &unresponsive));
    assert!(!stays(client(4), &unresponsive));
}

#[test]
fn offset_is_the_difference_of_the_clocks() {
    assert_eq!(current_offset(37, 5, 0, 0), 37_000_000_005);
    assert_eq!(current_offset(10, 1, 10, 900_000_000), -899_999_999);
    assert_eq!(current_offset(9, 999_999_999, 10, 0), -1);
}

#[test]
fn timer_fires_once() {
    let mut timer = TimerState::new();
    assert!(!timer.poll(true));
    timer.reset();
    assert!(!timer.poll(false));
    assert!(timer.poll(true));
    assert!(!timer.poll(true));
}

#[test]
fn requests_of_a_port_are_carried_out() {
    let step = |request: PortRequest| port_step(request);
    assert_eq!(
        step(PortRequest::SendEvent { link_local: true }),
        PortStep::SendTimed(MessageTarget::PdelayEvent)
    );
    assert_eq!(
        step(PortRequest::SendEvent { link_local: false }),
        PortStep::SendTimed(MessageTarget::PrimaryEvent)
    );
    assert_eq!(
        step(PortRequest::SendGeneral { link_local: true }),
        PortStep::Send(MessageTarget::PdelayGeneral)
    );
    assert_eq!(
        step(PortRequest::SendGeneral { link_local: false }),
        PortStep::Send(MessageTarget::PrimaryGeneral)
    );
    assert_eq!(step(PortRequest::ResetAnnounceTimer), PortStep::Reset(PortTimer::Announce));
    assert_eq!(step(PortRequest::ResetSyncTimer), PortStep::Reset(PortTimer::Sync));
    assert_eq!(
        step(PortRequest::ResetDelayRequestTimer),
        PortStep::Reset(PortTimer::DelayRequest)
    );
    assert_eq!(
        step(PortRequest::ResetAnnounceReceiptTimer),
        PortStep::Reset(PortTimer::AnnounceTimeout)
    );
    assert_eq!(
        step(PortRequest::ResetFilterUpdateTimer),
        PortStep::Reset(PortTimer::FilterUpdate)
    );
    assert_eq!(step(PortRequest::ForwardTlv), PortStep::Forward);
    assert_eq!(pending_timestamp(Some(1), Some(2)), Some(2));
    assert_eq!(pending_timestamp(Some(1), None), Some(1));
    assert_eq!(pending_timestamp::<u8>(None, None), None);
}

#[test]
fn messages_of_other_versions_are_left_out() {
    assert_eq!(event_input(&[0, 0x12, 5], true), EventInput::Event);
    assert_eq!(event_input(&[0, 0x02], false), EventInput::MissingTimestamp);
    assert_eq!(event_input(&[0, 0x01], true), EventInput::Incompatible);
    assert_eq!(event_input(&[2], true), EventInput::Incompatible);
    assert_eq!(ethernet_input(true), EventInput::Event);
    assert_eq!(ethernet_input(false), EventInput::General);
}

#[test]
fn clock_has_settings() {
    let settings = instance_settings([10, 11, 12, 13, 14, 15]);
    assert_eq!(settings.clock_identity, [10, 11, 12, 13, 14, 15, 0, 0]);
    assert_eq!((settings.priority_1, settings.priority_2), (255, 255));
    assert!(settings.path_trace && !settings.slave_only);
    let port = port_settings();
    assert_eq!(port.announce_interval, 1);
    assert_eq!(port.announce_receipt_timeout, 3);
}

#[test]
fn state_of_the_clock_is_reported() {
    let stats = InstanceStats {
        offset_from_master: 1,
        steps_removed: 2,
        clock_identity: 3,
        clock_quality: 4,
        domain_number: 5,
        number_ports: 6,
        priority_1: 7,
        priority_2: 8,
        sdo_id: 9,
        slave_only: 10,
        grandmaster_clock_quality: 11,
        grandmaster_identity: 12,
        grandmaster_priority_1: 13,
        grandmaster_priority_2: 14,
        parent_port_identity: 15,
        path_trace_enabled: 16,
        path_trace_list: 17,
        current_utc_offset: 18,
        frequency_traceable: 19,
        is_ptp: 20,
        leap_indicator: 21,
        time_traceable: 22,
    };
    let reports = report_stats("r", stats);
    assert_eq!(reports.len(), 22);
    let values: Vec<i32> = reports.iter().map(|report| report.value).collect();
    assert_eq!(values, (1..=22).collect::<Vec<i32>>());
    let published: Vec<i32> =
        reports.iter().filter(|report| !report.stored).map(|report| report.value).collect();
    assert_eq!(published, vec![1, 2, 18]);
    assert_eq!(reports[0].key, "r/status/current/offsetFromMaster");
    assert_eq!(reports[10].key, "r/status/ptp/parent/grandmaster/clock/quality");
    assert_eq!(reports[21].key, "r/status/ptp/time/properties/timeTraceable");
}

#[test]
fn requests_are_answered() {
    let reply = transmitter_created(Ok("17 3".to_owned()));
    assert_eq!((reply.status, reply.result.as_deref(), reply.error), (201, Some("17 3"), None));
    let reply = transmitter_created(Err("no".to_owned()));
    assert_eq!((reply.status, reply.result, reply.error.as_deref()), (400, None, Some("no")));
    let reply = receiving_stream(Ok(()));
    assert_eq!((reply.status, reply.result.as_deref()), (201, Some("OK")));
    assert_eq!(receiving_stream(Err("no".to_owned())).status, 400);
    let reply = receiver_deleted(Ok(()));
    assert_eq!((reply.status, reply.result.as_deref()), (200, Some("OK")));
    assert_eq!(receiver_deleted(Err("no".to_owned())).error.as_deref(), Some("no"));
}

#[test]
fn web_interface_has_addresses() {
    assert_eq!(
        web_link_at(IpAddress::V4(0xc0a8010a), 9090),
        Some(("http://192.168.1.10:9090".to_owned(), false))
    );
    assert_eq!(
        web_link_at(IpAddress::V4(0x7f000001), 80),
        Some(("http://127.0.0.1:80".to_owned(), true))
    );
    assert_eq!(web_link_at(IpAddress::V6(1), 80), None);
    assert_eq!(web_address_text("::1", 80), "http://::1:80");
    assert_eq!(listen_address(9090), "0.0.0.0:9090");
    let config = web_config("store".to_owned(), Some("token".to_owned()));
    assert_eq!(config.backend_scheme, "ws");
    assert_eq!(config.backend_host, "store");
    assert_eq!(config.backend_port, Some(80));
    assert_eq!(config.backend_path, "/ws");
    assert_eq!(config.backend_auth_token.as_deref(), Some("token"));
}

#[test]
fn descriptions_hold_what_they_are_given() {
    let desc = TxDescriptor::new(3, 8);
    assert_eq!((desc.id, desc.channels), (3, 8));
    assert_eq!(RxConfig::LinkOffset(4), RxConfig::LinkOffset(4));
    let matrix = InputMatrix::default(4);
    assert_eq!(format!("{matrix:?}"), "InputMatrix { channels: 4, mapping: [] }");
}

#[test]
fn clients_that_were_not_told_the_time_are_listed() {
    let client = |port: u16| SocketAddress { ip: IpAddress::V4(1), port };
    let outcomes = vec![
        (client(1), WriteOutcome::Written),
        (client(2), WriteOutcome::Failed),
        (client(3), WriteOutcome::TimedOut),
        (client(4), WriteOutcome::Written),
    ];
    let unresponsive = unresponsive_clients(&outcomes);
    assert_eq!(unresponsive, vec![client(2), client(3)]);
    assert!(stays(client(1), &unresponsive));
    assert!(!stays(client(3), &unresponsive));
}

#[test]
fn port_is_given_away_when_nothing_is_left_to_do() {
    let mut task = PortTask::new(Transport::Udp);
    assert_eq!(task.next(TaskEvent::BmcaRequested), None);
    assert_eq!(
        task.next(TaskEvent::PortReceived { master: true }),
        Some(TaskAction::EndBmca { drop_forwarded: false })
    );
    assert_eq!(task.next(TaskEvent::BmcaRequested), None);
    assert_eq!(
        task.next(TaskEvent::ActionsDone { timestamp: true }),
        Some(TaskAction::HandleSendTimestamp)
    );
    assert_eq!(
        task.next(TaskEvent::ActionsDone { timestamp: false }),
        Some(TaskAction::Listen)
    );
    assert_eq!(
        task.next(TaskEvent::MessageReceived(EventInput::Event)),
        Some(TaskAction::HandleEvent)
    );
    assert_eq!(task.state, TaskState::Acting);
    task.next(TaskEvent::ActionsDone { timestamp: false });
    assert_eq!(
        task.next(TaskEvent::MessageReceived(EventInput::MissingTimestamp)),
        Some(TaskAction::Skip)
    );
    task.next(TaskEvent::ActionsDone { timestamp: false });
    assert_eq!(
        task.next(TaskEvent::TimerFired(PortTimer::Sync)),
        Some(TaskAction::HandleTimer(PortTimer::Sync))
    );
    task.next(TaskEvent::ActionsDone { timestamp: false });
    assert_eq!(
        task.next(TaskEvent::MessageReceived(EventInput::General)),
        Some(TaskAction::HandleGeneral)
    );
    task.next(TaskEvent::ActionsDone { timestamp: false });
    assert_eq!(task.next(TaskEvent::BmcaRequested), Some(TaskAction::StartBmca));
    assert_eq!(task.state, TaskState::AwaitingPort);
}

#[test]
fn ethernet_port_that_is_no_master_drops_what_was_to_be_forwarded() {
    let mut task = PortTask::new(Transport::Ethernet);
    assert_eq!(
        task.next(TaskEvent::PortReceived { master: false }),
        Some(TaskAction::EndBmca { drop_forwarded: true })
    );
    let mut task = PortTask::new(Transport::Ethernet);
    assert_eq!(
        task.next(TaskEvent::PortReceived { master: true }),
        Some(TaskAction::EndBmca { drop_forwarded: false })
    );
    let mut task = PortTask::new(Transport::Udp);
    assert_eq!(
        task.next(TaskEvent::PortReceived { master: false }),
        Some(TaskAction::EndBmca { drop_forwarded: false })
    );
}
