//! The machine that the sound card runs on: its network interfaces, what is
//! stored of its configuration, and the clients of its time server.

use crate::duration::Millis;
use crate::network::{IpAddress, SocketAddress};
use crate::status::{StatusValue, StatusValueModel};
use crate::text::same_text;
use crate::topic::{below, under};
use vstd::prelude::*;

verus! {

/// The key under which everything is stored.
pub const ROOT_KEY: &'static str = "aes67-vsc";

/// A network interface.
#[derive(Debug)]
pub struct NetworkInterface {
    pub name: String,
    pub up: bool,
    pub running: bool,
    pub loopback: bool,
    pub ips: Vec<IpAddress>,
    pub mac: Option<[u8; 6]>,
}

/// The mathematical value of a `NetworkInterface`.
pub struct InterfaceModel {
    pub name: Seq<char>,
    pub up: bool,
    pub running: bool,
    pub loopback: bool,
    pub ips: Seq<IpAddress>,
    pub mac: Option<[u8; 6]>,
}

impl View for NetworkInterface {
    type V = InterfaceModel;

    open spec fn view(&self) -> InterfaceModel {
        InterfaceModel {
            name: self.name@,
            up: self.up,
            running: self.running,
            loopback: self.loopback,
            ips: self.ips@,
            mac: self.mac,
        }
    }
}

impl InterfaceModel {
    /// Whether streams can be received at an interface.
    pub open spec fn usable(self) -> bool {
        self.up && self.running && !self.loopback && self.ips.len() > 0 && self.mac is Some
    }
}

/// The values of a list of interfaces.
pub open spec fn interfaces_in(list: Seq<NetworkInterface>) -> Seq<InterfaceModel> {
    list.map_values(|interface: NetworkInterface| interface@)
}

impl NetworkInterface {
    /// Whether streams can be received at the interface.
    pub fn is_usable(&self) -> (usable: bool)
        ensures
            usable == self@.usable(),
    {
        self.up && self.running && !self.loopback && self.ips.len() > 0 && self.mac.is_some()
    }

    /// The first address that does not denote the machine itself.
    pub fn first_address(&self) -> (ip: Option<IpAddress>)
        ensures
            match ip {
                Some(ip) => exists|i: int|
                    0 <= i < self@.ips.len() && #[trigger] self@.ips[i] == ip && !ip.loopback()
                        && (forall|k: int| 0 <= k < i ==> (#[trigger] self@.ips[k]).loopback()),
                None => forall|k: int|
                    0 <= k < self@.ips.len() ==> (#[trigger] self@.ips[k]).loopback(),
            },
    {
        let len = self.ips.len();
        let mut i: usize = 0;
        while i < len
            invariant
                i <= len,
                len == self.ips@.len(),
                forall|k: int| 0 <= k < i ==> (#[trigger] self.ips@[k]).loopback(),
            decreases len - i,
        {
            if !self.ips[i].is_loopback() {
                let ip = self.ips[i];
                assert(self@.ips[i as int] == ip);
                return Some(ip);
            }
            i = i + 1;
        }
        None
    }
}

/// Whether an interface is meant: the one with the name, or one that is usable
/// where there is no name.
pub open spec fn meant(interface: InterfaceModel, name: Option<&str>) -> bool {
    match name {
        Some(name) => interface.name == name@,
        None => interface.usable(),
    }
}

/// Finds the first interface that is meant.
pub fn get_network_iface(interfaces: &Vec<NetworkInterface>, name: Option<&str>) -> (index: Option<
    usize,
>)
    ensures
        match index {
            Some(index) => {
                &&& index < interfaces@.len()
                &&& meant(interfaces@[index as int]@, name)
                &&& forall|k: int| 0 <= k < index ==> !meant((#[trigger] interfaces@[k])@, name)
            },
            None => forall|k: int|
                0 <= k < interfaces@.len() ==> !meant((#[trigger] interfaces@[k])@, name),
        },
{
    let len = interfaces.len();
    let mut i: usize = 0;
    while i < len
        invariant
            i <= len,
            len == interfaces@.len(),
            forall|k: int| 0 <= k < i ==> !meant((#[trigger] interfaces@[k])@, name),
        decreases len - i,
    {
        let found = match name {
            Some(name) => same_text(interfaces[i].name.as_str(), name),
            None => interfaces[i].is_usable(),
        };
        if found {
            return Some(i);
        }
        i = i + 1;
    }
    None
}

/// The lines that list the usable interfaces.
pub open spec fn listed(interfaces: Seq<InterfaceModel>) -> Seq<char>
    decreases interfaces.len(),
{
    if interfaces.len() == 0 {
        Seq::empty()
    } else {
        let earlier = listed(interfaces.drop_last());
        let interface = interfaces.last();
        if interface.usable() {
            earlier + ("\t"@ + interface.name + "\n"@)
        } else {
            earlier
        }
    }
}

/// What is printed where no interface was given: those that are usable.
pub fn interface_list(interfaces: &Vec<NetworkInterface>) -> (text: String)
    ensures
        text@ == "No network interface specified. Available network interfaces:\n"@ + listed(
            interfaces_in(interfaces@),
        ),
{
    let mut text = "No network interface specified. Available network interfaces:\n".to_owned();
    let ghost title = text@;
    let ghost all = interfaces_in(interfaces@);
    let len = interfaces.len();
    let mut i: usize = 0;
    proof {
        assert(title + listed(all.take(0)) =~= title);
    }
    while i < len
        invariant
            i <= len,
            len == interfaces@.len(),
            all == interfaces_in(interfaces@),
            text@ == title + listed(all.take(i as int)),
        decreases len - i,
    {
        proof {
            assert(all.take(i as int + 1).drop_last() =~= all.take(i as int));
            assert(all[i as int] == interfaces@[i as int]@);
        }
        if interfaces[i].is_usable() {
            let ghost before = text@;
            text.append("\t");
            text.append(interfaces[i].name.as_str());
            text.append("\n");
            proof {
                let line = "\t"@ + interfaces@[i as int].name@ + "\n"@;
                assert(text@ =~= before + line);
                assert(title + (listed(all.take(i as int)) + line) =~= before + line);
            }
        }
        i = i + 1;
    }
    assert(all.take(len as int) =~= all);
    text
}

/// Why the sound card cannot be started.
#[derive(Debug, Clone, Copy, PartialEq, Eq, Structural)]
pub enum StartError {
    NotSpecified,
    NotFound,
    NoIp,
    NoMac,
}

impl StartError {
    /// The message of the error.
    pub open spec fn message(self) -> Seq<char> {
        match self {
            StartError::NotSpecified => "network interface not specified"@,
            StartError::NotFound => "network interface not found"@,
            StartError::NoIp => "network interface has no IP"@,
            StartError::NoMac => "network interface has no MAC address"@,
        }
    }

    /// The message of the error.
    pub fn text(&self) -> (text: String)
        ensures
            text@ == self.message(),
    {
        match self {
            StartError::NotSpecified => "network interface not specified".to_owned(),
            StartError::NotFound => "network interface not found".to_owned(),
            StartError::NoIp => "network interface has no IP".to_owned(),
            StartError::NoMac => "network interface has no MAC address".to_owned(),
        }
    }
}

/// Where the sound card is started: the index of its interface, its address
/// there and its MAC address.
#[derive(Debug, Clone, Copy)]
pub struct HostInterface {
    pub index: usize,
    pub ip: IpAddress,
    pub mac: [u8; 6],
}

/// Whether the first address of an interface that does not denote the machine
/// itself is this one.
pub open spec fn is_first_address(interface: InterfaceModel, ip: IpAddress) -> bool {
    exists|i: int|
        0 <= i < interface.ips.len() && #[trigger] interface.ips[i] == ip && !ip.loopback() && (
        forall|k: int| 0 <= k < i ==> (#[trigger] interface.ips[k]).loopback())
}

/// Whether an interface has an address that does not denote the machine itself.
pub open spec fn has_address(interface: InterfaceModel) -> bool {
    exists|i: int| 0 <= i < interface.ips.len() && !(#[trigger] interface.ips[i]).loopback()
}

/// The first interface with a name.
pub open spec fn is_first_named(interfaces: Seq<NetworkInterface>, name: Seq<char>, i: int) -> bool {
    &&& 0 <= i < interfaces.len()
    &&& interfaces[i].name@ == name
    &&& forall|k: int| 0 <= k < i ==> (#[trigger] interfaces[k]).name@ != name
}

/// Finds the interface with a name, and what has to be known of it.
pub fn host_interface(interfaces: &Vec<NetworkInterface>, name: Option<&str>) -> (host: Result<
    HostInterface,
    StartError,
>)
    ensures
        name is None ==> host == Err::<HostInterface, StartError>(StartError::NotSpecified),
        name matches Some(name) ==> match host {
            Ok(host) => {
                &&& is_first_named(interfaces@, name@, host.index as int)
                &&& is_first_address(interfaces@[host.index as int]@, host.ip)
                &&& interfaces@[host.index as int].mac == Some(host.mac)
            },
            Err(StartError::NotSpecified) => false,
            Err(StartError::NotFound) => forall|k: int|
                0 <= k < interfaces@.len() ==> (#[trigger] interfaces@[k]).name@ != name@,
            Err(StartError::NoIp) => exists|i: int|
                #[trigger] is_first_named(interfaces@, name@, i) && !has_address(interfaces@[i]@),
            Err(StartError::NoMac) => exists|i: int|
                #[trigger] is_first_named(interfaces@, name@, i) && has_address(interfaces@[i]@)
                    && interfaces@[i].mac is None,
        },
{
    let name = match name {
        Some(name) => name,
        None => {
            return Err(StartError::NotSpecified);
        },
    };
    let index = match get_network_iface(interfaces, Some(name)) {
        Some(index) => index,
        None => {
            assert forall|k: int| 0 <= k < interfaces@.len() implies (
            #[trigger] interfaces@[k]).name@ != name@ by {
                assert(!meant(interfaces@[k]@, Some(name)));
            }
            return Err(StartError::NotFound);
        },
    };
    proof {
        assert forall|k: int| 0 <= k < index implies (#[trigger] interfaces@[k]).name@
            != name@ by {
            assert(!meant(interfaces@[k]@, Some(name)));
        }
        assert(is_first_named(interfaces@, name@, index as int));
    }
    let ip = match interfaces[index].first_address() {
        Some(ip) => ip,
        None => {
            return Err(StartError::NoIp);
        },
    };
    assert(has_address(interfaces@[index as int]@));
    match interfaces[index].mac {
        Some(mac) => Ok(HostInterface { index, ip, mac }),
        None => Err(StartError::NoMac),
    }
}

/// The key under which the state of a host is stored.
pub fn namespace_key(hostname: &str) -> (key: String)
    ensures
        key@ == under(ROOT_KEY@, hostname@),
{
    below(ROOT_KEY.to_owned(), hostname)
}

/// What is stored of the configuration of the sound card.
pub open spec fn configuration(
    namespace: Seq<char>,
    link_offset: Millis,
    inputs: usize,
    outputs: usize,
    ip: Seq<char>,
    port: u16,
) -> Seq<(Seq<char>, StatusValueModel)> {
    seq![
        (under(namespace, "config/audio/linkOffsetMs"@), StatusValueModel::Duration(link_offset)),
        (under(namespace, "config/io/inputs"@), StatusValueModel::Count(inputs)),
        (under(namespace, "config/io/outputs"@), StatusValueModel::Count(outputs)),
        (under(namespace, "config/network/ip"@), StatusValueModel::Text(ip)),
        (under(namespace, "config/network/port"@), StatusValueModel::Level(port)),
    ]
}

/// Lists what is stored of the configuration of the sound card.
pub fn configuration_entries(
    namespace: &str,
    link_offset: Millis,
    inputs: usize,
    outputs: usize,
    ip: String,
    port: u16,
) -> (entries: Vec<(String, StatusValue)>)
    ensures
        crate::status::entries(entries@) == configuration(
            namespace@,
            link_offset,
            inputs,
            outputs,
            ip@,
            port,
        ),
{
    let list = vec![
        (
            below(namespace.to_owned(), "config/audio/linkOffsetMs"),
            StatusValue::Duration(link_offset),
        ),
        (below(namespace.to_owned(), "config/io/inputs"), StatusValue::Count(inputs)),
        (below(namespace.to_owned(), "config/io/outputs"), StatusValue::Count(outputs)),
        (below(namespace.to_owned(), "config/network/ip"), StatusValue::Text(ip)),
        (below(namespace.to_owned(), "config/network/port"), StatusValue::Level(port)),
    ];
    assert(crate::status::entries(list@) =~= configuration(
        namespace@,
        link_offset,
        inputs,
        outputs,
        ip@,
        port,
    ));
    list
}

/// How often the time server has told its clients the time.
#[derive(Debug, Clone, Copy, PartialEq, Eq, Structural)]
pub struct TimeServer {
    pub counter: usize,
}

impl TimeServer {
    pub fn new() -> (server: TimeServer)
        ensures
            server.counter == 0,
    {
        TimeServer { counter: 0 }
    }

    /// Counts one more time. Tells whether the offset of the clock is
    /// published, which is each tenth time.
    pub fn tick(&mut self) -> (publish: bool)
        requires
            old(self).counter < usize::MAX,
        ensures
            final(self).counter == old(self).counter + 1,
            publish == (final(self).counter % 10 == 0),
            publish <==> final(self).counter / 10 == old(self).counter / 10 + 1,
    {
        self.counter = self.counter + 1;
        self.counter % 10 == 0
    }
}

/// How telling a client the time ended.
#[derive(Debug, Clone, Copy, PartialEq, Eq, Structural)]
pub enum WriteOutcome {
    Written,
    Failed,
    TimedOut,
}

/// The clients that could not be told the time.
pub open spec fn unresponsive_in(outcomes: Seq<(SocketAddress, WriteOutcome)>) -> Seq<SocketAddress>
    decreases outcomes.len(),
{
    if outcomes.len() == 0 {
        Seq::empty()
    } else {
        let earlier = unresponsive_in(outcomes.drop_last());
        if outcomes.last().1 == WriteOutcome::Written {
            earlier
        } else {
            earlier.push(outcomes.last().0)
        }
    }
}

/// Lists the clients that could not be told the time.
pub fn unresponsive_clients(outcomes: &Vec<(SocketAddress, WriteOutcome)>) -> (clients: Vec<
    SocketAddress,
>)
    ensures
        clients@ == unresponsive_in(outcomes@),
{
    let mut clients: Vec<SocketAddress> = Vec::new();
    let len = outcomes.len();
    let mut i: usize = 0;
    while i < len
        invariant
            i <= len,
            len == outcomes@.len(),
            clients@ == unresponsive_in(outcomes@.take(i as int)),
        decreases len - i,
    {
        proof {
            assert(outcomes@.take(i as int + 1).drop_last() =~= outcomes@.take(i as int));
        }
        match outcomes[i].1 {
            WriteOutcome::Written => {},
            WriteOutcome::Failed | WriteOutcome::TimedOut => {
                clients.push(outcomes[i].0);
            },
        }
        i = i + 1;
    }
    assert(outcomes@.take(len as int) =~= outcomes@);
    clients
}

/// Whether a client stays: whether it is not among those that could not be
/// told the time.
pub fn stays(client: SocketAddress, unresponsive: &Vec<SocketAddress>) -> (stays: bool)
    ensures
        stays == !unresponsive@.contains(client),
{
    let len = unresponsive.len();
    let mut i: usize = 0;
    while i < len
        invariant
            i <= len,
            len == unresponsive@.len(),
            forall|k: int| 0 <= k < i ==> #[trigger] unresponsive@[k] != client,
        decreases len - i,
    {
        if unresponsive[i] == client {
            return false;
        }
        i = i + 1;
    }
    true
}

/// Streams can be received at an interface where it is up and running, is not the
/// one of the machine with itself, and has an address and a MAC address. None of
/// these can be missing.
pub proof fn lemma_usable_interfaces(interface: InterfaceModel)
    ensures
        interface.usable() ==> interface.up && interface.running && !interface.loopback
            && interface.ips.len() > 0 && interface.mac is Some,
        !interface.usable() ==> !interface.up || !interface.running || interface.loopback
            || interface.ips.len() == 0 || interface.mac is None,
{
}

/// Which interface is meant: where there is a name, the one that has it, usable
/// or not; where there is none, any that is usable, whatever its name.
pub proof fn lemma_which_interface_is_meant(
    interface: InterfaceModel,
    name: &str,
    other: Seq<char>,
)
    ensures
        meant(interface, Some(name)) <==> interface.name == name@,
        meant(interface, None) <==> interface.usable(),
        meant(interface, None) == meant(InterfaceModel { name: other, ..interface }, None),
{
}

/// Interfaces are listed one after the other, in their order: each that is usable
/// on a line of its own, behind a tab, and the others not at all.
pub proof fn lemma_interfaces_are_listed(a: Seq<InterfaceModel>, b: Seq<InterfaceModel>)
    ensures
        listed(a + b) == listed(a) + listed(b),
        listed(Seq::empty()) == Seq::<char>::empty(),
        a.len() == 1 && a[0].usable() ==> listed(a) == seq!['\t'] + a[0].name + seq!['\n'],
        a.len() == 1 && !a[0].usable() ==> listed(a) == Seq::<char>::empty(),
    decreases b.len(),
{
    reveal_strlit("\t");
    reveal_strlit("\n");
    if a.len() == 1 {
        assert(a.drop_last() =~= Seq::empty());
        assert(listed(a.drop_last()) =~= Seq::empty());
        if a[0].usable() {
            assert(listed(a) =~= seq!['\t'] + a[0].name + seq!['\n']);
        }
    }
    if b.len() == 0 {
        assert(a + b =~= a);
        assert(listed(a) + listed(b) =~= listed(a));
    } else {
        lemma_interfaces_are_listed(a, b.drop_last());
        assert((a + b).drop_last() =~= a + b.drop_last());
        let line = "\t"@ + b.last().name + "\n"@;
        assert(listed(a) + (listed(b.drop_last()) + line) =~= listed(a) + listed(b.drop_last())
            + line);
    }
}

/// The address of an interface is the first of its addresses that does not denote
/// the machine itself. There is one exactly where there is such an address.
pub proof fn lemma_first_address_is_taken(interface: InterfaceModel, i: int, ip: IpAddress)
    requires
        0 <= i < interface.ips.len(),
        !interface.ips[i].loopback(),
        forall|k: int| 0 <= k < i ==> (#[trigger] interface.ips[k]).loopback(),
    ensures
        is_first_address(interface, ip) <==> ip == interface.ips[i],
        has_address(interface),
{
    if is_first_address(interface, ip) {
        let j = choose|j: int|
            0 <= j < interface.ips.len() && #[trigger] interface.ips[j] == ip && !ip.loopback() && (
            forall|k: int| 0 <= k < j ==> (#[trigger] interface.ips[k]).loopback());
        if j < i {
            assert(interface.ips[j].loopback());
        }
        if i < j {
            assert(interface.ips[i].loopback());
        }
    }
}

/// Of several interfaces with the same name, the first one is taken.
pub proof fn lemma_first_interface_is_taken(
    interfaces: Seq<NetworkInterface>,
    name: Seq<char>,
    i: int,
    j: int,
)
    requires
        is_first_named(interfaces, name, i),
    ensures
        0 <= i < interfaces.len(),
        interfaces[i].name@ == name,
        0 <= j < interfaces.len() && interfaces[j].name@ == name ==> i <= j,
        is_first_named(interfaces, name, j) <==> i == j,
{
    if 0 <= j < i {
        assert(interfaces[j].name@ != name);
    }
}

/// A client is among those that could not be told the time exactly where telling
/// it failed or took too long, once for each time.
pub proof fn lemma_who_could_not_be_told(
    outcomes: Seq<(SocketAddress, WriteOutcome)>,
    more: Seq<(SocketAddress, WriteOutcome)>,
    client: SocketAddress,
)
    ensures
        unresponsive_in(outcomes).contains(client) <==> exists|i: int|
            0 <= i < outcomes.len() && (#[trigger] outcomes[i]).0 == client && (outcomes[i].1
                == WriteOutcome::Failed || outcomes[i].1 == WriteOutcome::TimedOut),
        unresponsive_in(outcomes + more) == unresponsive_in(outcomes) + unresponsive_in(more),
        unresponsive_in(outcomes).len() <= outcomes.len(),
{
    lemma_told_or_not(outcomes, client);
    lemma_told_one_after_the_other(outcomes, more);
}

proof fn lemma_told_one_after_the_other(
    outcomes: Seq<(SocketAddress, WriteOutcome)>,
    more: Seq<(SocketAddress, WriteOutcome)>,
)
    ensures
        unresponsive_in(outcomes + more) == unresponsive_in(outcomes) + unresponsive_in(more),
    decreases more.len(),
{
    if more.len() == 0 {
        assert(outcomes + more =~= outcomes);
        assert(unresponsive_in(outcomes) + unresponsive_in(more) =~= unresponsive_in(outcomes));
    } else {
        lemma_told_one_after_the_other(outcomes, more.drop_last());
        assert((outcomes + more).drop_last() =~= outcomes + more.drop_last());
        assert(unresponsive_in(outcomes + more) =~= unresponsive_in(outcomes) + unresponsive_in(
            more,
        ));
    }
}

proof fn lemma_told_or_not(outcomes: Seq<(SocketAddress, WriteOutcome)>, client: SocketAddress)
    ensures
        unresponsive_in(outcomes).contains(client) <==> exists|i: int|
            0 <= i < outcomes.len() && (#[trigger] outcomes[i]).0 == client && (outcomes[i].1
                == WriteOutcome::Failed || outcomes[i].1 == WriteOutcome::TimedOut),
        unresponsive_in(outcomes).len() <= outcomes.len(),
    decreases outcomes.len(),
{
    if outcomes.len() > 0 {
        let rest = outcomes.drop_last();
        let earlier = unresponsive_in(rest);
        let all = unresponsive_in(outcomes);
        let n = outcomes.len() - 1;
        lemma_told_or_not(rest, client);
        if earlier.contains(client) {
            let i = choose|i: int|
                0 <= i < rest.len() && (#[trigger] rest[i]).0 == client && (rest[i].1
                    == WriteOutcome::Failed || rest[i].1 == WriteOutcome::TimedOut);
            assert(outcomes[i] == rest[i]);
            let k = earlier.index_of(client);
            assert(all[k] == client);
        }
        if outcomes[n].1 != WriteOutcome::Written {
            assert(all == earlier.push(outcomes[n].0));
            assert(all[earlier.len() as int] == outcomes[n].0);
        }
        if all.contains(client) {
            let k = all.index_of(client);
            if k < earlier.len() {
                assert(earlier[k] == client);
            } else {
                assert(outcomes[n].0 == client);
            }
        }
        if exists|i: int|
            0 <= i < outcomes.len() && (#[trigger] outcomes[i]).0 == client && (outcomes[i].1
                == WriteOutcome::Failed || outcomes[i].1 == WriteOutcome::TimedOut) {
            let i = choose|i: int|
                0 <= i < outcomes.len() && (#[trigger] outcomes[i]).0 == client && (outcomes[i].1
                    == WriteOutcome::Failed || outcomes[i].1 == WriteOutcome::TimedOut);
            if i < n {
                assert(rest[i] == outcomes[i]);
            }
        }
    }
}

/// What is stored of the configuration: the link offset, how many inputs and
/// outputs there are, and the address and the port, each under its own key below
/// that of the host.
pub proof fn lemma_what_is_stored_of_the_configuration(
    namespace: Seq<char>,
    link_offset: Millis,
    inputs: usize,
    outputs: usize,
    ip: Seq<char>,
    port: u16,
)
    ensures
        ({
            let stored = configuration(namespace, link_offset, inputs, outputs, ip, port);
            &&& stored.len() == 5
            &&& stored[0].0 == under(namespace, "config/audio/linkOffsetMs"@)
            &&& stored[0].1 == StatusValueModel::Duration(link_offset)
            &&& stored[1].0 == under(namespace, "config/io/inputs"@)
            &&& stored[1].1 == StatusValueModel::Count(inputs)
            &&& stored[2].0 == under(namespace, "config/io/outputs"@)
            &&& stored[2].1 == StatusValueModel::Count(outputs)
            &&& stored[3].0 == under(namespace, "config/network/ip"@)
            &&& stored[3].1 == StatusValueModel::Text(ip)
            &&& stored[4].0 == under(namespace, "config/network/port"@)
            &&& stored[4].1 == StatusValueModel::Level(port)
        }),
{
}

/// Each error has a message of its own.
pub proof fn lemma_start_errors_are_told_apart(a: StartError, b: StartError)
    ensures
        a.message() == b.message() ==> a == b,
{
    reveal_strlit("network interface not specified");
    reveal_strlit("network interface not found");
    reveal_strlit("network interface has no IP");
    reveal_strlit("network interface has no MAC address");
    assert(StartError::NotFound.message().len() == 27);
    assert(StartError::NoIp.message().len() == 27);
    assert(StartError::NotFound.message()[18] == 'n');
    assert(StartError::NoIp.message()[18] == 'h');
    if a.message() == b.message() {
        assert(a.message().len() == b.message().len());
        assert(a.message()[18] == b.message()[18]);
        assert(StartError::NotSpecified.message().len() == 31);
        assert(StartError::NoMac.message().len() == 36);
    }
}

} // verus!
