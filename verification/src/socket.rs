//! From where a receiver takes its packets: the address of a stream, and the
//! socket that is opened for it.

use crate::error::{RxError, RxErrorModel};
use crate::network::{IpAddress, SocketAddress};
use crate::session::{
    debug_list, debug_text, optional_connection, texts, ConnectionInfo, ConnectionModel, MediaModel,
    SessionInfo, SessionModel,
};
use crate::text::{
    before_slash, concat, lemma_text_is_split_at_the_first_slash, same_text, text_before_slash,
};
use vstd::prelude::*;

verus! {

/// The address of a stream, as it stands in a session description.
#[derive(Debug)]
pub struct StreamSource {
    /// The address with the part behind the slash.
    pub address: String,
    /// The address without the part behind the slash.
    pub ip: String,
    pub port: u16,
}

/// The mathematical value of a `StreamSource`.
pub struct StreamSourceModel {
    pub address: Seq<char>,
    pub ip: Seq<char>,
    pub port: u16,
}

impl View for StreamSource {
    type V = StreamSourceModel;

    open spec fn view(&self) -> StreamSourceModel {
        StreamSourceModel { address: self.address@, ip: self.ip@, port: self.port }
    }
}

/// The port that a number denotes: its lower 16 bits.
pub open spec fn port_number(port: isize) -> u16 {
    (port as int % 0x1_0000) as u16
}

/// The address in a connection, or what is wrong with it.
pub open spec fn source_in(connection: ConnectionModel, port: u16) -> Result<
    StreamSourceModel,
    RxErrorModel,
> {
    if connection.address is None {
        Err(RxErrorModel::InvalidSdp("connection-address is missing"@))
    } else if connection.address_type != "IP4"@ && connection.address_type != "IP6"@ {
        Err(RxErrorModel::InvalidSdp("unsupported addrtype: "@ + connection.address_type))
    } else if connection.network_type != "IN"@ {
        Err(RxErrorModel::InvalidSdp("unsupported nettype: "@ + connection.network_type))
    } else {
        let address = connection.address->0;
        match before_slash(address) {
            Some(ip) => Ok(StreamSourceModel { address, ip, port }),
            None => Err(RxErrorModel::InvalidSdp("invalid ip address: "@ + address)),
        }
    }
}

/// The address of the stream of a session, or what is wrong with the session.
pub open spec fn stream_source(session: SessionModel) -> Result<StreamSourceModel, RxErrorModel> {
    if session.media.len() > 1 {
        Err(RxErrorModel::InvalidSdp("redundant streams aren't supported yet"@))
    } else if session.media.len() == 0 {
        Err(RxErrorModel::InvalidSdp("media description is missing"@))
    } else {
        let media = session.media[0];
        if media.media != "audio"@ {
            Err(RxErrorModel::InvalidSdp("unsupported media type: "@ + media.media))
        } else if !(media.protos.contains("RTP"@) && media.protos.contains("AVP"@)) {
            Err(
                RxErrorModel::InvalidSdp(
                    "unsupported media protocols: "@ + debug_list(media.protos)
                        + "; only RTP/AVP is supported"@,
                ),
            )
        } else {
            let port = port_number(media.port);
            match (media.connection, session.connection) {
                (Some(connection), _) => source_in(connection, port),
                (None, Some(connection)) => source_in(connection, port),
                (None, None) => Err(RxErrorModel::InvalidSdp("connection data is missing"@)),
            }
        }
    }
}

/// The value of the address of a stream or of the error in its place.
pub open spec fn source_outcome(result: Result<StreamSource, RxError>) -> Result<
    StreamSourceModel,
    RxErrorModel,
> {
    match result {
        Ok(source) => Ok(source@),
        Err(error) => Err(error@),
    }
}

fn invalid(text: String) -> (error: Result<StreamSource, RxError>)
    ensures
        source_outcome(error) == Err::<StreamSourceModel, RxErrorModel>(
            RxErrorModel::InvalidSdp(text@),
        ),
{
    Err(RxError::InvalidSdp(text))
}

fn contains_text(list: &Vec<String>, text: &str) -> (contains: bool)
    ensures
        contains == texts(list@).contains(text@),
{
    let len = list.len();
    let mut i: usize = 0;
    while i < len
        invariant
            i <= len,
            len == list@.len(),
            forall|k: int| 0 <= k < i ==> #[trigger] texts(list@)[k] != text@,
        decreases len - i,
    {
        assert(texts(list@)[i as int] == list@[i as int]@);
        if same_text(list[i].as_str(), text) {
            return true;
        }
        i = i + 1;
    }
    false
}

fn read_source(connection: &ConnectionInfo, port: u16) -> (source: Result<StreamSource, RxError>)
    ensures
        source_outcome(source) == source_in(connection@, port),
{
    let address = match &connection.address {
        Some(address) => address,
        None => {
            return invalid("connection-address is missing".to_owned());
        },
    };
    let address_type = connection.address_type.as_str();
    if !same_text(address_type, "IP4") && !same_text(address_type, "IP6") {
        return invalid(concat("unsupported addrtype: ", address_type));
    }
    let network_type = connection.network_type.as_str();
    if !same_text(network_type, "IN") {
        return invalid(concat("unsupported nettype: ", network_type));
    }
    match text_before_slash(address.as_str()) {
        Some(ip) => Ok(StreamSource { address: address.clone(), ip: ip.to_owned(), port }),
        None => invalid(concat("invalid ip address: ", address.as_str())),
    }
}

/// Finds the address of the stream of a session.
pub fn find_stream_source(session: &SessionInfo) -> (source: Result<StreamSource, RxError>)
    ensures
        source_outcome(source) == stream_source(session@),
        source matches Ok(source) ==> (session@.media[0].connection matches Some(connection)
            ==> connection.address == Some(source@.address)),
{
    if session.media.len() > 1 {
        return invalid("redundant streams aren't supported yet".to_owned());
    }
    if session.media.len() == 0 {
        return invalid("media description is missing".to_owned());
    }
    let media = &session.media[0];
    assert(session@.media[0] == media@);
    if !same_text(media.media.as_str(), "audio") {
        return invalid(concat("unsupported media type: ", media.media.as_str()));
    }
    if !(contains_text(&media.protos, "RTP") && contains_text(&media.protos, "AVP")) {
        let mut text = concat("unsupported media protocols: ", debug_text(&media.protos).as_str());
        text.append("; only RTP/AVP is supported");
        return invalid(text);
    }
    let number = media.port;
    let port: u16 = number as u16;
    assert(port == port_number(number)) by {
        assert(number as u16 == number % 0x1_0000) by (bit_vector);
    }
    assert(media@.connection == optional_connection(media.connection));
    match (&media.connection, &session.connection) {
        (Some(connection), _) => read_source(connection, port),
        (None, Some(connection)) => read_source(connection, port),
        (None, None) => invalid("connection data is missing".to_owned()),
    }
}

/// How a socket joins a group.
#[derive(Debug, Clone, Copy, PartialEq, Eq, Structural)]
pub enum GroupJoin {
    /// An IPv4 group is joined on the interface that has a local address.
    V4(u32, u32),
    /// An IPv6 group is joined on the interface with an index, which is 0 where
    /// any interface will do.
    V6(u128, u32),
}

/// How the socket of a receiver is opened.
#[derive(Debug, Clone, Copy, PartialEq, Eq)]
pub struct SocketPlan {
    /// The group that is joined, where one is.
    pub join: Option<GroupJoin>,
    /// The address to which the socket is bound.
    pub bind: SocketAddress,
}

/// The socket for a stream, where the local address is of the same kind as that
/// of the stream: one that joins the group and is bound to it where the address
/// is that of a group, and one that is bound to the local address where it is
/// not. There is none where the kinds differ.
pub open spec fn socket_plan(ip: IpAddress, local_ip: IpAddress, port: u16) -> Option<SocketPlan> {
    let unicast = SocketPlan { join: None, bind: SocketAddress { ip: local_ip, port } };
    match (ip, local_ip) {
        (IpAddress::V4(group), IpAddress::V4(local)) => Some(
            if ip.multicast() {
                SocketPlan {
                    join: Some(GroupJoin::V4(group, local)),
                    bind: SocketAddress { ip, port },
                }
            } else {
                unicast
            },
        ),
        (IpAddress::V6(group), IpAddress::V6(_)) => Some(
            if ip.multicast() {
                SocketPlan {
                    join: Some(GroupJoin::V6(group, 0)),
                    bind: SocketAddress { ip, port },
                }
            } else {
                unicast
            },
        ),
        _ => None,
    }
}

/// Decides how the socket for an IPv4 stream is opened.
pub fn plan_ipv4_rx_socket(ip_addr: u32, local_ip: u32, port: u16) -> (plan: SocketPlan)
    ensures
        Some(plan) == socket_plan(IpAddress::V4(ip_addr), IpAddress::V4(local_ip), port),
{
    let ip = IpAddress::V4(ip_addr);
    if ip.is_multicast() {
        SocketPlan {
            join: Some(GroupJoin::V4(ip_addr, local_ip)),
            bind: SocketAddress { ip, port },
        }
    } else {
        SocketPlan { join: None, bind: SocketAddress { ip: IpAddress::V4(local_ip), port } }
    }
}

/// Decides how the socket for an IPv6 stream is opened.
pub fn plan_ipv6_rx_socket(ip_addr: u128, local_ip: u128, port: u16) -> (plan: SocketPlan)
    ensures
        Some(plan) == socket_plan(IpAddress::V6(ip_addr), IpAddress::V6(local_ip), port),
{
    let ip = IpAddress::V6(ip_addr);
    if ip.is_multicast() {
        SocketPlan {
            join: Some(GroupJoin::V6(ip_addr, 0)),
            bind: SocketAddress { ip, port },
        }
    } else {
        SocketPlan { join: None, bind: SocketAddress { ip: IpAddress::V6(local_ip), port } }
    }
}

/// The value of the plan for a socket or of the error in its place.
pub open spec fn plan_outcome(result: Result<SocketPlan, RxError>) -> Result<
    SocketPlan,
    RxErrorModel,
> {
    match result {
        Ok(plan) => Ok(plan),
        Err(error) => Err(error@),
    }
}

/// Decides how the socket for a stream is opened, given the address that its
/// text denotes, if it denotes one.
pub fn plan_socket(
    source: &StreamSource,
    ip_addr: Option<IpAddress>,
    local_ip: IpAddress,
) -> (plan: Result<SocketPlan, RxError>)
    ensures
        plan_outcome(plan) == (match (ip_addr, local_ip) {
            (None, _) => Err(RxErrorModel::InvalidSdp("invalid ip address: "@ + source@.address)),
            (Some(IpAddress::V4(_)), IpAddress::V6(_)) => Err(
                RxErrorModel::Other(
                    "Cannot receive IPv4 stream when bound to local IPv6 address"@,
                ),
            ),
            (Some(IpAddress::V6(_)), IpAddress::V4(_)) => Err(
                RxErrorModel::Other(
                    "Cannot receive IPv6 stream when bound to local IPv4 address"@,
                ),
            ),
            (Some(ip), _) => Ok(socket_plan(ip, local_ip, source.port)->0),
        }),
{
    let ip = match ip_addr {
        Some(ip) => ip,
        None => {
            return Err(
                RxError::InvalidSdp(concat("invalid ip address: ", source.address.as_str())),
            );
        },
    };
    match (ip, local_ip) {
        (IpAddress::V4(ip), IpAddress::V4(local)) => Ok(
            plan_ipv4_rx_socket(ip, local, source.port),
        ),
        (IpAddress::V6(ip), IpAddress::V6(local)) => Ok(
            plan_ipv6_rx_socket(ip, local, source.port),
        ),
        (IpAddress::V4(_), IpAddress::V6(_)) => Err(
            RxError::Other(
                "Cannot receive IPv4 stream when bound to local IPv6 address".to_owned(),
            ),
        ),
        (IpAddress::V6(_), IpAddress::V4(_)) => Err(
            RxError::Other(
                "Cannot receive IPv6 stream when bound to local IPv4 address".to_owned(),
            ),
        ),
    }
}

/// The socket of a receiver is of the kind of its local address: there is a
/// plan where the stream is of that kind too, and then all addresses in it are.
/// A socket that joins a group is bound to that group, and one that joins none
/// is bound to the local address.
pub proof fn lemma_socket_is_of_one_kind(ip: IpAddress, local_ip: IpAddress, port: u16)
    ensures
        socket_plan(ip, local_ip, port) is Some <==> (ip is V4 <==> local_ip is V4),
        socket_plan(ip, local_ip, port) matches Some(plan) ==> {
            &&& plan.bind.port == port
            &&& plan.bind.ip is V4 <==> local_ip is V4
            &&& match plan.join {
                Some(GroupJoin::V4(group, local)) => {
                    &&& ip.multicast()
                    &&& plan.bind.ip == IpAddress::V4(group)
                    &&& local_ip == IpAddress::V4(local)
                },
                Some(GroupJoin::V6(group, _)) => {
                    &&& ip.multicast()
                    &&& plan.bind.ip == IpAddress::V6(group)
                    &&& local_ip is V6
                },
                None => !ip.multicast() && plan.bind.ip == local_ip,
            }
        },
{
}

/// Whether the only stream of a session is audio over RTP/AVP.
pub open spec fn has_audio_stream(session: SessionModel) -> bool {
    &&& session.media.len() == 1
    &&& session.media[0].media == "audio"@
    &&& session.media[0].protos.contains("RTP"@)
    &&& session.media[0].protos.contains("AVP"@)
}

/// The connection of the stream goes before that of the session: where the
/// stream has connection data of its own, the outcome is the same whatever the
/// session has, and an address that is found is that of the stream.
pub proof fn lemma_connection_of_the_stream_goes_first(
    session: SessionModel,
    connection: Option<ConnectionModel>,
)
    requires
        has_audio_stream(session),
        session.media[0].connection is Some,
    ensures
        stream_source(session) == stream_source(SessionModel { connection, ..session }),
        stream_source(session) == stream_source(SessionModel { connection: None, ..session }),
        stream_source(session) matches Ok(source) ==> session.media[0].connection->0.address
            == Some(source.address),
{
}

/// Where the stream has no connection data of its own, that of the session
/// decides: the outcome is the same as if the stream had it. Where there is
/// none at all, that is what is wrong.
pub proof fn lemma_connection_of_the_session_comes_second(
    session: SessionModel,
    media: MediaModel,
)
    requires
        has_audio_stream(session),
        session.media[0].connection is None,
        media == (MediaModel { connection: session.connection, ..session.media[0] }),
    ensures
        session.connection is Some ==> stream_source(session) == stream_source(
            SessionModel { connection: None, media: seq![media], ..session },
        ),
        session.connection is None ==> stream_source(session) == Err::<
            StreamSourceModel,
            RxErrorModel,
        >(RxErrorModel::InvalidSdp("connection data is missing"@)),
        stream_source(session) matches Ok(source) ==> session.connection is Some
            && session.connection->0.address == Some(source.address),
{
    if session.connection is Some {
        let other = SessionModel { connection: None, media: seq![media], ..session };
        assert(has_audio_stream(other));
    }
}

/// An address is found exactly where the only stream of the session is audio
/// over RTP/AVP, and the connection that counts is an internet connection of
/// either kind with an address that has a slash in it. The address is then
/// split there, and the port is the number of the stream, of which 16 bits
/// count. The order of the protocols does not matter, and nothing else does.
pub proof fn lemma_where_a_stream_is_found(session: SessionModel)
    ensures
        stream_source(session) is Ok <==> has_audio_stream(session) && ({
            let own = session.media[0].connection;
            let connection = if own is Some {
                own
            } else {
                session.connection
            };
            &&& connection is Some
            &&& connection->0.address is Some
            &&& connection->0.address->0.contains('/')
            &&& connection->0.address_type == "IP4"@ || connection->0.address_type == "IP6"@
            &&& connection->0.network_type == "IN"@
        }),
        stream_source(session) matches Ok(source) ==> {
            &&& source.address.take(source.ip.len() as int) == source.ip
            &&& source.ip.len() < source.address.len()
            &&& source.address[source.ip.len() as int] == '/'
            &&& !source.ip.contains('/')
            &&& (source.port - session.media[0].port) % 0x1_0000 == 0
        },
{
    if stream_source(session) is Ok {
        let source = stream_source(session)->Ok_0;
        lemma_text_is_split_at_the_first_slash(source.address, Seq::empty(), Seq::empty());
    }
}

/// Why an address is not found: what is looked at first is what is told.
pub proof fn lemma_why_a_stream_is_not_found(session: SessionModel)
    ensures
        session.media.len() > 1 ==> stream_source(session) == Err::<
            StreamSourceModel,
            RxErrorModel,
        >(RxErrorModel::InvalidSdp("redundant streams aren't supported yet"@)),
        session.media.len() == 0 ==> stream_source(session) == Err::<
            StreamSourceModel,
            RxErrorModel,
        >(RxErrorModel::InvalidSdp("media description is missing"@)),
        session.media.len() == 1 && session.media[0].media != "audio"@ ==> stream_source(session)
            == Err::<StreamSourceModel, RxErrorModel>(
            RxErrorModel::InvalidSdp("unsupported media type: "@ + session.media[0].media),
        ),
        session.media.len() == 1 && session.media[0].media == "audio"@ && !has_audio_stream(session)
            ==> stream_source(session) == Err::<StreamSourceModel, RxErrorModel>(
            RxErrorModel::InvalidSdp(
                "unsupported media protocols: "@ + debug_list(session.media[0].protos)
                    + "; only RTP/AVP is supported"@,
            ),
        ),
{
}

/// Why there is no address in a connection: what is looked at first is what is
/// told.
pub proof fn lemma_why_a_connection_has_no_address(connection: ConnectionModel, port: u16)
    ensures
        connection.address is None ==> source_in(connection, port) == Err::<
            StreamSourceModel,
            RxErrorModel,
        >(RxErrorModel::InvalidSdp("connection-address is missing"@)),
        connection.address is Some && connection.address_type != "IP4"@ && connection.address_type
            != "IP6"@ ==> source_in(connection, port) == Err::<StreamSourceModel, RxErrorModel>(
            RxErrorModel::InvalidSdp("unsupported addrtype: "@ + connection.address_type),
        ),
        connection.address is Some && (connection.address_type == "IP4"@
            || connection.address_type == "IP6"@) && connection.network_type != "IN"@
            ==> source_in(connection, port) == Err::<StreamSourceModel, RxErrorModel>(
            RxErrorModel::InvalidSdp("unsupported nettype: "@ + connection.network_type),
        ),
        connection.address is Some && (connection.address_type == "IP4"@
            || connection.address_type == "IP6"@) && connection.network_type == "IN"@
            && !connection.address->0.contains('/') ==> source_in(connection, port) == Err::<
            StreamSourceModel,
            RxErrorModel,
        >(RxErrorModel::InvalidSdp("invalid ip address: "@ + connection.address->0)),
{
}

/// A socket joins a group where the address of the stream is that of a group,
/// and then exactly that group, on the interface with the local address or on
/// any interface, and is bound to it. Else it is bound to the local address.
pub proof fn lemma_socket_joins_the_group_of_the_stream(
    v4: u32,
    local_v4: u32,
    v6: u128,
    local_v6: u128,
    port: u16,
)
    ensures
        v4 / 0x1000_0000 == 14 ==> socket_plan(
            IpAddress::V4(v4),
            IpAddress::V4(local_v4),
            port,
        ) == Some(
            SocketPlan {
                join: Some(GroupJoin::V4(v4, local_v4)),
                bind: SocketAddress { ip: IpAddress::V4(v4), port },
            },
        ),
        v4 / 0x1000_0000 != 14 ==> socket_plan(
            IpAddress::V4(v4),
            IpAddress::V4(local_v4),
            port,
        ) == Some(
            SocketPlan {
                join: None,
                bind: SocketAddress { ip: IpAddress::V4(local_v4), port },
            },
        ),
        v6 / 0x100_0000_0000_0000_0000_0000_0000_0000 == 255 ==> socket_plan(
            IpAddress::V6(v6),
            IpAddress::V6(local_v6),
            port,
        ) == Some(
            SocketPlan {
                join: Some(GroupJoin::V6(v6, 0)),
                bind: SocketAddress { ip: IpAddress::V6(v6), port },
            },
        ),
        v6 / 0x100_0000_0000_0000_0000_0000_0000_0000 != 255 ==> socket_plan(
            IpAddress::V6(v6),
            IpAddress::V6(local_v6),
            port,
        ) == Some(
            SocketPlan {
                join: None,
                bind: SocketAddress { ip: IpAddress::V6(local_v6), port },
            },
        ),
        socket_plan(IpAddress::V4(v4), IpAddress::V6(local_v6), port) is None,
        socket_plan(IpAddress::V6(v6), IpAddress::V4(local_v4), port) is None,
{
}

} // verus!
