//! Session descriptions: what a session announces, and what a receiver makes
//! of it.

use crate::descriptor::{session_id_text, session_text, DescriptorModel, RxDescriptor};
use crate::duration::Millis;
use crate::error::{RxError, RxErrorModel};
use crate::format::ReceiverId;
use crate::network::IpAddress;
use crate::text::{
    concat, decimal, decimal_number, is_number_up_to, lemma_decimal_value, parse_decimal, same_text,
};
use regex::Regex;
use sdp::description::common::ConnectionInformation;
use sdp::SessionDescription;
use std::io::Cursor;
use vstd::prelude::*;

verus! {

/// Finds the payload type, the bit depth, the sample rate and the number of
/// channels in an `rtpmap` attribute.
pub const RTPMAP_REGEX: &'static str = "([0-9]+) .+?([0-9]+)\\/([0-9]+)\\/([0-9]+)";

/// Finds the offset of the clock of a stream in a `mediaclk` attribute.
pub const MEDIACLK_REGEX: &'static str = "direct=([0-9]+)";

/// Where a stream can be received.
#[derive(Debug)]
pub struct ConnectionInfo {
    pub network_type: String,
    pub address_type: String,
    pub address: Option<String>,
}

/// A stream of a session.
#[derive(Debug)]
pub struct MediaInfo {
    pub media: String,
    pub port: isize,
    pub protos: Vec<String>,
    pub formats: Vec<String>,
    pub connection: Option<ConnectionInfo>,
    pub attributes: Vec<(String, Option<String>)>,
}

/// What a session description says that matters to a receiver.
#[derive(Debug)]
pub struct SessionInfo {
    pub name: String,
    pub id: u64,
    pub version: u64,
    pub origin: String,
    pub connection: Option<ConnectionInfo>,
    pub media: Vec<MediaInfo>,
}

/// The mathematical value of a `ConnectionInfo`.
pub struct ConnectionModel {
    pub network_type: Seq<char>,
    pub address_type: Seq<char>,
    pub address: Option<Seq<char>>,
}

/// The mathematical value of a `MediaInfo`.
pub struct MediaModel {
    pub media: Seq<char>,
    pub port: isize,
    pub protos: Seq<Seq<char>>,
    pub formats: Seq<Seq<char>>,
    pub connection: Option<ConnectionModel>,
    pub attributes: Seq<(Seq<char>, Option<Seq<char>>)>,
}

/// The mathematical value of a `SessionInfo`.
pub struct SessionModel {
    pub name: Seq<char>,
    pub id: u64,
    pub version: u64,
    pub origin: Seq<char>,
    pub connection: Option<ConnectionModel>,
    pub media: Seq<MediaModel>,
}

/// The characters of a text that can be missing.
pub open spec fn optional_text(text: Option<String>) -> Option<Seq<char>> {
    match text {
        Some(text) => Some(text@),
        None => None,
    }
}

/// The characters of several texts.
pub open spec fn texts(list: Seq<String>) -> Seq<Seq<char>> {
    list.map_values(|text: String| text@)
}

/// The value of a connection that can be missing.
pub open spec fn optional_connection(connection: Option<ConnectionInfo>) -> Option<
    ConnectionModel,
> {
    match connection {
        Some(connection) => Some(connection@),
        None => None,
    }
}

impl View for ConnectionInfo {
    type V = ConnectionModel;

    open spec fn view(&self) -> ConnectionModel {
        ConnectionModel {
            network_type: self.network_type@,
            address_type: self.address_type@,
            address: optional_text(self.address),
        }
    }
}

impl View for MediaInfo {
    type V = MediaModel;

    open spec fn view(&self) -> MediaModel {
        MediaModel {
            media: self.media@,
            port: self.port,
            protos: texts(self.protos@),
            formats: texts(self.formats@),
            connection: optional_connection(self.connection),
            attributes: attributes_of(self.attributes@),
        }
    }
}

impl View for SessionInfo {
    type V = SessionModel;

    open spec fn view(&self) -> SessionModel {
        SessionModel {
            name: self.name@,
            id: self.id,
            version: self.version,
            origin: self.origin@,
            connection: optional_connection(self.connection),
            media: self.media@.map_values(|media: MediaInfo| media@),
        }
    }
}

/// Network type, address type and address of a connection.
pub type RawConnection = (String, String, Option<String>);

/// Media type, port, protocols, formats, connection and attributes of a stream.
pub type RawMedia = (
    String,
    isize,
    Vec<String>,
    Vec<String>,
    Option<RawConnection>,
    Vec<(String, Option<String>)>,
);

/// Name, number, version, origin address, connection and streams of a session.
pub type RawSession = (String, u64, u64, String, Option<RawConnection>, Vec<RawMedia>);

/// The value of a connection that can be missing.
pub open spec fn connection_of(raw: Option<RawConnection>) -> Option<ConnectionModel> {
    match raw {
        Some(raw) => Some(
            ConnectionModel {
                network_type: raw.0@,
                address_type: raw.1@,
                address: optional_text(raw.2),
            },
        ),
        None => None,
    }
}

/// The attributes of a stream, key and value.
pub open spec fn attributes_of(raw: Seq<(String, Option<String>)>) -> Seq<
    (Seq<char>, Option<Seq<char>>),
> {
    raw.map_values(
        |attribute: (String, Option<String>)| (attribute.0@, optional_text(attribute.1)),
    )
}

/// The value of a stream.
pub open spec fn media_of(raw: RawMedia) -> MediaModel {
    MediaModel {
        media: raw.0@,
        port: raw.1,
        protos: texts(raw.2@),
        formats: texts(raw.3@),
        connection: connection_of(raw.4),
        attributes: attributes_of(raw.5@),
    }
}

/// The value of a session.
pub open spec fn session_of(raw: RawSession) -> SessionModel {
    SessionModel {
        name: raw.0@,
        id: raw.1,
        version: raw.2,
        origin: raw.3@,
        connection: connection_of(raw.4),
        media: raw.5@.map_values(|media: RawMedia| media_of(media)),
    }
}

/// What `SessionDescription::unmarshal` makes of a text: the parts of a
/// session description, or the message of its error.
pub uninterp spec fn unmarshalled(text: Seq<char>) -> Result<SessionModel, Seq<char>>;

/// What `SessionDescription::marshal` writes for the session description that
/// `SessionDescription::unmarshal` makes of a text.
pub uninterp spec fn remarshalled(text: Seq<char>) -> Option<Seq<char>>;

/// The groups of the first match that `Regex::captures` finds, the whole
/// match being the first of them.
pub uninterp spec fn regex_groups(pattern: Seq<char>, text: Seq<char>) -> Option<
    Seq<Option<Seq<char>>>,
>;

/// How `Debug` writes a list of texts.
pub uninterp spec fn debug_list(list: Seq<Seq<char>>) -> Seq<char>;

/// Calls `sdp::SessionDescription::unmarshal` on the bytes of the text and
/// hands on the fields of the result as they are. The claim is that the
/// outcome depends on the text alone. Nothing is claimed of which texts are
/// session descriptions, nor of what stands in the fields.
#[verifier::external_body]
pub(crate) fn unmarshal(text: &str) -> (session: Result<RawSession, String>)
    ensures
        unmarshalled(text@) == (match session {
            Ok(session) => Ok::<SessionModel, Seq<char>>(session_of(session)),
            Err(error) => Err(error@),
        }),
{
    let sd = SessionDescription::unmarshal(&mut Cursor::new(text)).map_err(|e| e.to_string())?;
    let connection = |c: ConnectionInformation|
        (c.network_type, c.address_type, c.address.map(|a| a.address));
    let media = sd.media_descriptions.into_iter().map(|m| (
        m.media_name.media,
        m.media_name.port.value,
        m.media_name.protos,
        m.media_name.formats,
        m.connection_information.map(connection),
        m.attributes.into_iter().map(|a| (a.key, a.value)).collect()
    )).collect();
    let (o, c) = (sd.origin, sd.connection_information.map(connection));
    Ok((sd.session_name, o.session_id, o.session_version, o.unicast_address, c, media))
}

/// Calls `sdp::SessionDescription::unmarshal` and, on what it gives,
/// `sdp::SessionDescription::marshal`. The claim is that the text that comes
/// out depends on the one that goes in alone, and that there is one exactly
/// where the latter is a session description. Nothing is claimed of how a
/// session description is written.
#[verifier::external_body]
pub(crate) fn marshal(text: &str) -> (sdp: Option<String>)
    ensures
        optional_text(sdp) == remarshalled(text@),
        sdp is Some <==> unmarshalled(text@) is Ok,
{
    SessionDescription::unmarshal(&mut Cursor::new(text)).ok().map(|sd| sd.marshal())
}

/// The value of the groups of a match.
pub open spec fn groups_in(groups: Option<Vec<Option<String>>>) -> Option<
    Seq<Option<Seq<char>>>,
> {
    match groups {
        Some(groups) => Some(groups@.map_values(|group: Option<String>| optional_text(group))),
        None => None,
    }
}

/// Whether the whole match is followed by `n` groups, each of them a number in
/// decimal notation.
pub open spec fn numbers_follow(groups: Seq<Option<Seq<char>>>, n: nat) -> bool {
    &&& groups.len() == n + 1
    &&& forall|i: int|
        1 <= i <= n ==> (#[trigger] groups[i] matches Some(group) && decimal_number(group) is Some)
}

/// Calls `regex::Regex::new` and `regex::Regex::captures`. The claim is that
/// the groups depend on the pattern and the text alone, that a match of
/// `RTPMAP_REGEX` has four groups beside the whole match and a match of
/// `MEDIACLK_REGEX` has one, and that each of these groups is a sequence of one
/// or more of the digits 0 to 9, as its part of the pattern demands.
#[verifier::external_body]
pub(crate) fn captures(pattern: &str, text: &str) -> (groups: Option<Vec<Option<String>>>)
    ensures
        groups_in(groups) == regex_groups(pattern@, text@),
        pattern@ == RTPMAP_REGEX@ && groups is Some ==> numbers_follow(groups_in(groups)->0, 4),
        pattern@ == MEDIACLK_REGEX@ && groups is Some ==> numbers_follow(groups_in(groups)->0, 1),
{
    let regex = Regex::new(pattern).ok()?;
    let captures = regex.captures(text)?;
    Some(captures.iter().map(|group| group.map(|it| it.as_str().to_owned())).collect())
}

/// Writes a list of texts with its `std::fmt::Debug` implementation. The claim
/// is that what is written depends on the texts alone. How characters are
/// escaped is not stated.
#[verifier::external_body]
pub(crate) fn debug_text(list: &Vec<String>) -> (text: String)
    ensures
        text@ == debug_list(texts(list@)),
{
    format!("{list:?}")
}

/// The value of the first attribute with a key; none where there is no such
/// attribute or where it has no value.
pub open spec fn attribute_in(
    attributes: Seq<(Seq<char>, Option<Seq<char>>)>,
    key: Seq<char>,
) -> Option<Seq<char>>
    decreases attributes.len(),
{
    if attributes.len() == 0 {
        None
    } else if attributes[0].0 == key {
        attributes[0].1
    } else {
        attribute_in(attributes.drop_first(), key)
    }
}

/// The characters of a part of a text that can be missing.
pub open spec fn optional_str(text: Option<&str>) -> Option<Seq<char>> {
    match text {
        Some(text) => Some(text@),
        None => None,
    }
}

impl MediaInfo {
    /// The value of the first attribute with a key.
    pub fn attribute(&self, key: &str) -> (value: Option<&str>)
        ensures
            optional_str(value) == attribute_in(self@.attributes, key@),
    {
        let len = self.attributes.len();
        let mut i: usize = 0;
        proof {
            assert(self@.attributes.skip(0) =~= self@.attributes);
        }
        while i < len
            invariant
                i <= len,
                len == self.attributes@.len(),
                attribute_in(self@.attributes, key@) == attribute_in(
                    self@.attributes.skip(i as int),
                    key@,
                ),
            decreases len - i,
        {
            proof {
                assert(self@.attributes.skip(i as int)[0] == self@.attributes[i as int]);
                assert(self@.attributes.skip(i as int).drop_first() =~= self@.attributes.skip(
                    i as int + 1,
                ));
            }
            if same_text(self.attributes[i].0.as_str(), key) {
                return match &self.attributes[i].1 {
                    Some(value) => Some(value.as_str()),
                    None => None,
                };
            }
            i = i + 1;
        }
        None
    }
}

/// What an `rtpmap` attribute says.
#[derive(Debug)]
pub struct RtpMap {
    pub payload_type: String,
    pub bit_depth: usize,
    pub sampling_rate: usize,
    pub channels: usize,
}

/// The mathematical value of an `RtpMap`.
pub struct RtpMapModel {
    pub payload_type: Seq<char>,
    pub bit_depth: usize,
    pub sampling_rate: usize,
    pub channels: usize,
}

impl View for RtpMap {
    type V = RtpMapModel;

    open spec fn view(&self) -> RtpMapModel {
        RtpMapModel {
            payload_type: self.payload_type@,
            bit_depth: self.bit_depth,
            sampling_rate: self.sampling_rate,
            channels: self.channels,
        }
    }
}

/// The number that a group of a match denotes, where it is at most `max`.
pub open spec fn number_in(group: Option<Seq<char>>, max: nat) -> Option<nat> {
    match group {
        Some(text) => if is_number_up_to(text, max) {
            decimal_number(text)
        } else {
            None
        },
        None => None,
    }
}

/// Whether a group of a match denotes a number that is larger than `max`.
pub open spec fn exceeds(group: Option<Seq<char>>, max: nat) -> bool {
    group matches Some(text) && (decimal_number(text) matches Some(n) && n > max)
}

/// What the groups of a match of `RTPMAP_REGEX` say: none where a group is
/// missing or a number is too large.
pub open spec fn rtpmap_in(groups: Seq<Option<Seq<char>>>) -> Option<RtpMapModel> {
    let max = usize::MAX as nat;
    if groups.len() == 5 && groups[1] is Some && number_in(groups[2], max) is Some && number_in(
        groups[3],
        max,
    ) is Some && number_in(groups[4], max) is Some {
        Some(
            RtpMapModel {
                payload_type: groups[1]->0,
                bit_depth: number_in(groups[2], max)->0 as usize,
                sampling_rate: number_in(groups[3], max)->0 as usize,
                channels: number_in(groups[4], max)->0 as usize,
            },
        )
    } else {
        None
    }
}

/// What the groups of a match of `MEDIACLK_REGEX` say: none where the group
/// is missing or the number is too large.
pub open spec fn clock_offset_in(groups: Seq<Option<Seq<char>>>) -> Option<u32> {
    if groups.len() == 2 && number_in(groups[1], u32::MAX as nat) is Some {
        Some(number_in(groups[1], u32::MAX as nat)->0 as u32)
    } else {
        None
    }
}

fn group_number(group: &Option<String>, max: u64) -> (number: Option<u64>)
    ensures
        match number {
            Some(n) => number_in(optional_text(*group), max as nat) == Some(n as nat),
            None => number_in(optional_text(*group), max as nat) is None,
        },
        number matches Some(n) ==> n <= max,
{
    match group {
        Some(text) => match parse_decimal(text.as_str()) {
            Some(n) => if n <= max {
                Some(n)
            } else {
                None
            },
            None => None,
        },
        None => None,
    }
}

/// Reads the groups of a match of `RTPMAP_REGEX`.
pub fn read_rtpmap(groups: &Vec<Option<String>>) -> (rtpmap: Option<RtpMap>)
    ensures
        match rtpmap {
            Some(rtpmap) => rtpmap_in(groups_in(Some(*groups))->0) == Some(rtpmap@),
            None => rtpmap_in(groups_in(Some(*groups))->0) is None,
        },
{
    if groups.len() != 5 {
        return None;
    }
    let payload_type = match &groups[1] {
        Some(text) => text.clone(),
        None => {
            return None;
        },
    };
    match (
        group_number(&groups[2], usize::MAX as u64),
        group_number(&groups[3], usize::MAX as u64),
        group_number(&groups[4], usize::MAX as u64),
    ) {
        (Some(bit_depth), Some(sampling_rate), Some(channels)) => Some(
            RtpMap {
                payload_type,
                bit_depth: bit_depth as usize,
                sampling_rate: sampling_rate as usize,
                channels: channels as usize,
            },
        ),
        _ => None,
    }
}

/// Reads the groups of a match of `MEDIACLK_REGEX`.
pub fn read_clock_offset(groups: &Vec<Option<String>>) -> (offset: Option<u32>)
    ensures
        offset == clock_offset_in(groups_in(Some(*groups))->0),
{
    if groups.len() != 2 {
        return None;
    }
    match group_number(&groups[1], u32::MAX as u64) {
        Some(offset) => Some(offset as u32),
        None => None,
    }
}

fn connection_info(raw: Option<RawConnection>) -> (connection: Option<ConnectionInfo>)
    ensures
        optional_connection(connection) == connection_of(raw),
{
    match raw {
        Some((network_type, address_type, address)) => Some(
            ConnectionInfo { network_type, address_type, address },
        ),
        None => None,
    }
}

impl SessionInfo {
    /// Reads a session description. The error is the message of the parser.
    pub fn parse(text: &str) -> (session: Result<SessionInfo, String>)
        ensures
            match session {
                Ok(session) => unmarshalled(text@) == Ok::<SessionModel, Seq<char>>(session@),
                Err(error) => unmarshalled(text@) == Err::<SessionModel, Seq<char>>(error@),
            },
    {
        match unmarshal(text) {
            Ok(raw) => Ok(SessionInfo::from_raw(raw)),
            Err(error) => Err(error),
        }
    }

    /// Gives names to the parts of a session.
    pub fn from_raw(raw: RawSession) -> (session: SessionInfo)
        ensures
            session@ == session_of(raw),
    {
        let ghost whole = raw;
        let (name, id, version, origin, connection, streams) = raw;
        let mut streams = streams;
        let mut media: Vec<MediaInfo> = Vec::new();
        let ghost all = streams@;
        while streams.len() > 0
            invariant
                streams@.len() + media@.len() == all.len(),
                forall|i: int| 0 <= i < streams@.len() ==> #[trigger] streams@[i] == all[i],
                forall|i: int|
                    0 <= i < media@.len() ==> (#[trigger] media@[i])@ == media_of(
                        all[streams@.len() + i],
                    ),
            decreases streams@.len(),
        {
            let ghost later = media@;
            match streams.pop() {
                Some((kind, port, protos, formats, connection, attributes)) => {
                    let connection = connection_info(connection);
                    media.insert(
                        0,
                        MediaInfo { media: kind, port, protos, formats, connection, attributes },
                    );
                    proof {
                        assert forall|i: int| 0 <= i < media@.len() implies (
                        #[trigger] media@[i])@ == media_of(all[streams@.len() + i]) by {
                            if i > 0 {
                                assert(media@[i] == later[i - 1]);
                            }
                        }
                    }
                },
                None => {},
            }
        }
        let session = SessionInfo {
            name,
            id,
            version,
            origin,
            connection: connection_info(connection),
            media,
        };
        proof {
            assert(session@.media =~= session_of(whole).media);
        }
        session
    }

    /// The text of the `ptime` attribute of the first stream.
    pub fn packet_time(&self) -> (text: Option<&str>)
        ensures
            optional_str(text) == self@.stream_attribute("ptime"@),
    {
        if self.media.len() > 0 {
            self.media[0].attribute("ptime")
        } else {
            None
        }
    }
}

impl SessionModel {
    /// The value of an attribute of the first stream.
    pub open spec fn stream_attribute(self, key: Seq<char>) -> Option<Seq<char>> {
        if self.media.len() > 0 {
            attribute_in(self.media[0].attributes, key)
        } else {
            None
        }
    }

    /// What the first stream says of its payload type, where it has a match.
    pub open spec fn rtpmap_groups(self) -> Option<Seq<Option<Seq<char>>>> {
        match self.stream_attribute("rtpmap"@) {
            Some(text) => regex_groups(RTPMAP_REGEX@, text),
            None => None,
        }
    }

    /// What the first stream says of its clock, where it has a match.
    pub open spec fn mediaclk_groups(self) -> Option<Seq<Option<Seq<char>>>> {
        match self.stream_attribute("mediaclk"@) {
            Some(text) => regex_groups(MEDIACLK_REGEX@, text),
            None => None,
        }
    }

    /// What the first stream says of its payload type.
    pub open spec fn rtpmap(self) -> Option<RtpMapModel> {
        match self.rtpmap_groups() {
            Some(groups) => rtpmap_in(groups),
            None => None,
        }
    }

    /// The offset of the clock of the first stream.
    pub open spec fn clock_offset(self) -> Option<u32> {
        match self.mediaclk_groups() {
            Some(groups) => clock_offset_in(groups),
            None => None,
        }
    }

    /// Whether the numbers of the first stream that are read fit into their
    /// types. Those of its clock are read where nothing is wrong before that.
    pub open spec fn numbers_fit(self, packet_time: Option<Millis>) -> bool {
        &&& self.media.len() > 0 && self.media[0].formats.len() > 0 && self.rtpmap_groups() is Some
            ==> self.rtpmap() is Some
        &&& self.reaches_clock(packet_time) && self.mediaclk_groups() is Some
            ==> self.clock_offset() is Some
    }

    /// Whether one of the numbers of the first stream is too large for its type.
    pub open spec fn number_exceeds(self) -> bool {
        ||| self.rtpmap_groups() matches Some(groups) && (exceeds(groups[2], usize::MAX as nat)
            || exceeds(groups[3], usize::MAX as nat) || exceeds(groups[4], usize::MAX as nat))
        ||| self.mediaclk_groups() matches Some(groups) && exceeds(groups[1], u32::MAX as nat)
    }

    /// Whether nothing is wrong with what is read before the clock.
    pub open spec fn reaches_clock(self, packet_time: Option<Millis>) -> bool {
        &&& self.media.len() > 0
        &&& self.media[0].formats.len() > 0
        &&& self.rtpmap() matches Some(rtpmap) && rtpmap.payload_type == self.media[0].formats[0]
        &&& packet_time is Some
    }

    /// The description of a receiver of the first stream, or what is wrong
    /// with the session. What the attributes say is given.
    pub open spec fn described(
        self,
        receiver_id: ReceiverId,
        link_offset: Millis,
        rtpmap: Option<RtpMapModel>,
        packet_time: Option<Millis>,
        clock_offset: Option<u32>,
        origin_ip: Result<IpAddress, Seq<char>>,
    ) -> Result<DescriptorModel, RxErrorModel> {
        if self.media.len() == 0 {
            Err(RxErrorModel::InvalidSdp("no media description found"@))
        } else if self.media[0].formats.len() == 0 {
            Err(RxErrorModel::InvalidSdp("no media format found"@))
        } else if self.stream_attribute("rtpmap"@) is None {
            Err(RxErrorModel::InvalidSdp("no rtpmap found"@))
        } else if rtpmap is None {
            Err(RxErrorModel::InvalidSdp("malformed rtpmap"@))
        } else if rtpmap->0.payload_type != self.media[0].formats[0] {
            Err(
                RxErrorModel::InvalidSdp(
                    "rtpmap and media description payload types do not match"@,
                ),
            )
        } else if packet_time is None {
            Err(RxErrorModel::InvalidSdp("no ptime"@))
        } else if self.stream_attribute("mediaclk"@) is None {
            Err(RxErrorModel::InvalidSdp("mediaclk"@))
        } else if clock_offset is None {
            Err(RxErrorModel::InvalidSdp("malformed mediaclk"@))
        } else {
            match origin_ip {
                Err(error) => Err(RxErrorModel::Other("error parsing origin IP: "@ + error)),
                Ok(origin_ip) => Ok(
                    DescriptorModel {
                        id: receiver_id,
                        session_name: self.name,
                        session_id: self.id,
                        session_version: self.version,
                        bit_depth: rtpmap->0.bit_depth,
                        channels: rtpmap->0.channels,
                        sampling_rate: rtpmap->0.sampling_rate,
                        packet_time: packet_time->0,
                        link_offset,
                        origin_ip,
                        rtp_offset: clock_offset->0,
                    },
                ),
            }
        }
    }
}

/// The value of a description or of the error in its place.
pub open spec fn description_outcome(result: Result<RxDescriptor, RxError>) -> Result<
    DescriptorModel,
    RxErrorModel,
> {
    match result {
        Ok(desc) => Ok(desc@),
        Err(error) => Err(error@),
    }
}

/// The value of a result whose error is a text.
pub open spec fn address_outcome(result: Result<IpAddress, String>) -> Result<
    IpAddress,
    Seq<char>,
> {
    match result {
        Ok(ip) => Ok(ip),
        Err(error) => Err(error@),
    }
}

/// The value of what an `rtpmap` attribute says.
pub open spec fn optional_rtpmap(rtpmap: Option<RtpMap>) -> Option<RtpMapModel> {
    match rtpmap {
        Some(rtpmap) => Some(rtpmap@),
        None => None,
    }
}

fn invalid_sdp(text: &str) -> (error: Result<RxDescriptor, RxError>)
    ensures
        description_outcome(error) == Err::<DescriptorModel, RxErrorModel>(
            RxErrorModel::InvalidSdp(text@),
        ),
{
    Err(RxError::InvalidSdp(text.to_owned()))
}

impl RxDescriptor {
    /// The text that identifies the version of a session that is described.
    pub fn session_id_from_sdp(sdp: &SessionInfo) -> (id: String)
        ensures
            id@ == session_text(sdp.id, sdp.version),
    {
        session_id_text(sdp.id, sdp.version)
    }

    /// Describes a receiver of the first stream of a session, given what the
    /// attributes of the stream say and which address the origin has.
    pub fn describe(
        receiver_id: ReceiverId,
        sd: &SessionInfo,
        link_offset: Millis,
        rtpmap: Option<RtpMap>,
        packet_time: Option<Millis>,
        clock_offset: Option<u32>,
        origin_ip: Result<IpAddress, String>,
    ) -> (desc: Result<RxDescriptor, RxError>)
        ensures
            description_outcome(desc) == sd@.described(
                receiver_id,
                link_offset,
                optional_rtpmap(rtpmap),
                packet_time,
                clock_offset,
                address_outcome(origin_ip),
            ),
    {
        if sd.media.len() == 0 {
            return invalid_sdp("no media description found");
        }
        let media = &sd.media[0];
        assert(sd@.media[0] == media@);
        if media.formats.len() == 0 {
            return invalid_sdp("no media format found");
        }
        let fmt = &media.formats[0];
        assert(sd@.media[0].formats[0] == fmt@);
        if media.attribute("rtpmap").is_none() {
            return invalid_sdp("no rtpmap found");
        }
        let rtpmap = match rtpmap {
            Some(rtpmap) => rtpmap,
            None => {
                return invalid_sdp("malformed rtpmap");
            },
        };
        if !same_text(rtpmap.payload_type.as_str(), fmt.as_str()) {
            return invalid_sdp("rtpmap and media description payload types do not match");
        }
        let packet_time = match packet_time {
            Some(packet_time) => packet_time,
            None => {
                return invalid_sdp("no ptime");
            },
        };
        if media.attribute("mediaclk").is_none() {
            return invalid_sdp("mediaclk");
        }
        let rtp_offset = match clock_offset {
            Some(offset) => offset,
            None => {
                return invalid_sdp("malformed mediaclk");
            },
        };
        let origin_ip = match origin_ip {
            Ok(ip) => ip,
            Err(error) => {
                return Err(
                    RxError::Other(concat("error parsing origin IP: ", error.as_str())),
                );
            },
        };
        Ok(
            RxDescriptor {
                id: receiver_id,
                session_name: sd.name.clone(),
                session_id: sd.id,
                session_version: sd.version,
                bit_depth: rtpmap.bit_depth,
                channels: rtpmap.channels,
                sampling_rate: rtpmap.sampling_rate,
                packet_time,
                link_offset,
                origin_ip,
                rtp_offset,
            },
        )
    }

    /// Describes a receiver of the first stream of a session, given its packet
    /// time and the address of its origin. The numbers in the attributes of
    /// the stream have to fit into their types.
    pub fn new(
        receiver_id: ReceiverId,
        sd: &SessionInfo,
        link_offset: Millis,
        packet_time: Option<Millis>,
        origin_ip: Result<IpAddress, String>,
    ) -> (desc: Result<RxDescriptor, RxError>)
        requires
            sd@.numbers_fit(packet_time),
        ensures
            description_outcome(desc) == sd@.described(
                receiver_id,
                link_offset,
                sd@.rtpmap(),
                packet_time,
                sd@.clock_offset(),
                address_outcome(origin_ip),
            ),
    {
        let rtpmap = sd.read_stream_rtpmap();
        let clock_offset = sd.read_stream_clock_offset();
        RxDescriptor::describe(
            receiver_id,
            sd,
            link_offset,
            rtpmap,
            packet_time,
            clock_offset,
            origin_ip,
        )
    }

    /// Describes a receiver of the first stream of a session, where the
    /// numbers in the attributes of the stream fit into their types. There is
    /// no description where one of them is too large.
    pub fn try_new(
        receiver_id: ReceiverId,
        sd: &SessionInfo,
        link_offset: Millis,
        packet_time: Option<Millis>,
        origin_ip: Result<IpAddress, String>,
    ) -> (desc: Option<Result<RxDescriptor, RxError>>)
        ensures
            match desc {
                Some(desc) => sd@.numbers_fit(packet_time) && description_outcome(desc)
                    == sd@.described(
                    receiver_id,
                    link_offset,
                    sd@.rtpmap(),
                    packet_time,
                    sd@.clock_offset(),
                    address_outcome(origin_ip),
                ),
                None => !sd@.numbers_fit(packet_time) && sd@.number_exceeds(),
            },
    {
        if sd.numbers_fit(packet_time) {
            Some(RxDescriptor::new(receiver_id, sd, link_offset, packet_time, origin_ip))
        } else {
            None
        }
    }
}

impl SessionInfo {
    fn match_stream(&self, key: &str, pattern: &str) -> (groups: Option<Vec<Option<String>>>)
        ensures
            groups_in(groups) == (match self@.stream_attribute(key@) {
                Some(text) => regex_groups(pattern@, text),
                None => None,
            }),
            pattern@ == RTPMAP_REGEX@ && groups is Some ==> numbers_follow(
                groups_in(groups)->0,
                4,
            ),
            pattern@ == MEDIACLK_REGEX@ && groups is Some ==> numbers_follow(
                groups_in(groups)->0,
                1,
            ),
    {
        if self.media.len() == 0 {
            return None;
        }
        assert(self@.media[0] == self.media@[0]@);
        match self.media[0].attribute(key) {
            Some(text) => captures(pattern, text),
            None => None,
        }
    }

    fn read_stream_rtpmap(&self) -> (rtpmap: Option<RtpMap>)
        ensures
            optional_rtpmap(rtpmap) == self@.rtpmap(),
    {
        match self.match_stream("rtpmap", RTPMAP_REGEX) {
            Some(groups) => read_rtpmap(&groups),
            None => None,
        }
    }

    fn read_stream_clock_offset(&self) -> (offset: Option<u32>)
        ensures
            offset == self@.clock_offset(),
    {
        match self.match_stream("mediaclk", MEDIACLK_REGEX) {
            Some(groups) => read_clock_offset(&groups),
            None => None,
        }
    }

    /// Whether the numbers in the attributes of the first stream fit into
    /// their types, as far as they are read. Where they do not, one of them is
    /// too large: what stands in their place is always a number.
    pub fn numbers_fit(&self, packet_time: Option<Millis>) -> (fit: bool)
        ensures
            fit == self@.numbers_fit(packet_time),
            !fit ==> self@.number_exceeds(),
    {
        if self.media.len() == 0 {
            return true;
        }
        assert(self@.media[0] == self.media@[0]@);
        if self.media[0].formats.len() == 0 {
            return true;
        }
        assert(self@.media[0].formats[0] == self.media@[0].formats@[0]@);
        match self.match_stream("rtpmap", RTPMAP_REGEX) {
            Some(groups) => match read_rtpmap(&groups) {
                Some(rtpmap) => if same_text(
                    rtpmap.payload_type.as_str(),
                    self.media[0].formats[0].as_str(),
                ) && packet_time.is_some() {
                    match self.match_stream("mediaclk", MEDIACLK_REGEX) {
                        Some(groups) => read_clock_offset(&groups).is_some(),
                        None => true,
                    }
                } else {
                    true
                },
                None => false,
            },
            None => true,
        }
    }
}

/// The value of an attribute is that of the first one with the key, also where
/// that one has no value. There is none where no attribute has the key.
pub proof fn lemma_first_attribute_counts(
    attributes: Seq<(Seq<char>, Option<Seq<char>>)>,
    key: Seq<char>,
    i: int,
)
    ensures
        0 <= i < attributes.len() && attributes[i].0 == key && (forall|k: int|
            0 <= k < i ==> (#[trigger] attributes[k]).0 != key) ==> attribute_in(attributes, key)
            == attributes[i].1,
        (forall|k: int| 0 <= k < attributes.len() ==> (#[trigger] attributes[k]).0 != key)
            ==> attribute_in(attributes, key) is None,
    decreases attributes.len(),
{
    if attributes.len() > 0 && attributes[0].0 != key {
        let rest = attributes.drop_first();
        lemma_first_attribute_counts(rest, key, i - 1);
        if 0 < i < attributes.len() {
            assert(rest[i - 1] == attributes[i]);
        }
        if forall|k: int| 0 <= k < i ==> (#[trigger] attributes[k]).0 != key {
            assert forall|k: int| 0 <= k < i - 1 && k < rest.len() implies (#[trigger] rest[k]).0
                != key by {
                assert(rest[k] == attributes[k + 1]);
            }
        }
        if forall|k: int| 0 <= k < attributes.len() ==> (#[trigger] attributes[k]).0 != key {
            assert forall|k: int| 0 <= k < rest.len() implies (#[trigger] rest[k]).0 != key by {
                assert(rest[k] == attributes[k + 1]);
            }
        }
    }
}

/// What the parts of an `rtpmap` attribute say, in their order: the payload type,
/// which is taken as it is, then the bit depth, the sample rate and the number of
/// channels. A number that was written is read again, and what is no number, or
/// one that is too large, makes all of it unreadable.
pub proof fn lemma_parts_of_an_rtpmap(
    whole: Option<Seq<char>>,
    payload_type: Seq<char>,
    bit_depth: nat,
    sampling_rate: nat,
    channels: nat,
)
    ensures
        ({
            let read = rtpmap_in(
                seq![
                    whole,
                    Some(payload_type),
                    Some(decimal(bit_depth)),
                    Some(decimal(sampling_rate)),
                    Some(decimal(channels)),
                ],
            );
            &&& read is Some <==> bit_depth <= usize::MAX && sampling_rate <= usize::MAX && channels
                <= usize::MAX
            &&& read matches Some(rtpmap) ==> {
                &&& rtpmap.payload_type == payload_type
                &&& rtpmap.bit_depth == bit_depth
                &&& rtpmap.sampling_rate == sampling_rate
                &&& rtpmap.channels == channels
            }
        }),
{
    lemma_decimal_value(bit_depth);
    lemma_decimal_value(sampling_rate);
    lemma_decimal_value(channels);
}

/// The part of a `mediaclk` attribute that follows the whole is the offset. A
/// number that was written is read again, where 32 bits are enough for it.
pub proof fn lemma_part_of_a_mediaclk(whole: Option<Seq<char>>, offset: nat)
    ensures
        ({
            let read = clock_offset_in(seq![whole, Some(decimal(offset))]);
            &&& read is Some <==> offset < 0x1_0000_0000
            &&& read matches Some(number) ==> number == offset
        }),
{
    lemma_decimal_value(offset);
}

/// A match whose groups are numbers can be read unless one of them is too large.
pub proof fn lemma_only_large_numbers_cannot_be_read(groups: Seq<Option<Seq<char>>>)
    ensures
        numbers_follow(groups, 4) ==> (rtpmap_in(groups) is None <==> exceeds(
            groups[2],
            usize::MAX as nat,
        ) || exceeds(groups[3], usize::MAX as nat) || exceeds(groups[4], usize::MAX as nat)),
        numbers_follow(groups, 1) ==> (clock_offset_in(groups) is None <==> exceeds(
            groups[1],
            u32::MAX as nat,
        )),
{
    if numbers_follow(groups, 4) {
        assert(groups[1] is Some);
        assert(groups[2] is Some && decimal_number(groups[2]->0) is Some);
        assert(groups[3] is Some && decimal_number(groups[3]->0) is Some);
        assert(groups[4] is Some && decimal_number(groups[4]->0) is Some);
    }
    if numbers_follow(groups, 1) {
        assert(groups[1] is Some && decimal_number(groups[1]->0) is Some);
    }
}

/// A session can be received where it has a stream with a format, the attributes
/// of the first stream are there and can be read, the payload type of its first
/// format is the one that they speak of, and the origin has an address.
pub proof fn lemma_when_a_session_can_be_received(
    session: SessionModel,
    receiver_id: ReceiverId,
    link_offset: Millis,
    rtpmap: Option<RtpMapModel>,
    packet_time: Option<Millis>,
    clock_offset: Option<u32>,
    origin_ip: Result<IpAddress, Seq<char>>,
)
    ensures
        session.described(
            receiver_id,
            link_offset,
            rtpmap,
            packet_time,
            clock_offset,
            origin_ip,
        ) is Ok <==> {
            &&& session.media.len() > 0
            &&& session.media[0].formats.len() > 0
            &&& attribute_in(session.media[0].attributes, "rtpmap"@) is Some
            &&& rtpmap is Some
            &&& rtpmap->0.payload_type == session.media[0].formats[0]
            &&& packet_time is Some
            &&& attribute_in(session.media[0].attributes, "mediaclk"@) is Some
            &&& clock_offset is Some
            &&& origin_ip is Ok
        },
        session.described(
            receiver_id,
            link_offset,
            rtpmap,
            packet_time,
            clock_offset,
            origin_ip,
        ) matches Ok(desc) ==> {
            &&& desc.id == receiver_id
            &&& desc.session_name == session.name
            &&& desc.session_id == session.id
            &&& desc.session_version == session.version
            &&& rtpmap matches Some(map) && desc.bit_depth == map.bit_depth && desc.channels
                == map.channels && desc.sampling_rate == map.sampling_rate
            &&& Some(desc.packet_time) == packet_time
            &&& desc.link_offset == link_offset
            &&& origin_ip matches Ok(ip) && desc.origin_ip == ip
            &&& Some(desc.rtp_offset) == clock_offset
        },
{
}

/// Why a session cannot be received: what is looked at first is what is told. The
/// stream comes first, then its format, its `rtpmap`, its packet time and its
/// clock, and the address of the origin comes last.
pub proof fn lemma_why_a_session_cannot_be_received(
    session: SessionModel,
    receiver_id: ReceiverId,
    link_offset: Millis,
    rtpmap: RtpMapModel,
    packet_time: Millis,
    clock_offset: u32,
    any_rtpmap: Option<RtpMapModel>,
    any_packet_time: Option<Millis>,
    any_clock_offset: Option<u32>,
    any_ip: Result<IpAddress, Seq<char>>,
)
    ensures
        session.media.len() == 0 ==> session.described(
            receiver_id,
            link_offset,
            any_rtpmap,
            any_packet_time,
            any_clock_offset,
            any_ip,
        ) == Err::<DescriptorModel, RxErrorModel>(
            RxErrorModel::InvalidSdp("no media description found"@),
        ),
        session.media.len() > 0 && session.media[0].formats.len() == 0 ==> session.described(
            receiver_id,
            link_offset,
            any_rtpmap,
            any_packet_time,
            any_clock_offset,
            any_ip,
        ) == Err::<DescriptorModel, RxErrorModel>(
            RxErrorModel::InvalidSdp("no media format found"@),
        ),
        session.media.len() > 0 && session.media[0].formats.len() > 0 ==> ({
            let map = attribute_in(session.media[0].attributes, "rtpmap"@);
            let clock = attribute_in(session.media[0].attributes, "mediaclk"@);
            let matches_format = rtpmap.payload_type == session.media[0].formats[0];
            &&& map is None ==> session.described(
                receiver_id,
                link_offset,
                any_rtpmap,
                any_packet_time,
                any_clock_offset,
                any_ip,
            ) == Err::<DescriptorModel, RxErrorModel>(RxErrorModel::InvalidSdp("no rtpmap found"@))
            &&& map is Some ==> session.described(
                receiver_id,
                link_offset,
                None,
                any_packet_time,
                any_clock_offset,
                any_ip,
            ) == Err::<DescriptorModel, RxErrorModel>(
                RxErrorModel::InvalidSdp("malformed rtpmap"@),
            )
            &&& map is Some && !matches_format ==> session.described(
                receiver_id,
                link_offset,
                Some(rtpmap),
                any_packet_time,
                any_clock_offset,
                any_ip,
            ) == Err::<DescriptorModel, RxErrorModel>(
                RxErrorModel::InvalidSdp(
                    "rtpmap and media description payload types do not match"@,
                ),
            )
            &&& map is Some && matches_format ==> session.described(
                receiver_id,
                link_offset,
                Some(rtpmap),
                None,
                any_clock_offset,
                any_ip,
            ) == Err::<DescriptorModel, RxErrorModel>(RxErrorModel::InvalidSdp("no ptime"@))
            &&& map is Some && matches_format && clock is None ==> session.described(
                receiver_id,
                link_offset,
                Some(rtpmap),
                Some(packet_time),
                any_clock_offset,
                any_ip,
            ) == Err::<DescriptorModel, RxErrorModel>(RxErrorModel::InvalidSdp("mediaclk"@))
            &&& map is Some && matches_format && clock is Some ==> session.described(
                receiver_id,
                link_offset,
                Some(rtpmap),
                Some(packet_time),
                None,
                any_ip,
            ) == Err::<DescriptorModel, RxErrorModel>(
                RxErrorModel::InvalidSdp("malformed mediaclk"@),
            )
            &&& map is Some && matches_format && clock is Some && any_ip is Err
                ==> session.described(
                receiver_id,
                link_offset,
                Some(rtpmap),
                Some(packet_time),
                Some(clock_offset),
                any_ip,
            ) == Err::<DescriptorModel, RxErrorModel>(
                RxErrorModel::Other("error parsing origin IP: "@ + any_ip->Err_0),
            )
        }),
{
}

/// Only the first stream of a session counts: others, whatever they are, make no
/// difference to what is described.
pub proof fn lemma_only_the_first_stream_counts(
    session: SessionModel,
    others: Seq<MediaModel>,
    receiver_id: ReceiverId,
    link_offset: Millis,
    packet_time: Option<Millis>,
    origin_ip: Result<IpAddress, Seq<char>>,
)
    requires
        session.media.len() == 1,
    ensures
        ({
            let more = SessionModel { media: session.media + others, ..session };
            &&& more.rtpmap() == session.rtpmap()
            &&& more.clock_offset() == session.clock_offset()
            &&& more.numbers_fit(packet_time) == session.numbers_fit(packet_time)
            &&& more.described(
                receiver_id,
                link_offset,
                more.rtpmap(),
                packet_time,
                more.clock_offset(),
                origin_ip,
            ) == session.described(
                receiver_id,
                link_offset,
                session.rtpmap(),
                packet_time,
                session.clock_offset(),
                origin_ip,
            )
        }),
{
}

/// What a session says is found in the first attribute of its kind: the payload
/// type and the format in what the pattern for it finds in the `rtpmap`, and the
/// offset in what the other pattern finds in the `mediaclk`. Nothing is found where
/// the attribute is missing or the pattern does not match, and neither attribute
/// makes a difference to what the other one says.
pub proof fn lemma_where_attributes_are_found(
    session: SessionModel,
    rtpmap: Seq<char>,
    mediaclk: Seq<char>,
)
    ensures
        session.media.len() == 0 ==> session.rtpmap() is None && session.clock_offset() is None,
        session.media.len() > 0 ==> ({
            let map = attribute_in(session.media[0].attributes, "rtpmap"@);
            let clock = attribute_in(session.media[0].attributes, "mediaclk"@);
            &&& map is None ==> session.rtpmap() is None
            &&& map == Some(rtpmap) && regex_groups(RTPMAP_REGEX@, rtpmap) is None
                ==> session.rtpmap() is None
            &&& map == Some(rtpmap) && regex_groups(RTPMAP_REGEX@, rtpmap) is Some
                ==> session.rtpmap() == rtpmap_in(regex_groups(RTPMAP_REGEX@, rtpmap)->0)
            &&& clock is None ==> session.clock_offset() is None
            &&& clock == Some(mediaclk) && regex_groups(MEDIACLK_REGEX@, mediaclk) is None
                ==> session.clock_offset() is None
            &&& clock == Some(mediaclk) && regex_groups(MEDIACLK_REGEX@, mediaclk) is Some
                ==> session.clock_offset() == clock_offset_in(
                regex_groups(MEDIACLK_REGEX@, mediaclk)->0,
            )
        }),
{
}

/// Numbers do not fit where the pattern for the `rtpmap` matches but what it finds
/// cannot be read, or where the one for the `mediaclk` does so while nothing is
/// wrong before it. Where the first stream has no format, or there is none,
/// nothing is read. The numbers of the clock do not matter where the payload types
/// differ or there is no packet time, as the clock is not looked at then.
pub proof fn lemma_when_numbers_fit(session: SessionModel, packet_time: Option<Millis>)
    ensures
        session.media.len() == 0 ==> session.numbers_fit(packet_time),
        session.media.len() > 0 && session.media[0].formats.len() == 0 ==> session.numbers_fit(
            packet_time,
        ),
        session.media.len() > 0 && session.media[0].formats.len() > 0 ==> ({
            let map_found = session.rtpmap_groups() is Some;
            let clock_found = session.mediaclk_groups() is Some;
            &&& map_found && session.rtpmap() is None ==> !session.numbers_fit(packet_time)
            &&& !map_found ==> session.numbers_fit(packet_time)
            &&& map_found && session.rtpmap() is Some && (session.rtpmap()->0.payload_type
                != session.media[0].formats[0] || packet_time is None) ==> session.numbers_fit(
                packet_time,
            )
            &&& map_found && session.rtpmap() is Some && session.rtpmap()->0.payload_type
                == session.media[0].formats[0] && packet_time is Some ==> (session.numbers_fit(
                packet_time,
            ) <==> !clock_found || session.clock_offset() is Some)
        }),
{
}

} // verus!
