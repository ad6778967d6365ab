//! What the sound card publishes of its state, and under which keys.

use crate::descriptor::{DescriptorModel, RxDescriptor};
use crate::duration::Millis;
use crate::format::{ReceiverId, SampleFormat};
use crate::matrix::Channel;
use crate::media_clock::MediaClockTimestamp;
use crate::network::SocketAddress;
use crate::session::optional_text;
use crate::text::{decimal, is_digit, lemma_decimal_digits, lemma_decimal_value};
use crate::topic::{below, below_number, under, under_number};
use vstd::prelude::*;

verus! {

/// A change of state.
#[derive(Debug)]
pub enum Status {
    UsedInputChannels(usize, usize),
    UsedOutputChannels(usize, usize),
    Receiver(Receiver),
    Output(Output),
}

/// A change of the state of a transmitter.
#[derive(Debug)]
pub enum Transmitter {
    Sdp(ReceiverId, String),
}

/// A change of the state of a receiver.
#[derive(Debug)]
pub enum Receiver {
    Created(RxDescriptor, Option<String>),
    Deleted(RxDescriptor),
    LinkOffset(ReceiverId, usize),
    MulticastAddress(ReceiverId, SocketAddress),
    PacketTime(ReceiverId, usize),
    SessionIdAndVersion(ReceiverId, u64, u64),
    SessionName(ReceiverId, String),
    Sdp(ReceiverId, String),
    Meter(ReceiverId, usize, u16),
    BufferUnderrun(Channel, MediaClockTimestamp),
    BufferOverflow(Channel, MediaClockTimestamp),
    BufferUsage(ReceiverId, usize, usize, usize),
    DroppedPackets(ReceiverId, usize),
    OutOfOrderPackets(ReceiverId, usize),
}

/// A change of the state of an output.
#[derive(Debug)]
pub enum Output {
    Meter(usize, usize, u16),
    BufferUnderrun(usize, MediaClockTimestamp),
    BufferOverflow(usize, MediaClockTimestamp),
}

/// The mathematical value of a `Status`.
pub enum StatusModel {
    UsedInputChannels(usize, usize),
    UsedOutputChannels(usize, usize),
    Receiver(ReceiverModel),
    Output(Output),
}

/// The mathematical value of a `Receiver`.
pub enum ReceiverModel {
    Created(DescriptorModel, Option<Seq<char>>),
    Deleted(DescriptorModel),
    LinkOffset(ReceiverId, usize),
    MulticastAddress(ReceiverId, SocketAddress),
    PacketTime(ReceiverId, usize),
    SessionIdAndVersion(ReceiverId, u64, u64),
    SessionName(ReceiverId, Seq<char>),
    Sdp(ReceiverId, Seq<char>),
    Meter(ReceiverId, usize, u16),
    BufferUnderrun(Channel, MediaClockTimestamp),
    BufferOverflow(Channel, MediaClockTimestamp),
    BufferUsage(ReceiverId, usize, usize, usize),
    DroppedPackets(ReceiverId, usize),
    OutOfOrderPackets(ReceiverId, usize),
}

impl View for Receiver {
    type V = ReceiverModel;

    open spec fn view(&self) -> ReceiverModel {
        match self {
            Receiver::Created(desc, sdp) => ReceiverModel::Created(desc@, optional_text(*sdp)),
            Receiver::Deleted(desc) => ReceiverModel::Deleted(desc@),
            Receiver::LinkOffset(id, value) => ReceiverModel::LinkOffset(*id, *value),
            Receiver::MulticastAddress(id, value) => ReceiverModel::MulticastAddress(*id, *value),
            Receiver::PacketTime(id, value) => ReceiverModel::PacketTime(*id, *value),
            Receiver::SessionIdAndVersion(id, session, version) =>
                ReceiverModel::SessionIdAndVersion(*id, *session, *version),
            Receiver::SessionName(id, name) => ReceiverModel::SessionName(*id, name@),
            Receiver::Sdp(id, sdp) => ReceiverModel::Sdp(*id, sdp@),
            Receiver::Meter(id, channel, value) => ReceiverModel::Meter(*id, *channel, *value),
            Receiver::BufferUnderrun(channel, at) => ReceiverModel::BufferUnderrun(*channel, *at),
            Receiver::BufferOverflow(channel, at) => ReceiverModel::BufferOverflow(*channel, *at),
            Receiver::BufferUsage(id, used, size, percent) => ReceiverModel::BufferUsage(
                *id,
                *used,
                *size,
                *percent,
            ),
            Receiver::DroppedPackets(id, count) => ReceiverModel::DroppedPackets(*id, *count),
            Receiver::OutOfOrderPackets(id, count) => ReceiverModel::OutOfOrderPackets(
                *id,
                *count,
            ),
        }
    }
}

impl View for Status {
    type V = StatusModel;

    open spec fn view(&self) -> StatusModel {
        match self {
            Status::UsedInputChannels(used, max) => StatusModel::UsedInputChannels(*used, *max),
            Status::UsedOutputChannels(used, max) => StatusModel::UsedOutputChannels(*used, *max),
            Status::Receiver(receiver) => StatusModel::Receiver(receiver@),
            Status::Output(output) => StatusModel::Output(*output),
        }
    }
}

/// The values of a list of changes of state.
pub open spec fn statuses(list: Seq<Status>) -> Seq<StatusModel> {
    list.map_values(|status: Status| status@)
}

/// A value that is stored under a key.
#[derive(Debug)]
pub enum StatusValue {
    Count(usize),
    Number(u64),
    Level(u16),
    Timestamp(u32),
    Text(String),
    Duration(Millis),
    Format(Option<SampleFormat>),
    Address(SocketAddress),
}

/// The mathematical value of a `StatusValue`.
pub enum StatusValueModel {
    Count(usize),
    Number(u64),
    Level(u16),
    Timestamp(u32),
    Text(Seq<char>),
    Duration(Millis),
    Format(Option<SampleFormat>),
    Address(SocketAddress),
}

impl View for StatusValue {
    type V = StatusValueModel;

    open spec fn view(&self) -> StatusValueModel {
        match self {
            StatusValue::Count(n) => StatusValueModel::Count(*n),
            StatusValue::Number(n) => StatusValueModel::Number(*n),
            StatusValue::Level(level) => StatusValueModel::Level(*level),
            StatusValue::Timestamp(timestamp) => StatusValueModel::Timestamp(*timestamp),
            StatusValue::Text(text) => StatusValueModel::Text(text@),
            StatusValue::Duration(duration) => StatusValueModel::Duration(*duration),
            StatusValue::Format(format) => StatusValueModel::Format(*format),
            StatusValue::Address(address) => StatusValueModel::Address(*address),
        }
    }
}

/// What is done in the key value store.
#[derive(Debug)]
pub enum Action {
    /// The values are stored.
    Store(Vec<(String, StatusValue)>),
    /// The values are handed to those who listen, and not stored.
    Publish(Vec<(String, StatusValue)>),
    /// What is stored under keys that match is removed.
    Delete(Vec<String>),
}

/// A key and its value.
pub type Entry = (Seq<char>, StatusValueModel);

/// The mathematical value of an `Action`.
pub enum ActionModel {
    Store(Seq<Entry>),
    Publish(Seq<Entry>),
    Delete(Seq<Seq<char>>),
}

/// The keys and values of a list.
pub open spec fn entries(list: Seq<(String, StatusValue)>) -> Seq<Entry> {
    list.map_values(|entry: (String, StatusValue)| (entry.0@, entry.1@))
}

/// The keys of a list.
pub open spec fn keys(list: Seq<String>) -> Seq<Seq<char>> {
    list.map_values(|key: String| key@)
}

impl View for Action {
    type V = ActionModel;

    open spec fn view(&self) -> ActionModel {
        match self {
            Action::Store(list) => ActionModel::Store(entries(list@)),
            Action::Publish(list) => ActionModel::Publish(entries(list@)),
            Action::Delete(list) => ActionModel::Delete(keys(list@)),
        }
    }
}

/// The key of a receiver.
pub open spec fn receiver_key(id: ReceiverId) -> Seq<char> {
    under_number("receivers"@, id as nat)
}

/// The key of the configuration of a receiver.
pub open spec fn config_key(id: ReceiverId, part: Seq<char>) -> Seq<char> {
    under(under(receiver_key(id), "config"@), part)
}

/// The key of a version of a session.
pub open spec fn session_key(id: u64, version: u64, part: Seq<char>) -> Seq<char> {
    under(under_number(under_number("sessions"@, id as nat), version as nat), part)
}

/// The key of a part of the buffer of a receiver or an output.
pub open spec fn buffer_key(owner: Seq<char>, part: Seq<char>) -> Seq<char> {
    under(under(owner, "buffer"@), part)
}

/// What is stored of a receiver that was created.
pub open spec fn created_entries(desc: DescriptorModel, sdp: Option<Seq<char>>) -> Seq<Entry> {
    let id = desc.id;
    let session = |part: Seq<char>| under(config_key(id, "session"@), part);
    let entries = seq![
        (config_key(id, "sampleFormat"@), StatusValueModel::Format(desc.sample_format())),
        (config_key(id, "channels"@), StatusValueModel::Count(desc.channels)),
        (config_key(id, "packetTimeMs"@), StatusValueModel::Duration(desc.packet_time)),
        (config_key(id, "sampleRate"@), StatusValueModel::Count(desc.sampling_rate)),
        (session("id"@), StatusValueModel::Number(desc.session_id)),
        (session("version"@), StatusValueModel::Number(desc.session_version)),
        (session("name"@), StatusValueModel::Text(desc.session_name)),
        (
            session_key(desc.session_id, desc.session_version, "name"@),
            StatusValueModel::Text(desc.session_name),
        ),
        (
            session_key(desc.session_id, desc.session_version, "receiver"@),
            StatusValueModel::Count(id),
        ),
    ];
    match sdp {
        Some(sdp) => entries.push((config_key(id, "sdp"@), StatusValueModel::Text(sdp))),
        None => entries,
    }
}

/// What is done for a change of the state of a receiver.
pub open spec fn receiver_action(receiver: ReceiverModel) -> ActionModel {
    match receiver {
        ReceiverModel::Created(desc, sdp) => ActionModel::Store(created_entries(desc, sdp)),
        ReceiverModel::Deleted(desc) => ActionModel::Delete(
            seq![
                under(receiver_key(desc.id), "#"@),
                under(under_number("sessions"@, desc.session_id as nat), "#"@),
            ],
        ),
        ReceiverModel::LinkOffset(id, value) => ActionModel::Store(
            seq![(under(receiver_key(id), "linkOffsetMs"@), StatusValueModel::Count(value))],
        ),
        ReceiverModel::MulticastAddress(id, value) => ActionModel::Store(
            seq![(under(receiver_key(id), "multicastAddress"@), StatusValueModel::Address(value))],
        ),
        ReceiverModel::PacketTime(id, value) => ActionModel::Store(
            seq![(under(receiver_key(id), "packetTimeMs"@), StatusValueModel::Count(value))],
        ),
        ReceiverModel::SessionIdAndVersion(id, session, version) => ActionModel::Store(
            seq![
                (
                    under(under(receiver_key(id), "session"@), "id"@),
                    StatusValueModel::Number(session),
                ),
                (
                    under(under(receiver_key(id), "session"@), "version"@),
                    StatusValueModel::Number(version),
                ),
            ],
        ),
        ReceiverModel::SessionName(id, name) => ActionModel::Store(
            seq![
                (
                    under(under(receiver_key(id), "session"@), "name"@),
                    StatusValueModel::Text(name),
                ),
            ],
        ),
        ReceiverModel::Sdp(id, sdp) => ActionModel::Store(
            seq![(under(receiver_key(id), "sdp"@), StatusValueModel::Text(sdp))],
        ),
        ReceiverModel::Meter(id, channel, value) => ActionModel::Publish(
            seq![
                (
                    under_number(under(receiver_key(id), "meter"@), channel as nat),
                    StatusValueModel::Level(value),
                ),
            ],
        ),
        ReceiverModel::BufferUnderrun(channel, at) => ActionModel::Publish(
            seq![
                (
                    under_number(
                        buffer_key(receiver_key(channel.transceiver_id), "underrun"@),
                        channel.channel_nr as nat,
                    ),
                    StatusValueModel::Timestamp(at.timestamp),
                ),
            ],
        ),
        ReceiverModel::BufferOverflow(channel, at) => ActionModel::Publish(
            seq![
                (
                    under_number(
                        buffer_key(receiver_key(channel.transceiver_id), "overflow"@),
                        channel.channel_nr as nat,
                    ),
                    StatusValueModel::Timestamp(at.timestamp),
                ),
            ],
        ),
        ReceiverModel::BufferUsage(id, used, size, percent) => ActionModel::Publish(
            seq![
                (buffer_key(receiver_key(id), "size"@), StatusValueModel::Count(size)),
                (buffer_key(receiver_key(id), "used"@), StatusValueModel::Count(used)),
                (
                    under(buffer_key(receiver_key(id), "used"@), "percent"@),
                    StatusValueModel::Count(percent),
                ),
            ],
        ),
        ReceiverModel::DroppedPackets(id, count) => ActionModel::Publish(
            seq![
                (
                    under(under(receiver_key(id), "packets"@), "dropped"@),
                    StatusValueModel::Count(count),
                ),
            ],
        ),
        ReceiverModel::OutOfOrderPackets(id, count) => ActionModel::Publish(
            seq![
                (
                    under(under(receiver_key(id), "packets"@), "outOfOrder"@),
                    StatusValueModel::Count(count),
                ),
            ],
        ),
    }
}

/// What is done for a change of the state of an output.
pub open spec fn output_action(output: Output) -> ActionModel {
    match output {
        Output::Meter(id, channel, value) => ActionModel::Publish(
            seq![
                (
                    under_number(under(receiver_key(id), "meter"@), channel as nat),
                    StatusValueModel::Level(value),
                ),
            ],
        ),
        Output::BufferUnderrun(channel, at) => ActionModel::Publish(
            seq![
                (
                    buffer_key(under_number("outputs"@, channel as nat), "underrun"@),
                    StatusValueModel::Timestamp(at.timestamp),
                ),
            ],
        ),
        Output::BufferOverflow(channel, at) => ActionModel::Publish(
            seq![
                (
                    buffer_key(under_number("outputs"@, channel as nat), "overflow"@),
                    StatusValueModel::Timestamp(at.timestamp),
                ),
            ],
        ),
    }
}

/// The key of the channels that are in use, and of those that there are.
pub open spec fn resource_key(kind: Seq<char>, part: Seq<char>) -> Seq<char> {
    under(under("resources"@, kind), part)
}

/// What is done for a change of state.
pub open spec fn action_for(status: StatusModel) -> ActionModel {
    match status {
        StatusModel::UsedInputChannels(used, max) => ActionModel::Store(
            seq![
                (resource_key("inputChannels"@, "used"@), StatusValueModel::Count(used)),
                (resource_key("inputChannels"@, "max"@), StatusValueModel::Count(max)),
            ],
        ),
        StatusModel::UsedOutputChannels(used, max) => ActionModel::Store(
            seq![
                (resource_key("outputChannels"@, "used"@), StatusValueModel::Count(used)),
                (resource_key("outputChannels"@, "max"@), StatusValueModel::Count(max)),
            ],
        ),
        StatusModel::Receiver(receiver) => receiver_action(receiver),
        StatusModel::Output(output) => output_action(output),
    }
}

fn receiver_topic(id: ReceiverId) -> (key: String)
    ensures
        key@ == receiver_key(id),
{
    below_number("receivers".to_owned(), id as u64)
}

fn config_topic(id: ReceiverId, part: &str) -> (key: String)
    ensures
        key@ == config_key(id, part@),
{
    below(below(receiver_topic(id), "config"), part)
}

fn session_topic(id: u64, version: u64, part: &str) -> (key: String)
    ensures
        key@ == session_key(id, version, part@),
{
    below(below_number(below_number("sessions".to_owned(), id), version), part)
}

fn buffer_topic(owner: String, part: &str) -> (key: String)
    ensures
        key@ == buffer_key(owner@, part@),
{
    below(below(owner, "buffer"), part)
}

fn resource_topic(kind: &str, part: &str) -> (key: String)
    ensures
        key@ == resource_key(kind@, part@),
{
    below(below("resources".to_owned(), kind), part)
}

fn store_one(key: String, value: StatusValue) -> (action: Action)
    ensures
        action@ == ActionModel::Store(seq![(key@, value@)]),
{
    let list = vec![(key, value)];
    assert(entries(list@) =~= seq![(key@, value@)]);
    Action::Store(list)
}

fn publish_one(key: String, value: StatusValue) -> (action: Action)
    ensures
        action@ == ActionModel::Publish(seq![(key@, value@)]),
{
    let list = vec![(key, value)];
    assert(entries(list@) =~= seq![(key@, value@)]);
    Action::Publish(list)
}

fn created_action(desc: RxDescriptor, sdp: Option<String>) -> (action: Action)
    ensures
        action@ == ActionModel::Store(created_entries(desc@, optional_text(sdp))),
{
    let id = desc.id;
    let session_id = desc.session_id;
    let version = desc.session_version;
    let mut list = vec![
        (config_topic(id, "sampleFormat"), StatusValue::Format(desc.sample_format())),
        (config_topic(id, "channels"), StatusValue::Count(desc.channels)),
        (config_topic(id, "packetTimeMs"), StatusValue::Duration(desc.packet_time)),
        (config_topic(id, "sampleRate"), StatusValue::Count(desc.sampling_rate)),
        (below(config_topic(id, "session"), "id"), StatusValue::Number(session_id)),
        (below(config_topic(id, "session"), "version"), StatusValue::Number(version)),
        (
            below(config_topic(id, "session"), "name"),
            StatusValue::Text(desc.session_name.clone()),
        ),
        (
            session_topic(session_id, version, "name"),
            StatusValue::Text(desc.session_name.clone()),
        ),
        (session_topic(session_id, version, "receiver"), StatusValue::Count(id)),
    ];
    assert(entries(list@) =~= created_entries(desc@, None));
    match sdp {
        Some(sdp) => {
            list.push((config_topic(id, "sdp"), StatusValue::Text(sdp)));
            assert(entries(list@) =~= created_entries(desc@, Some(sdp@)));
        },
        None => {},
    }
    Action::Store(list)
}

fn deleted_action(desc: &RxDescriptor) -> (action: Action)
    ensures
        action@ == receiver_action(ReceiverModel::Deleted(desc@)),
{
    let list = vec![
        below(receiver_topic(desc.id), "#"),
        below(below_number("sessions".to_owned(), desc.session_id), "#"),
    ];
    assert(keys(list@) =~= receiver_action(ReceiverModel::Deleted(desc@))->Delete_0);
    Action::Delete(list)
}

fn usage_action(id: ReceiverId, used: usize, size: usize, percent: usize) -> (action: Action)
    ensures
        action@ == receiver_action(ReceiverModel::BufferUsage(id, used, size, percent)),
{
    let list = vec![
        (buffer_topic(receiver_topic(id), "size"), StatusValue::Count(size)),
        (buffer_topic(receiver_topic(id), "used"), StatusValue::Count(used)),
        (
            below(buffer_topic(receiver_topic(id), "used"), "percent"),
            StatusValue::Count(percent),
        ),
    ];
    assert(entries(list@) =~= receiver_action(
        ReceiverModel::BufferUsage(id, used, size, percent),
    )->Publish_0);
    Action::Publish(list)
}

fn session_action(id: ReceiverId, session: u64, version: u64) -> (action: Action)
    ensures
        action@ == receiver_action(ReceiverModel::SessionIdAndVersion(id, session, version)),
{
    let list = vec![
        (below(below(receiver_topic(id), "session"), "id"), StatusValue::Number(session)),
        (below(below(receiver_topic(id), "session"), "version"), StatusValue::Number(version)),
    ];
    assert(entries(list@) =~= receiver_action(
        ReceiverModel::SessionIdAndVersion(id, session, version),
    )->Store_0);
    Action::Store(list)
}

fn resource_action(kind: &str, used: usize, max: usize) -> (action: Action)
    ensures
        action@ == ActionModel::Store(
            seq![
                (resource_key(kind@, "used"@), StatusValueModel::Count(used)),
                (resource_key(kind@, "max"@), StatusValueModel::Count(max)),
            ],
        ),
{
    let list = vec![
        (resource_topic(kind, "used"), StatusValue::Count(used)),
        (resource_topic(kind, "max"), StatusValue::Count(max)),
    ];
    assert(entries(list@) =~= seq![
        (resource_key(kind@, "used"@), StatusValueModel::Count(used)),
        (resource_key(kind@, "max"@), StatusValueModel::Count(max)),
    ]);
    Action::Store(list)
}

fn receiver_to_action(receiver: Receiver) -> (action: Action)
    ensures
        action@ == receiver_action(receiver@),
{
    match receiver {
        Receiver::Created(desc, sdp) => created_action(desc, sdp),
        Receiver::Deleted(desc) => deleted_action(&desc),
        Receiver::LinkOffset(id, value) => store_one(
            below(receiver_topic(id), "linkOffsetMs"),
            StatusValue::Count(value),
        ),
        Receiver::MulticastAddress(id, value) => store_one(
            below(receiver_topic(id), "multicastAddress"),
            StatusValue::Address(value),
        ),
        Receiver::PacketTime(id, value) => store_one(
            below(receiver_topic(id), "packetTimeMs"),
            StatusValue::Count(value),
        ),
        Receiver::SessionIdAndVersion(id, session, version) => session_action(
            id,
            session,
            version,
        ),
        Receiver::SessionName(id, name) => store_one(
            below(below(receiver_topic(id), "session"), "name"),
            StatusValue::Text(name),
        ),
        Receiver::Sdp(id, sdp) => store_one(
            below(receiver_topic(id), "sdp"),
            StatusValue::Text(sdp),
        ),
        Receiver::Meter(id, channel, value) => publish_one(
            below_number(below(receiver_topic(id), "meter"), channel as u64),
            StatusValue::Level(value),
        ),
        Receiver::BufferUnderrun(channel, at) => publish_one(
            below_number(
                buffer_topic(receiver_topic(channel.transceiver_id), "underrun"),
                channel.channel_nr as u64,
            ),
            StatusValue::Timestamp(at.timestamp),
        ),
        Receiver::BufferOverflow(channel, at) => publish_one(
            below_number(
                buffer_topic(receiver_topic(channel.transceiver_id), "overflow"),
                channel.channel_nr as u64,
            ),
            StatusValue::Timestamp(at.timestamp),
        ),
        Receiver::BufferUsage(id, used, size, percent) => usage_action(id, used, size, percent),
        Receiver::DroppedPackets(id, count) => publish_one(
            below(below(receiver_topic(id), "packets"), "dropped"),
            StatusValue::Count(count),
        ),
        Receiver::OutOfOrderPackets(id, count) => publish_one(
            below(below(receiver_topic(id), "packets"), "outOfOrder"),
            StatusValue::Count(count),
        ),
    }
}

fn output_to_action(output: Output) -> (action: Action)
    ensures
        action@ == output_action(output),
{
    match output {
        Output::Meter(id, channel, value) => publish_one(
            below_number(below(receiver_topic(id), "meter"), channel as u64),
            StatusValue::Level(value),
        ),
        Output::BufferUnderrun(channel, at) => publish_one(
            buffer_topic(below_number("outputs".to_owned(), channel as u64), "underrun"),
            StatusValue::Timestamp(at.timestamp),
        ),
        Output::BufferOverflow(channel, at) => publish_one(
            buffer_topic(below_number("outputs".to_owned(), channel as u64), "overflow"),
            StatusValue::Timestamp(at.timestamp),
        ),
    }
}

/// Decides what is done for a change of state.
pub fn to_action(status: Status) -> (action: Action)
    ensures
        action@ == action_for(status@),
{
    match status {
        Status::UsedInputChannels(used, max) => resource_action("inputChannels", used, max),
        Status::UsedOutputChannels(used, max) => resource_action("outputChannels", used, max),
        Status::Receiver(receiver) => receiver_to_action(receiver),
        Status::Output(output) => output_to_action(output),
    }
}

/// The key below the root of the sound card.
pub fn rooted(root_key: &str, key: &str) -> (rooted: String)
    ensures
        rooted@ == under(root_key@, key@),
{
    below(root_key.to_owned(), key)
}

/// Whether a pattern that ends with a wildcard matches a key: the key lies
/// below what stands before the wildcard.
pub open spec fn covers(pattern: Seq<char>, key: Seq<char>) -> bool {
    exists|parent: Seq<char>, rest: Seq<char>|
        pattern == under(parent, "#"@) && key == #[trigger] under(parent, rest)
}

/// What is stored when a receiver is created is removed when it is deleted:
/// each key that is set is matched by a pattern of what is deleted.
pub proof fn lemma_deletion_covers_creation(
    desc: DescriptorModel,
    sdp: Option<Seq<char>>,
    i: int,
)
    requires
        0 <= i < created_entries(desc, sdp).len(),
    ensures
        exists|p: int|
            0 <= p < 2 && covers(
                #[trigger] receiver_action(ReceiverModel::Deleted(desc))->Delete_0[p],
                created_entries(desc, sdp)[i].0,
            ),
{
    let key = created_entries(desc, sdp)[i].0;
    let patterns = receiver_action(ReceiverModel::Deleted(desc))->Delete_0;
    if i == 7 || i == 8 {
        let parent = under_number("sessions"@, desc.session_id as nat);
        let part = if i == 7 {
            "name"@
        } else {
            "receiver"@
        };
        let rest = under(decimal(desc.session_version as nat), part);
        assert(key =~= under(parent, rest));
        assert(covers(patterns[1], key));
    } else {
        let parent = receiver_key(desc.id);
        let part = if i == 0 {
            "sampleFormat"@
        } else if i == 1 {
            "channels"@
        } else if i == 2 {
            "packetTimeMs"@
        } else if i == 3 {
            "sampleRate"@
        } else if i == 4 {
            under("session"@, "id"@)
        } else if i == 5 {
            under("session"@, "version"@)
        } else if i == 6 {
            under("session"@, "name"@)
        } else {
            "sdp"@
        };
        let rest = under("config"@, part);
        assert(key =~= under(parent, rest));
        assert(covers(patterns[0], key));
    }
}

/// What is stored of one receiver does not lie below the key of another.
pub proof fn lemma_receiver_keys_are_apart(
    a: ReceiverId,
    b: ReceiverId,
    rest: Seq<char>,
    other: Seq<char>,
)
    requires
        under(receiver_key(a), rest) == under(receiver_key(b), other),
    ensures
        a == b,
{
    reveal_strlit("receivers");
    reveal_strlit("/");
    let x = decimal(a as nat);
    let y = decimal(b as nat);
    let left = under(receiver_key(a), rest);
    let right = under(receiver_key(b), other);
    lemma_decimal_digits(a as nat);
    lemma_decimal_digits(b as nat);
    assert forall|i: int| 0 <= i < x.len() implies left[10 + i] == x[i] by {}
    assert forall|i: int| 0 <= i < y.len() implies right[10 + i] == y[i] by {}
    assert(left[10 + x.len() as int] == '/');
    assert(right[10 + y.len() as int] == '/');
    if x.len() < y.len() {
        assert(is_digit(y[x.len() as int]));
    }
    if y.len() < x.len() {
        assert(is_digit(x[y.len() as int]));
    }
    assert(x =~= y);
    lemma_decimal_value(a as nat);
    lemma_decimal_value(b as nat);
}

/// What is stored of a receiver that was created, each value under its own key:
/// below the number of the receiver the configuration of it, and below the number
/// and the version of its session the name of the session and the number of the
/// receiver. The session description comes last, where there is one.
pub proof fn lemma_what_is_stored_of_a_receiver(desc: DescriptorModel, sdp: Option<Seq<char>>)
    ensures
        ({
            let stored = created_entries(desc, sdp);
            let config = under(under("receivers"@, decimal(desc.id as nat)), "config"@);
            let session = under(
                under("sessions"@, decimal(desc.session_id as nat)),
                decimal(desc.session_version as nat),
            );
            &&& stored.len() == (if sdp is Some {
                10int
            } else {
                9int
            })
            &&& stored[0].0 == under(config, "sampleFormat"@)
            &&& stored[0].1 == StatusValueModel::Format(desc.sample_format())
            &&& stored[1].0 == under(config, "channels"@)
            &&& stored[1].1 == StatusValueModel::Count(desc.channels)
            &&& stored[2].0 == under(config, "packetTimeMs"@)
            &&& stored[2].1 == StatusValueModel::Duration(desc.packet_time)
            &&& stored[3].0 == under(config, "sampleRate"@)
            &&& stored[3].1 == StatusValueModel::Count(desc.sampling_rate)
            &&& stored[4].0 == under(under(config, "session"@), "id"@)
            &&& stored[4].1 == StatusValueModel::Number(desc.session_id)
            &&& stored[5].0 == under(under(config, "session"@), "version"@)
            &&& stored[5].1 == StatusValueModel::Number(desc.session_version)
            &&& stored[6].0 == under(under(config, "session"@), "name"@)
            &&& stored[6].1 == StatusValueModel::Text(desc.session_name)
            &&& stored[7].0 == under(session, "name"@)
            &&& stored[7].1 == StatusValueModel::Text(desc.session_name)
            &&& stored[8].0 == under(session, "receiver"@)
            &&& stored[8].1 == StatusValueModel::Count(desc.id)
            &&& sdp is Some ==> stored[9].0 == under(config, "sdp"@)
            &&& sdp is Some ==> stored[9].1 == StatusValueModel::Text(sdp->0)
        }),
{
}

/// What is removed when a receiver was deleted: all that lies below its number,
/// and all that lies below the number of its session, and nothing else.
pub proof fn lemma_what_is_removed_of_a_receiver(desc: DescriptorModel)
    ensures
        receiver_action(ReceiverModel::Deleted(desc)) matches ActionModel::Delete(patterns)
            && patterns.len() == 2 && patterns[0] == under(
            under("receivers"@, decimal(desc.id as nat)),
            "#"@,
        ) && patterns[1] == under(under("sessions"@, decimal(desc.session_id as nat)), "#"@),
{
}

/// Whether an action stores one value under one key.
pub open spec fn stores_one(action: ActionModel, key: Seq<char>, value: StatusValueModel) -> bool {
    action matches ActionModel::Store(list) && list.len() == 1 && list[0].0 == key && list[0].1
        == value
}

/// Whether an action hands one value under one key to those who listen.
pub open spec fn publishes_one(
    action: ActionModel,
    key: Seq<char>,
    value: StatusValueModel,
) -> bool {
    action matches ActionModel::Publish(list) && list.len() == 1 && list[0].0 == key && list[0].1
        == value
}

/// What describes a receiver is stored below its number, each value under its own
/// key.
pub proof fn lemma_descriptions_are_stored(
    id: ReceiverId,
    count: usize,
    address: SocketAddress,
    session: u64,
    version: u64,
    text: Seq<char>,
)
    ensures
        ({
            let receiver = under("receivers"@, decimal(id as nat));
            &&& stores_one(
                receiver_action(ReceiverModel::LinkOffset(id, count)),
                under(receiver, "linkOffsetMs"@),
                StatusValueModel::Count(count),
            )
            &&& stores_one(
                receiver_action(ReceiverModel::MulticastAddress(id, address)),
                under(receiver, "multicastAddress"@),
                StatusValueModel::Address(address),
            )
            &&& stores_one(
                receiver_action(ReceiverModel::PacketTime(id, count)),
                under(receiver, "packetTimeMs"@),
                StatusValueModel::Count(count),
            )
            &&& stores_one(
                receiver_action(ReceiverModel::SessionName(id, text)),
                under(under(receiver, "session"@), "name"@),
                StatusValueModel::Text(text),
            )
            &&& stores_one(
                receiver_action(ReceiverModel::Sdp(id, text)),
                under(receiver, "sdp"@),
                StatusValueModel::Text(text),
            )
            &&& receiver_action(
                ReceiverModel::SessionIdAndVersion(id, session, version),
            ) matches ActionModel::Store(list) && {
                &&& list.len() == 2
                &&& list[0].0 == under(under(receiver, "session"@), "id"@)
                &&& list[0].1 == StatusValueModel::Number(session)
                &&& list[1].0 == under(under(receiver, "session"@), "version"@)
                &&& list[1].1 == StatusValueModel::Number(version)
            }
        }),
{
}

/// What changes all the time is not stored, but handed to those who listen: levels,
/// underruns and overflows, how much of a buffer is used, and how many packets were
/// lost or came out of order. Each value has its own key below the number of the
/// receiver or the output.
pub proof fn lemma_measurements_are_published(
    id: ReceiverId,
    channel: Channel,
    at: MediaClockTimestamp,
    number: usize,
    level: u16,
    used: usize,
    size: usize,
    percent: usize,
)
    ensures
        ({
            let receiver = under("receivers"@, decimal(id as nat));
            let theirs = under("receivers"@, decimal(channel.transceiver_id as nat));
            let output = under("outputs"@, decimal(number as nat));
            &&& publishes_one(
                receiver_action(ReceiverModel::Meter(id, number, level)),
                under(under(receiver, "meter"@), decimal(number as nat)),
                StatusValueModel::Level(level),
            )
            &&& publishes_one(
                receiver_action(ReceiverModel::BufferUnderrun(channel, at)),
                under(
                    under(under(theirs, "buffer"@), "underrun"@),
                    decimal(channel.channel_nr as nat),
                ),
                StatusValueModel::Timestamp(at.timestamp),
            )
            &&& publishes_one(
                receiver_action(ReceiverModel::BufferOverflow(channel, at)),
                under(
                    under(under(theirs, "buffer"@), "overflow"@),
                    decimal(channel.channel_nr as nat),
                ),
                StatusValueModel::Timestamp(at.timestamp),
            )
            &&& publishes_one(
                receiver_action(ReceiverModel::DroppedPackets(id, number)),
                under(under(receiver, "packets"@), "dropped"@),
                StatusValueModel::Count(number),
            )
            &&& publishes_one(
                receiver_action(ReceiverModel::OutOfOrderPackets(id, number)),
                under(under(receiver, "packets"@), "outOfOrder"@),
                StatusValueModel::Count(number),
            )
            &&& publishes_one(
                output_action(Output::Meter(id, number, level)),
                under(under(receiver, "meter"@), decimal(number as nat)),
                StatusValueModel::Level(level),
            )
            &&& publishes_one(
                output_action(Output::BufferUnderrun(number, at)),
                under(under(output, "buffer"@), "underrun"@),
                StatusValueModel::Timestamp(at.timestamp),
            )
            &&& publishes_one(
                output_action(Output::BufferOverflow(number, at)),
                under(under(output, "buffer"@), "overflow"@),
                StatusValueModel::Timestamp(at.timestamp),
            )
            &&& receiver_action(
                ReceiverModel::BufferUsage(id, used, size, percent),
            ) matches ActionModel::Publish(list) && {
                &&& list.len() == 3
                &&& list[0].0 == under(under(receiver, "buffer"@), "size"@)
                &&& list[0].1 == StatusValueModel::Count(size)
                &&& list[1].0 == under(under(receiver, "buffer"@), "used"@)
                &&& list[1].1 == StatusValueModel::Count(used)
                &&& list[2].0 == under(under(under(receiver, "buffer"@), "used"@), "percent"@)
                &&& list[2].1 == StatusValueModel::Count(percent)
            }
        }),
{
}

/// How many channels are in use, and how many there are, is stored for inputs and
/// outputs apart. What is done for a receiver or an output is what is done for its
/// change of state.
pub proof fn lemma_channels_in_use_are_stored(
    used: usize,
    max: usize,
    receiver: ReceiverModel,
    output: Output,
)
    ensures
        action_for(StatusModel::UsedInputChannels(used, max)) matches ActionModel::Store(list) && {
            &&& list.len() == 2
            &&& list[0].0 == under(under("resources"@, "inputChannels"@), "used"@)
            &&& list[0].1 == StatusValueModel::Count(used)
            &&& list[1].0 == under(under("resources"@, "inputChannels"@), "max"@)
            &&& list[1].1 == StatusValueModel::Count(max)
        },
        action_for(StatusModel::UsedOutputChannels(used, max)) matches ActionModel::Store(list) && {
            &&& list.len() == 2
            &&& list[0].0 == under(under("resources"@, "outputChannels"@), "used"@)
            &&& list[0].1 == StatusValueModel::Count(used)
            &&& list[1].0 == under(under("resources"@, "outputChannels"@), "max"@)
            &&& list[1].1 == StatusValueModel::Count(max)
        },
        action_for(StatusModel::Receiver(receiver)) == receiver_action(receiver),
        action_for(StatusModel::Output(output)) == output_action(output),
{
}

} // verus!
