//! The receivers that there are: which session each one receives, which
//! channels are in use and which port plays out what.

use crate::descriptor::{DescriptorModel, RxDescriptor};
use crate::duration::Millis;
use crate::error::{RxError, RxErrorModel};
use crate::format::ReceiverId;
use crate::matrix::{
    lemma_route_uses_vacant_ports, lemma_unroute_leaves_others, lemma_unroute_undoes_route,
    lowest_vacant, ports_of_receiver, routed, unrouted, vacant_ports, MatrixModel, OutputMatrix, Routes,
};
use crate::media_clock::MediaClockTimestamp;
use crate::network::IpAddress;
use crate::playout::OutputEvent;
use crate::session::{address_outcome, marshal, remarshalled, SessionInfo};
use crate::status::{statuses, Receiver, ReceiverModel, Status, StatusModel};
use std::collections::HashMap;
use vstd::prelude::*;

verus! {

/// The channels of the receivers that there are.
pub open spec fn channels_in(active: Seq<Option<DescriptorModel>>) -> nat
    decreases active.len(),
{
    if active.len() == 0 {
        0
    } else {
        channels_in(active.drop_last()) + channels_of(active.last())
    }
}

/// The channels of a receiver, if there is one.
pub open spec fn channels_of(receiver: Option<DescriptorModel>) -> nat {
    match receiver {
        Some(desc) => desc.channels as nat,
        None => 0,
    }
}

/// The lowest number from `i` on that no receiver has.
pub open spec fn free_from(active: Seq<Option<DescriptorModel>>, i: nat) -> Option<ReceiverId>
    decreases active.len() - i,
{
    if i >= active.len() {
        None
    } else if active[i as int] is None {
        Some(i as ReceiverId)
    } else {
        free_from(active, i + 1)
    }
}

/// The channel and the receiver that a port plays out.
pub open spec fn playing(routes: Routes, port: usize) -> Option<(usize, ReceiverId)> {
    if routes.contains_key(port) {
        Some((routes[port].0.channel_nr, routes[port].0.transceiver_id))
    } else {
        None
    }
}

/// The mathematical value of `Receivers`.
pub struct ReceiversModel {
    /// How many channels there can be in all, and how many receivers.
    pub max_channels: usize,
    /// How many channels are reserved.
    pub used_channels: usize,
    /// The receiver of each version of a session.
    pub ids: Map<(u64, u64), ReceiverId>,
    /// The receiver with each number.
    pub active: Seq<Option<DescriptorModel>>,
    /// What is routed to which port.
    pub matrix: MatrixModel,
    /// What the audio system plays out on each port.
    pub ports: Seq<Option<(usize, ReceiverId)>>,
}

impl ReceiversModel {
    /// The channels of the receivers are reserved, each receiver knows its
    /// number, nothing is routed that has no receiver, and the audio system
    /// plays out what is routed.
    pub open spec fn consistent(self) -> bool {
        &&& self.active.len() == self.max_channels
        &&& self.ports.len() == self.max_channels
        &&& self.matrix.channels == self.max_channels
        &&& channels_in(self.active) <= self.used_channels <= self.max_channels
        &&& forall|id: int|
            0 <= id < self.max_channels ==> (#[trigger] self.active[id] matches Some(desc)
                ==> desc.id == id)
        &&& forall|port: usize| #[trigger]
            self.matrix.routes.contains_key(port) ==> self.owned(port)
        &&& forall|port: usize|
            port < self.max_channels ==> #[trigger] self.ports[port as int] == playing(
                self.matrix.routes,
                port,
            )
        &&& forall|id: usize|
            id < self.max_channels ==> (#[trigger] ports_of_receiver(
                self.matrix.routes,
                id,
                self.max_channels as nat,
            )).len() <= taken_by(self.active[id as int])
    }

    /// Whether a port that is in use exists and belongs to a receiver.
    pub open spec fn owned(self, port: usize) -> bool {
        let (channel, desc) = self.matrix.routes[port];
        &&& port < self.max_channels
        &&& channel.transceiver_id < self.max_channels
        &&& self.active[channel.transceiver_id as int] == Some(desc)
    }

    /// Whether a receiver has this number.
    pub open spec fn has(self, id: ReceiverId) -> bool {
        id < self.active.len() && self.active[id as int] is Some
    }

    /// The state after a receiver was deleted.
    pub open spec fn deleted(self, id: ReceiverId) -> ReceiversModel {
        let desc = self.active[id as int]->0;
        ReceiversModel {
            used_channels: (self.used_channels - desc.channels) as usize,
            ids: self.ids.remove((desc.session_id, desc.session_version)),
            active: self.active.update(id as int, None),
            matrix: MatrixModel { routes: unrouted(self.matrix.routes, id), ..self.matrix },
            ports: Seq::new(
                self.ports.len(),
                |p: int|
                    if ports_of_receiver(
                        self.matrix.routes,
                        id,
                        self.max_channels as nat,
                    ).contains(p as usize) {
                        None
                    } else {
                        self.ports[p]
                    },
            ),
            ..self
        }
    }

    /// The state without the number of the receiver of a session.
    pub open spec fn forgotten(self, session: (u64, u64)) -> ReceiversModel {
        ReceiversModel { ids: self.ids.remove(session), ..self }
    }

    /// The state after a number was claimed for a session. Where the session
    /// has a receiver, that one is deleted.
    pub open spec fn claimed(self, session: (u64, u64)) -> ReceiversModel {
        if self.ids.contains_key(session) {
            let known = self.forgotten(session);
            if known.has(self.ids[session]) {
                known.deleted(self.ids[session])
            } else {
                known
            }
        } else {
            self
        }
    }

    /// The number that a session gets, and the receiver that had it, or why it
    /// gets none.
    pub open spec fn claim(self, session: (u64, u64)) -> Result<
        (ReceiverId, Option<DescriptorModel>),
        RxErrorModel,
    > {
        if self.ids.contains_key(session) {
            let id = self.ids[session];
            if self.has(id) {
                Ok((id, self.active[id as int]))
            } else {
                Err(RxErrorModel::InvalidReceiverId(id as nat))
            }
        } else {
            match free_from(self.active, 0) {
                Some(id) => Ok((id, None)),
                None => Err(RxErrorModel::MaxChannelsExceeded(self.max_channels as nat)),
            }
        }
    }

    /// Whether there are enough channels left for a receiver.
    pub open spec fn has_channels_for(self, desc: DescriptorModel) -> bool {
        self.used_channels + desc.channels <= self.max_channels
    }

    /// The state after the channels of a receiver were reserved.
    pub open spec fn reserved(self, desc: DescriptorModel) -> ReceiversModel {
        ReceiversModel {
            used_channels: (self.used_channels + desc.channels) as usize,
            ids: self.ids.insert((desc.session_id, desc.session_version), desc.id),
            ..self
        }
    }

    /// Whether a receiver has a number that is free, reserved channels and
    /// ports that are not in use.
    pub open spec fn can_activate(self, desc: DescriptorModel) -> bool {
        &&& desc.id < self.max_channels
        &&& self.active[desc.id as int] is None
        &&& channels_in(self.active) + desc.channels <= self.used_channels
        &&& desc.channels <= vacant_ports(
            self.matrix.routes,
            self.max_channels as nat,
        ).len()
    }

    /// The state after a receiver has begun to receive.
    pub open spec fn activated(self, desc: DescriptorModel) -> ReceiversModel {
        let changed = lowest_vacant(self.matrix, desc.channels);
        let routes = routed(self.matrix.routes, changed, desc.id, desc);
        ReceiversModel {
            active: self.active.update(desc.id as int, Some(desc)),
            matrix: MatrixModel { routes, ..self.matrix },
            ports: Seq::new(
                self.ports.len(),
                |p: int|
                    if changed.contains(p as usize) {
                        playing(routes, p as usize)
                    } else {
                        self.ports[p]
                    },
            ),
            ..self
        }
    }
}

impl ReceiversModel {
    /// What is published when a receiver was deleted.
    pub open spec fn deletion_report(self, desc: DescriptorModel) -> Seq<StatusModel> {
        seq![
            StatusModel::Receiver(ReceiverModel::Deleted(desc)),
            StatusModel::UsedOutputChannels(self.used_channels, self.max_channels),
        ]
    }

    /// What is published when a session claims a number that a receiver can
    /// have had.
    pub open spec fn replacement_report(self, replaced: Option<DescriptorModel>) -> Seq<
        StatusModel,
    > {
        match replaced {
            Some(desc) => self.deletion_report(desc),
            None => Seq::empty(),
        }
    }
}

/// A receiver for a session, before it begins to receive.
#[derive(Debug)]
pub struct Preparation {
    /// The description of the receiver, or why there is none.
    pub receiver: Result<RxDescriptor, RxError>,
    /// The number of the receiver that the session had before, which was
    /// deleted.
    pub replaced: Option<ReceiverId>,
    /// What is published of that.
    pub report: Vec<Status>,
}

/// How many ports a receiver takes at most. One without channels can take one.
pub open spec fn taken_by(receiver: Option<DescriptorModel>) -> nat {
    match receiver {
        Some(desc) => if desc.channels == 0 {
            1
        } else {
            desc.channels as nat
        },
        None => 0,
    }
}

/// A version of a session as one number.
pub open spec fn session_number(session: (u64, u64)) -> u128 {
    (session.0 * 0x1_0000_0000_0000_0000 + session.1) as u128
}

/// The receivers of a sound card.
#[derive(Debug)]
pub struct Receivers {
    max_channels: usize,
    used_channels: usize,
    receiver_ids: HashMap<u128, ReceiverId>,
    active_receivers: Vec<Option<RxDescriptor>>,
    matrix: OutputMatrix,
    active_ports: Vec<Option<(usize, ReceiverId)>>,
}

/// The receivers of the sessions that are known.
spec fn ids_in(receiver_ids: Map<u128, ReceiverId>) -> Map<(u64, u64), ReceiverId> {
    Map::new(
        |session: (u64, u64)| receiver_ids.contains_key(session_number(session)),
        |session: (u64, u64)| receiver_ids[session_number(session)],
    )
}

/// The value of a receiver that there can be.
pub open spec fn optional_receiver(receiver: Option<RxDescriptor>) -> Option<DescriptorModel> {
    match receiver {
        Some(desc) => Some(desc@),
        None => None,
    }
}

/// The values of the receivers.
spec fn receivers_in(list: Seq<Option<RxDescriptor>>) -> Seq<Option<DescriptorModel>> {
    list.map_values(|receiver: Option<RxDescriptor>| optional_receiver(receiver))
}

impl View for Receivers {
    type V = ReceiversModel;

    closed spec fn view(&self) -> ReceiversModel {
        ReceiversModel {
            max_channels: self.max_channels,
            used_channels: self.used_channels,
            ids: ids_in(self.receiver_ids@),
            active: receivers_in(self.active_receivers@),
            matrix: self.matrix@,
            ports: self.active_ports@,
        }
    }
}

fn session_key(session_id: u64, session_version: u64) -> (key: u128)
    ensures
        key == session_number((session_id, session_version)),
{
    session_id as u128 * 0x1_0000_0000_0000_0000 + session_version as u128
}

/// The value of a claim or of the error in its place.
pub open spec fn claim_outcome(
    result: Result<(ReceiverId, Option<RxDescriptor>), RxError>,
) -> Result<(ReceiverId, Option<DescriptorModel>), RxErrorModel> {
    match result {
        Ok((id, receiver)) => Ok((id, optional_receiver(receiver))),
        Err(error) => Err(error@),
    }
}

impl Receivers {
    /// What holds of the receivers at all times.
    pub closed spec fn wf(&self) -> bool {
        &&& self.matrix.wf()
        &&& self@.consistent()
    }

    /// The receivers are consistent.
    pub proof fn lemma_consistent(&self)
        requires
            self.wf(),
        ensures
            self@.consistent(),
    {
    }

    /// A sound card with that many channels, and no receiver.
    pub fn new(max_channels: usize) -> (receivers: Receivers)
        ensures
            receivers.wf(),
            receivers@.max_channels == max_channels,
            receivers@.used_channels == 0,
            receivers@.ids == Map::<(u64, u64), ReceiverId>::empty(),
            receivers@.active == Seq::new(max_channels as nat, |i: int| None::<DescriptorModel>),
            receivers@.matrix.routes == Routes::empty(),
            receivers@.ports == Seq::new(
                max_channels as nat,
                |i: int| None::<(usize, ReceiverId)>,
            ),
    {
        let mut active_receivers: Vec<Option<RxDescriptor>> = Vec::new();
        let mut active_ports: Vec<Option<(usize, ReceiverId)>> = Vec::new();
        let mut i: usize = 0;
        while i < max_channels
            invariant
                i <= max_channels,
                active_receivers@.len() == i,
                active_ports@.len() == i,
                forall|k: int| 0 <= k < i ==> #[trigger] active_receivers@[k] is None,
                forall|k: int| 0 <= k < i ==> #[trigger] active_ports@[k] is None,
            decreases max_channels - i,
        {
            active_receivers.push(None);
            active_ports.push(None);
            i = i + 1;
        }
        let receivers = Receivers {
            max_channels,
            used_channels: 0,
            receiver_ids: HashMap::new(),
            active_receivers,
            matrix: OutputMatrix::default(max_channels),
            active_ports,
        };
        proof {
            let model = receivers@;
            assert(model.active =~= Seq::new(
                max_channels as nat,
                |i: int| None::<DescriptorModel>,
            ));
            assert(model.ports =~= Seq::new(
                max_channels as nat,
                |i: int| None::<(usize, ReceiverId)>,
            ));
            assert(model.ids =~= Map::<(u64, u64), ReceiverId>::empty());
            lemma_no_receivers(model.active);
            assert forall|id: usize| id < max_channels implies (#[trigger] ports_of_receiver(
                model.matrix.routes,
                id,
                max_channels as nat,
            )).len() <= taken_by(model.active[id as int]) by {
                lemma_no_ports_without_routes(model.matrix.routes, id, max_channels as nat);
            }
        }
        receivers
    }
}

/// The value of a receiver or of the error in its place.
pub open spec fn receiver_outcome(result: Result<RxDescriptor, RxError>) -> Result<
    DescriptorModel,
    RxErrorModel,
> {
    match result {
        Ok(desc) => Ok(desc@),
        Err(error) => Err(error@),
    }
}

impl Receivers {
    /// Deletes a receiver and gives its description back.
    pub fn delete_receiver(&mut self, receiver_id: ReceiverId) -> (deleted: Result<
        RxDescriptor,
        RxError,
    >)
        requires
            old(self).wf(),
        ensures
            final(self).wf(),
            receiver_outcome(deleted) == (if old(self)@.has(receiver_id) {
                Ok(old(self)@.active[receiver_id as int]->0)
            } else {
                Err(RxErrorModel::InvalidReceiverId(receiver_id as nat))
            }),
            final(self)@ == (if old(self)@.has(receiver_id) {
                old(self)@.deleted(receiver_id)
            } else {
                old(self)@
            }),
    {
        let ghost before = self@;
        if receiver_id >= self.active_receivers.len() {
            return Err(RxError::InvalidReceiverId(receiver_id));
        }
        let mut slot: Option<RxDescriptor> = None;
        std::mem::swap(&mut slot, &mut self.active_receivers[receiver_id]);
        match slot {
            Some(desc) => {
                assert(before.active[receiver_id as int] == Some(desc@));
                proof {
                    assert(receivers_in(self.active_receivers@) =~= before.active.update(
                        receiver_id as int,
                        None,
                    ));
                    lemma_channels_update(before.active, receiver_id as int, None);
                    lemma_deleted_consistent(before, receiver_id);
                }
                let changed_ports = self.matrix.auto_unroute(receiver_id);
                proof {
                    lemma_receiver_ports(
                        before.matrix.routes,
                        receiver_id,
                        before.max_channels as nat,
                    );
                    assert forall|i: int| 0 <= i < changed_ports@.len() implies (
                    #[trigger] changed_ports@[i]) < self.active_ports@.len() by {
                        assert(changed_ports@.contains(changed_ports@[i]));
                    }
                }
                self.deactivate_ports(&changed_ports);
                let key = session_key(desc.session_id, desc.session_version);
                let ghost ids = self.receiver_ids@;
                self.receiver_ids.remove(&key);
                proof {
                    lemma_forget(ids, (desc.session_id, desc.session_version));
                }
                self.used_channels = self.used_channels - desc.channels;
                assert(self@ == before.deleted(receiver_id));
                Ok(desc)
            },
            None => {
                proof {
                    assert(receivers_in(self.active_receivers@) =~= before.active);
                }
                Err(RxError::InvalidReceiverId(receiver_id))
            },
        }
    }

    /// Tells the audio system that ports play out nothing any more.
    fn deactivate_ports(&mut self, changed_ports: &Vec<usize>)
        requires
            forall|i: int|
                0 <= i < changed_ports@.len() ==> #[trigger] changed_ports@[i] < old(
                    self,
                ).active_ports@.len(),
        ensures
            final(self).max_channels == old(self).max_channels,
            final(self).used_channels == old(self).used_channels,
            final(self).receiver_ids == old(self).receiver_ids,
            final(self).active_receivers == old(self).active_receivers,
            final(self).matrix == old(self).matrix,
            final(self).active_ports@ == Seq::new(
                old(self).active_ports@.len(),
                |p: int|
                    if changed_ports@.contains(p as usize) {
                        None
                    } else {
                        old(self).active_ports@[p]
                    },
            ),
    {
        let ghost before = self.active_ports@;
        let len = self.active_ports.len();
        let mut i: usize = 0;
        while i < changed_ports.len()
            invariant
                i <= changed_ports@.len(),
                len == before.len(),
                self.active_ports@.len() == before.len(),
                before == old(self).active_ports@,
                self.max_channels == old(self).max_channels,
                self.used_channels == old(self).used_channels,
                self.receiver_ids == old(self).receiver_ids,
                self.active_receivers == old(self).active_receivers,
                self.matrix == old(self).matrix,
                forall|k: int|
                    0 <= k < changed_ports@.len() ==> #[trigger] changed_ports@[k] < before.len(),
                forall|p: int|
                    0 <= p < before.len() ==> #[trigger] self.active_ports@[p] == (
                    if changed_ports@.take(i as int).contains(p as usize) {
                        None
                    } else {
                        before[p]
                    }),
            decreases changed_ports@.len() - i,
        {
            let port = changed_ports[i];
            self.active_ports[port] = None;
            proof {
                let done = changed_ports@.take(i as int);
                let more = changed_ports@.take(i as int + 1);
                assert(more =~= done.push(port));
                assert forall|p: int| 0 <= p < before.len() implies #[trigger] more.contains(
                    p as usize,
                ) == (done.contains(p as usize) || p == port) by {
                    lemma_push_contains(done, port, p as usize);
                }
            }
            i = i + 1;
        }
        proof {
            assert(changed_ports@.take(i as int) =~= changed_ports@);
            assert(self.active_ports@ =~= Seq::new(
                before.len(),
                |p: int|
                    if changed_ports@.contains(p as usize) {
                        None
                    } else {
                        before[p]
                    },
            ));
        }
    }

    /// Tells the audio system what ports play out.
    fn activate_ports(&mut self, changed_ports: &Vec<usize>)
        requires
            old(self).matrix.wf(),
            forall|i: int|
                0 <= i < changed_ports@.len() ==> #[trigger] changed_ports@[i] < old(
                    self,
                ).active_ports@.len(),
        ensures
            final(self).max_channels == old(self).max_channels,
            final(self).used_channels == old(self).used_channels,
            final(self).receiver_ids == old(self).receiver_ids,
            final(self).active_receivers == old(self).active_receivers,
            final(self).matrix == old(self).matrix,
            final(self).active_ports@ == Seq::new(
                old(self).active_ports@.len(),
                |p: int|
                    if changed_ports@.contains(p as usize) {
                        playing(old(self).matrix@.routes, p as usize)
                    } else {
                        old(self).active_ports@[p]
                    },
            ),
    {
        let ghost before = self.active_ports@;
        let ghost routes = self.matrix@.routes;
        let len = self.active_ports.len();
        let mut i: usize = 0;
        while i < changed_ports.len()
            invariant
                i <= changed_ports@.len(),
                len == before.len(),
                self.active_ports@.len() == before.len(),
                before == old(self).active_ports@,
                routes == self.matrix@.routes,
                self.matrix.wf(),
                self.max_channels == old(self).max_channels,
                self.used_channels == old(self).used_channels,
                self.receiver_ids == old(self).receiver_ids,
                self.active_receivers == old(self).active_receivers,
                self.matrix == old(self).matrix,
                forall|k: int|
                    0 <= k < changed_ports@.len() ==> #[trigger] changed_ports@[k] < before.len(),
                forall|p: int|
                    0 <= p < before.len() ==> #[trigger] self.active_ports@[p] == (
                    if changed_ports@.take(i as int).contains(p as usize) {
                        playing(routes, p as usize)
                    } else {
                        before[p]
                    }),
            decreases changed_ports@.len() - i,
        {
            let port = changed_ports[i];
            let played = match self.matrix.get_channel(port) {
                Some(route) => Some((route.0.channel_nr, route.0.transceiver_id)),
                None => None,
            };
            self.active_ports[port] = played;
            proof {
                let done = changed_ports@.take(i as int);
                let more = changed_ports@.take(i as int + 1);
                assert(more =~= done.push(port));
                assert forall|p: int| 0 <= p < before.len() implies #[trigger] more.contains(
                    p as usize,
                ) == (done.contains(p as usize) || p == port) by {
                    lemma_push_contains(done, port, p as usize);
                }
            }
            i = i + 1;
        }
        proof {
            assert(changed_ports@.take(i as int) =~= changed_ports@);
            assert(self.active_ports@ =~= Seq::new(
                before.len(),
                |p: int|
                    if changed_ports@.contains(p as usize) {
                        playing(routes, p as usize)
                    } else {
                        before[p]
                    },
            ));
        }
    }

    /// Claims a number for a session: that of its receiver, which is deleted
    /// and handed out, or the lowest one that is free.
    pub fn claim(&mut self, session_id: u64, session_version: u64) -> (claim: Result<
        (ReceiverId, Option<RxDescriptor>),
        RxError,
    >)
        requires
            old(self).wf(),
        ensures
            final(self).wf(),
            claim_outcome(claim) == old(self)@.claim((session_id, session_version)),
            final(self)@ == old(self)@.claimed((session_id, session_version)),
    {
        let ghost before = self@;
        let ghost session = (session_id, session_version);
        let ghost ids = self.receiver_ids@;
        let key = session_key(session_id, session_version);
        proof {
            lemma_forget(ids, session);
        }
        match self.receiver_ids.remove(&key) {
            Some(id) => {
                assert(self@ == before.forgotten(session));
                match self.delete_receiver(id) {
                    Ok(desc) => Ok((id, Some(desc))),
                    Err(error) => Err(error),
                }
            },
            None => {
                assert(ids_in(self.receiver_ids@) =~= before.ids);
                let len = self.active_receivers.len();
                let mut i: usize = 0;
                while i < len
                    invariant
                        i <= len,
                        self.wf(),
                        self@ == before,
                        before == old(self)@,
                        !before.ids.contains_key((session_id, session_version)),
                        len == self.active_receivers@.len(),
                        free_from(before.active, 0) == free_from(before.active, i as nat),
                    decreases len - i,
                {
                    assert(before.active[i as int] == optional_receiver(
                        self.active_receivers@[i as int],
                    ));
                    if self.active_receivers[i].is_none() {
                        return Ok((i, None));
                    }
                    i = i + 1;
                }
                Err(RxError::MaxChannelsExceeded(self.max_channels))
            },
        }
    }

    /// Reserves the channels of a receiver.
    pub fn reserve(&mut self, desc: &RxDescriptor) -> (reserved: Result<(), RxError>)
        requires
            old(self).wf(),
        ensures
            final(self).wf(),
            old(self)@.has_channels_for(desc@) ==> reserved is Ok && final(self)@ == old(self)@.reserved(
                desc@,
            ),
            !old(self)@.has_channels_for(desc@) ==> final(self)@ == old(self)@ && (reserved matches Err(e)
                && e@ == RxErrorModel::MaxChannelsExceeded(old(self)@.max_channels as nat)),
    {
        if desc.channels > self.max_channels - self.used_channels {
            return Err(RxError::MaxChannelsExceeded(self.max_channels));
        }
        self.used_channels = self.used_channels + desc.channels;
        let key = session_key(desc.session_id, desc.session_version);
        let ghost ids = self.receiver_ids@;
        self.receiver_ids.insert(key, desc.id);
        proof {
            lemma_remember(ids, (desc.session_id, desc.session_version), desc.id);
        }
        Ok(())
    }

    /// Whether a receiver can begin to receive.
    pub fn can_activate(&self, desc: &RxDescriptor) -> (can: bool)
        requires
            self.wf(),
        ensures
            can == self@.can_activate(desc@),
    {
        if desc.id >= self.max_channels {
            return false;
        }
        assert(self@.active[desc.id as int] == optional_receiver(
            self.active_receivers@[desc.id as int],
        ));
        if self.active_receivers[desc.id].is_some() {
            return false;
        }
        let active = self.active_channels();
        desc.channels <= self.used_channels - active && desc.channels <= self.matrix.free_ports()
    }

    fn active_channels(&self) -> (channels: usize)
        requires
            self.wf(),
        ensures
            channels == channels_in(self@.active),
    {
        let ghost all = self@.active;
        let len = self.active_receivers.len();
        let mut channels: usize = 0;
        let mut i: usize = 0;
        while i < len
            invariant
                i <= len,
                len == self.active_receivers@.len(),
                all == receivers_in(self.active_receivers@),
                channels == channels_in(all.take(i as int)),
                channels_in(all) <= usize::MAX,
            decreases len - i,
        {
            proof {
                assert(all.take(i as int + 1).drop_last() =~= all.take(i as int));
                assert(all[i as int] == optional_receiver(self.active_receivers@[i as int]));
                lemma_channels_prefix(all, i as int + 1);
            }
            match &self.active_receivers[i] {
                Some(desc) => {
                    channels = channels + desc.channels;
                },
                None => {},
            }
            i = i + 1;
        }
        assert(all.take(len as int) =~= all);
        channels
    }

    /// Lets a receiver begin to receive, and tells which ports play it out.
    pub fn activate(&mut self, desc: RxDescriptor) -> (changed_ports: Vec<usize>)
        requires
            old(self).wf(),
            old(self)@.can_activate(desc@),
        ensures
            final(self).wf(),
            changed_ports@ == lowest_vacant(old(self)@.matrix, desc.channels),
            final(self)@ == old(self)@.activated(desc@),
    {
        let ghost before = self@;
        let id = desc.id;
        let routed_ports = self.matrix.auto_route(id, desc.channels, desc.clone());
        match routed_ports {
            Some(changed_ports) => {
                proof {
                    lemma_route_uses_vacant_ports(before.matrix, id, desc.channels, desc@);
                }
                self.activate_ports(&changed_ports);
                self.active_receivers.set(id, Some(desc));
                proof {
                    assert(receivers_in(self.active_receivers@) =~= before.active.update(
                        id as int,
                        Some(desc@),
                    ));
                    assert(self@ == before.activated(desc@));
                    lemma_activated_consistent(before, desc@);
                }
                changed_ports
            },
            None => Vec::new(),
        }
    }

    /// Prepares a receiver for a session: claims a number for it, describes it
    /// and reserves its channels. Where the session gets a number, but a number
    /// in its description is too large for its type, there is no outcome.
    pub fn prepare(
        &mut self,
        sd: &SessionInfo,
        link_offset: Millis,
        packet_time: Option<Millis>,
        origin_ip: Result<IpAddress, String>,
    ) -> (prepared: Option<Preparation>)
        requires
            old(self).wf(),
        ensures
            final(self).wf(),
            prepared is None <==> old(self)@.claim((sd.id, sd.version)) is Ok && !sd@.numbers_fit(
                packet_time,
            ),
            prepared is None ==> sd@.number_exceeds() && final(self)@ == old(self)@.claimed(
                (sd.id, sd.version),
            ),
            prepared matches Some(prepared) ==> {
                let session = (sd.id, sd.version);
                let claimed = old(self)@.claimed(session);
                match old(self)@.claim(session) {
                    Err(error) => {
                        &&& receiver_outcome(prepared.receiver) == Err::<
                            DescriptorModel,
                            RxErrorModel,
                        >(error)
                        &&& prepared.replaced is None
                        &&& prepared.report@.len() == 0
                        &&& final(self)@ == claimed
                    },
                    Ok((id, replaced)) => {
                        &&& prepared.replaced == (if replaced is Some {
                            Some(id)
                        } else {
                            None
                        })
                        &&& statuses(prepared.report@) == claimed.replacement_report(replaced)
                        &&& match sd@.described(
                            id,
                            link_offset,
                            sd@.rtpmap(),
                            packet_time,
                            sd@.clock_offset(),
                            address_outcome(origin_ip),
                        ) {
                            Err(error) => {
                                &&& receiver_outcome(prepared.receiver) == Err::<
                                    DescriptorModel,
                                    RxErrorModel,
                                >(error)
                                &&& final(self)@ == claimed
                            },
                            Ok(described) => if claimed.has_channels_for(described) {
                                &&& receiver_outcome(prepared.receiver) == Ok::<
                                    DescriptorModel,
                                    RxErrorModel,
                                >(described)
                                &&& final(self)@ == claimed.reserved(described)
                            } else {
                                &&& receiver_outcome(prepared.receiver) == Err::<
                                    DescriptorModel,
                                    RxErrorModel,
                                >(RxErrorModel::MaxChannelsExceeded(old(self)@.max_channels as nat))
                                &&& final(self)@ == claimed
                            },
                        }
                    },
                }
            },
    {
        let (id, deleted) = match self.claim(sd.id, sd.version) {
            Ok(claim) => claim,
            Err(error) => {
                return Some(
                    Preparation { receiver: Err(error), replaced: None, report: Vec::new() },
                );
            },
        };
        let ghost claimed = self@;
        let (replaced, report) = match deleted {
            Some(desc) => (Some(id), self.deleted_statuses(desc)),
            None => (None, Vec::new()),
        };
        assert(statuses(report@) =~= claimed.replacement_report(optional_receiver(deleted)));
        let desc = match RxDescriptor::try_new(id, sd, link_offset, packet_time, origin_ip) {
            Some(Ok(desc)) => desc,
            Some(Err(error)) => {
                return Some(Preparation { receiver: Err(error), replaced, report });
            },
            None => {
                return None;
            },
        };
        match self.reserve(&desc) {
            Ok(()) => Some(Preparation { receiver: Ok(desc), replaced, report }),
            Err(error) => Some(Preparation { receiver: Err(error), replaced, report }),
        }
    }

    /// What is published when a receiver was created for the session that a
    /// text describes.
    pub fn created_statuses(&self, desc: RxDescriptor, sdp: &str) -> (report: Vec<Status>)
        ensures
            statuses(report@) == seq![
                StatusModel::Receiver(ReceiverModel::Created(desc@, remarshalled(sdp@))),
                StatusModel::UsedOutputChannels(self@.used_channels, self@.max_channels),
            ],
    {
        let report = vec![
            Status::Receiver(Receiver::Created(desc, marshal(sdp))),
            self.channel_consumption(),
        ];
        assert(statuses(report@) =~= seq![
            StatusModel::Receiver(ReceiverModel::Created(desc@, remarshalled(sdp@))),
            StatusModel::UsedOutputChannels(self@.used_channels, self@.max_channels),
        ]);
        report
    }

    /// What is published when a receiver was deleted.
    pub fn deleted_statuses(&self, desc: RxDescriptor) -> (report: Vec<Status>)
        ensures
            statuses(report@) == self@.deletion_report(desc@),
    {
        let report = vec![
            Status::Receiver(Receiver::Deleted(desc)),
            self.channel_consumption(),
        ];
        assert(statuses(report@) =~= self@.deletion_report(desc@));
        report
    }

    /// How many channels are reserved, and how many there are.
    pub fn channel_consumption(&self) -> (status: Status)
        ensures
            status@ == StatusModel::UsedOutputChannels(
                self@.used_channels,
                self@.max_channels,
            ),
    {
        Status::UsedOutputChannels(self.used_channels, self.max_channels)
    }

    /// What is published when the audio system reports an event: that a
    /// receiver has no samples, where the port plays out a receiver.
    pub fn process_output_event(&self, event: OutputEvent, at: MediaClockTimestamp) -> (status:
        Option<Status>)
        requires
            self.wf(),
        ensures
            match event {
                OutputEvent::BufferUnderrun(port) => if self@.matrix.routes.contains_key(port) {
                    status matches Some(status) && status@ == StatusModel::Receiver(
                        ReceiverModel::BufferUnderrun(self@.matrix.routes[port].0, at),
                    )
                } else {
                    status is None
                },
            },
    {
        match event {
            OutputEvent::BufferUnderrun(port) => match self.matrix.get_channel(port) {
                Some(route) => Some(Status::Receiver(Receiver::BufferUnderrun(route.0, at))),
                None => None,
            },
        }
    }

    /// The receiver with a number.
    pub fn receiver(&self, receiver_id: ReceiverId) -> (receiver: Option<&RxDescriptor>)
        ensures
            match receiver {
                Some(desc) => self@.has(receiver_id) && self@.active[receiver_id as int] == Some(
                    desc@,
                ),
                None => !self@.has(receiver_id),
            },
    {
        if receiver_id < self.active_receivers.len() {
            assert(self@.active[receiver_id as int] == optional_receiver(
                self.active_receivers@[receiver_id as int],
            ));
            match &self.active_receivers[receiver_id] {
                Some(desc) => Some(desc),
                None => None,
            }
        } else {
            None
        }
    }

    /// What is routed to which port.
    pub fn output_matrix(&self) -> (matrix: &OutputMatrix)
        requires
            self.wf(),
        ensures
            matrix.wf(),
            matrix@ == self@.matrix,
    {
        &self.matrix
    }

    /// What the audio system plays out on each port.
    pub fn output_ports(&self) -> (ports: &Vec<Option<(usize, ReceiverId)>>)
        ensures
            ports@ == self@.ports,
    {
        &self.active_ports
    }
}

proof fn lemma_push_contains(ports: Seq<usize>, port: usize, p: usize)
    ensures
        ports.push(port).contains(p) == (ports.contains(p) || p == port),
{
    let more = ports.push(port);
    if ports.contains(p) {
        let i = ports.index_of(p);
        assert(more[i] == p);
    }
    if p == port {
        assert(more[ports.len() as int] == p);
    }
    if more.contains(p) && p != port {
        let i = more.index_of(p);
        assert(ports[i] == p);
    }
}

proof fn lemma_session_number(a: (u64, u64), b: (u64, u64))
    requires
        session_number(a) == session_number(b),
    ensures
        a == b,
{
}

proof fn lemma_forget(ids: Map<u128, ReceiverId>, session: (u64, u64))
    ensures
        ids_in(ids.remove(session_number(session))) == ids_in(ids).remove(session),
{
    assert forall|s: (u64, u64)| session_number(s) == session_number(session) implies s
        == session by {
        lemma_session_number(s, session);
    }
    assert(ids_in(ids.remove(session_number(session))) =~= ids_in(ids).remove(session));
}

proof fn lemma_remember(ids: Map<u128, ReceiverId>, session: (u64, u64), id: ReceiverId)
    ensures
        ids_in(ids.insert(session_number(session), id)) == ids_in(ids).insert(session, id),
{
    assert forall|s: (u64, u64)| session_number(s) == session_number(session) implies s
        == session by {
        lemma_session_number(s, session);
    }
    assert(ids_in(ids.insert(session_number(session), id)) =~= ids_in(ids).insert(session, id));
}

proof fn lemma_channels_update(
    active: Seq<Option<DescriptorModel>>,
    i: int,
    receiver: Option<DescriptorModel>,
)
    requires
        0 <= i < active.len(),
    ensures
        channels_in(active.update(i, receiver)) == channels_in(active) - channels_of(active[i])
            + channels_of(receiver),
    decreases active.len(),
{
    let updated = active.update(i, receiver);
    if i == active.len() - 1 {
        assert(updated.drop_last() =~= active.drop_last());
    } else {
        lemma_channels_update(active.drop_last(), i, receiver);
        assert(updated.drop_last() =~= active.drop_last().update(i, receiver));
    }
}

proof fn lemma_channels_prefix(active: Seq<Option<DescriptorModel>>, n: int)
    requires
        0 <= n <= active.len(),
    ensures
        channels_in(active.take(n)) <= channels_in(active),
    decreases active.len(),
{
    if n < active.len() {
        lemma_channels_prefix(active.drop_last(), n);
        assert(active.drop_last().take(n) =~= active.take(n));
    } else {
        assert(active.take(n) =~= active);
    }
}

/// The ports of a receiver are in use by it, and none is listed twice.
proof fn lemma_receiver_ports(routes: Routes, id: usize, n: nat)
    requires
        n <= usize::MAX,
    ensures
        forall|port: usize| #[trigger]
            ports_of_receiver(routes, id, n).contains(port) <==> port < n && routes.contains_key(
                port,
            ) && routes[port].0.transceiver_id == id,
        ports_of_receiver(routes, id, n).no_duplicates(),
    decreases n,
{
    if n > 0 {
        let lower = ports_of_receiver(routes, id, (n - 1) as nat);
        let all = ports_of_receiver(routes, id, n);
        let last = (n - 1) as usize;
        lemma_receiver_ports(routes, id, (n - 1) as nat);
        if routes.contains_key(last) && routes[last].0.transceiver_id == id {
            assert forall|port: usize| #[trigger] all.contains(port) <==> port < n
                && routes.contains_key(port) && routes[port].0.transceiver_id == id by {
                lemma_push_contains(lower, last, port);
            }
            assert(!lower.contains(last));
            assert forall|i: int, j: int|
                0 <= i < all.len() && 0 <= j < all.len() && i != j implies all[i] != all[j] by {
                if i < lower.len() && j < lower.len() {
                    assert(lower[i] != lower[j]);
                } else if i < lower.len() {
                    assert(lower.contains(lower[i]));
                } else {
                    assert(lower.contains(lower[j]));
                }
            }
        }
    }
}

proof fn lemma_same_receiver_ports(a: Routes, b: Routes, id: usize, n: nat)
    requires
        n <= usize::MAX,
        forall|port: usize|
            port < n ==> (#[trigger] a.contains_key(port) && a[port].0.transceiver_id == id
                <==> b.contains_key(port) && b[port].0.transceiver_id == id),
    ensures
        ports_of_receiver(a, id, n) == ports_of_receiver(b, id, n),
    decreases n,
{
    if n > 0 {
        lemma_same_receiver_ports(a, b, id, (n - 1) as nat);
        let last = (n - 1) as usize;
        assert(a.contains_key(last) && a[last].0.transceiver_id == id <==> b.contains_key(last)
            && b[last].0.transceiver_id == id);
    }
}

/// Of two lists of ports, one within the other and without duplicates, the
/// inner one is not longer.
proof fn lemma_no_longer(inner: Seq<usize>, outer: Seq<usize>)
    requires
        inner.no_duplicates(),
        forall|port: usize| #[trigger] inner.contains(port) ==> outer.contains(port),
    ensures
        inner.len() <= outer.len(),
{
    inner.unique_seq_to_set();
    vstd::seq_lib::seq_to_set_is_finite(outer);
    assert forall|port: usize| inner.to_set().contains(port) implies outer.to_set().contains(
        port,
    ) by {
        assert(inner.contains(port));
    }
    vstd::set_lib::lemma_len_subset(inner.to_set(), outer.to_set());
    outer.lemma_cardinality_of_set();
}

proof fn lemma_deleted_consistent(state: ReceiversModel, id: ReceiverId)
    requires
        state.consistent(),
        state.has(id),
    ensures
        state.deleted(id).consistent(),
        channels_of(state.active[id as int]) <= state.used_channels,
{
    let after = state.deleted(id);
    let n = state.max_channels as nat;
    lemma_channels_update(state.active, id as int, None);
    lemma_receiver_ports(state.matrix.routes, id, n);
    assert forall|port: usize| #[trigger]
        after.matrix.routes.contains_key(port) implies after.owned(port) by {
        lemma_unroute_leaves_others(state.matrix.routes, id, port);
        assert(state.owned(port));
    }
    assert forall|port: usize| port < state.max_channels implies #[trigger] after.ports[port as int]
        == playing(after.matrix.routes, port) by {
        lemma_unroute_leaves_others(state.matrix.routes, id, port);
        assert(state.ports[port as int] == playing(state.matrix.routes, port));
    }
    assert forall|other: usize| other < state.max_channels implies (#[trigger] ports_of_receiver(
        after.matrix.routes,
        other,
        n,
    )).len() <= taken_by(after.active[other as int]) by {
        assert forall|port: usize| port < n && other != id implies (
        #[trigger] after.matrix.routes.contains_key(port)
            && after.matrix.routes[port].0.transceiver_id == other
            <==> state.matrix.routes.contains_key(port)
            && state.matrix.routes[port].0.transceiver_id == other) by {
            lemma_unroute_leaves_others(state.matrix.routes, id, port);
        }
        if other == id {
            lemma_no_ports_without_routes(after.matrix.routes, id, n);
        } else {
            lemma_same_receiver_ports(after.matrix.routes, state.matrix.routes, other, n);
            assert(ports_of_receiver(state.matrix.routes, other, n).len() <= taken_by(
                state.active[other as int],
            ));
        }
    }
}

proof fn lemma_activated_consistent(state: ReceiversModel, desc: DescriptorModel)
    requires
        state.consistent(),
        state.can_activate(desc),
    ensures
        state.activated(desc).consistent(),
{
    let after = state.activated(desc);
    let n = state.max_channels as nat;
    let id = desc.id;
    let changed = lowest_vacant(state.matrix, desc.channels);
    let routes = state.matrix.routes;
    lemma_channels_update(state.active, id as int, Some(desc));
    lemma_route_uses_vacant_ports(state.matrix, id, desc.channels, desc);
    assert forall|port: usize| #[trigger]
        after.matrix.routes.contains_key(port) implies after.owned(port) by {
        if changed.contains(port) {
            let i = changed.index_of(port);
            assert(changed[i] == port);
        } else {
            assert(routes.contains_key(port));
            assert(state.owned(port));
        }
    }
    assert forall|port: usize| port < state.max_channels implies #[trigger] after.ports[port as int]
        == playing(after.matrix.routes, port) by {
        assert(state.ports[port as int] == playing(routes, port));
        if !changed.contains(port) {
            assert(after.matrix.routes.contains_key(port) == routes.contains_key(port));
        }
    }
    assert forall|other: usize| other < state.max_channels implies (#[trigger] ports_of_receiver(
        after.matrix.routes,
        other,
        n,
    )).len() <= taken_by(after.active[other as int]) by {
        assert forall|port: usize| port < n && other != id implies (
        #[trigger] after.matrix.routes.contains_key(port)
            && after.matrix.routes[port].0.transceiver_id == other <==> routes.contains_key(port)
            && routes[port].0.transceiver_id == other) by {
            if changed.contains(port) {
                let i = changed.index_of(port);
                assert(changed[i] == port);
                assert(after.matrix.routes[changed[i]].0.transceiver_id == id);
                assert(!routes.contains_key(changed[i]));
            }
        }
        if other == id {
            lemma_receiver_ports(after.matrix.routes, id, n);
            let theirs = ports_of_receiver(after.matrix.routes, id, n);
            assert forall|port: usize| #[trigger] theirs.contains(port) implies changed.contains(
                port,
            ) by {
                if !changed.contains(port) {
                    assert(after.matrix.routes.contains_key(port));
                    assert(routes.contains_key(port));
                    assert(state.owned(port));
                }
            }
            lemma_no_longer(theirs, changed);
        } else {
            lemma_same_receiver_ports(after.matrix.routes, routes, other, n);
            assert(ports_of_receiver(routes, other, n).len() <= taken_by(
                state.active[other as int],
            ));
        }
    }
}

proof fn lemma_no_receivers(active: Seq<Option<DescriptorModel>>)
    requires
        forall|i: int| 0 <= i < active.len() ==> active[i] is None,
    ensures
        channels_in(active) == 0,
    decreases active.len(),
{
    if active.len() > 0 {
        lemma_no_receivers(active.drop_last());
    }
}

proof fn lemma_no_ports_without_routes(routes: Routes, id: usize, n: nat)
    requires
        forall|port: usize|
            routes.contains_key(port) ==> (#[trigger] routes[port]).0.transceiver_id != id,
    ensures
        ports_of_receiver(routes, id, n).len() == 0,
    decreases n,
{
    if n > 0 {
        lemma_no_ports_without_routes(routes, id, (n - 1) as nat);
    }
}

/// A number that was claimed for a session exists and is free.
pub proof fn lemma_claimed_number_is_free(state: ReceiversModel, session: (u64, u64))
    requires
        state.consistent(),
        state.claim(session) is Ok,
    ensures
        state.claim(session)->Ok_0.0 < state.max_channels,
        state.claimed(session).active[state.claim(session)->Ok_0.0 as int] is None,
{
    if !state.ids.contains_key(session) {
        lemma_free_from(state.active, 0);
    }
}

proof fn lemma_free_from(active: Seq<Option<DescriptorModel>>, i: nat)
    requires
        active.len() <= usize::MAX,
    ensures
        free_from(active, i) matches Some(id) ==> id < active.len() && active[id as int] is None,
    decreases active.len() - i,
{
    if i < active.len() && active[i as int] is Some {
        lemma_free_from(active, i + 1);
    }
}

/// The ports that the first `m` receivers use below `n`.
spec fn ports_in_use(routes: Routes, m: nat, n: nat) -> nat
    decreases m,
{
    if m == 0 {
        0
    } else {
        ports_in_use(routes, (m - 1) as nat, n) + ports_of_receiver(
            routes,
            (m - 1) as usize,
            n,
        ).len()
    }
}

proof fn lemma_one_port_more(routes: Routes, m: nat, n: nat)
    requires
        0 < n <= usize::MAX,
        m <= usize::MAX,
    ensures
        ports_in_use(routes, m, n) == ports_in_use(routes, m, (n - 1) as nat) + (
        if routes.contains_key((n - 1) as usize) && routes[(n - 1) as usize].0.transceiver_id < m {
            1int
        } else {
            0int
        }),
    decreases m,
{
    if m > 0 {
        lemma_one_port_more(routes, (m - 1) as nat, n);
    }
}

proof fn lemma_no_port(routes: Routes, m: nat)
    ensures
        ports_in_use(routes, m, 0) == 0,
    decreases m,
{
    if m > 0 {
        lemma_no_port(routes, (m - 1) as nat);
    }
}

/// A port is either in use by one of the receivers or vacant.
proof fn lemma_ports_in_use(routes: Routes, m: nat, n: nat)
    requires
        n <= usize::MAX,
        m <= usize::MAX,
        forall|port: usize|
            routes.contains_key(port) ==> (#[trigger] routes[port]).0.transceiver_id < m,
    ensures
        ports_in_use(routes, m, n) + vacant_ports(routes, n).len() == n,
    decreases n,
{
    if n > 0 {
        lemma_ports_in_use(routes, m, (n - 1) as nat);
        lemma_one_port_more(routes, m, n);
    } else {
        lemma_no_port(routes, m);
    }
}

proof fn lemma_ports_within_channels(state: ReceiversModel, m: nat)
    requires
        state.consistent(),
        m <= state.max_channels,
        forall|id: int|
            0 <= id < state.active.len() ==> (#[trigger] state.active[id] matches Some(desc)
                ==> desc.channels > 0),
    ensures
        ports_in_use(state.matrix.routes, m, state.max_channels as nat) <= channels_in(
            state.active.take(m as int),
        ),
    decreases m,
{
    if m > 0 {
        lemma_ports_within_channels(state, (m - 1) as nat);
        let id = (m - 1) as usize;
        assert(state.active.take(m as int).drop_last() =~= state.active.take(m - 1));
        assert(ports_of_receiver(state.matrix.routes, id, state.max_channels as nat).len()
            <= taken_by(state.active[id as int]));
        assert(state.active[m - 1] matches Some(desc) ==> desc.channels > 0);
    }
}

/// A receiver whose channels were reserved finds ports for them: where every
/// receiver has at least one channel, there are at least as many vacant ports
/// as there are channels left.
pub proof fn lemma_reserved_channels_have_ports(state: ReceiversModel, desc: DescriptorModel)
    requires
        state.consistent(),
        state.has_channels_for(desc),
        forall|id: int|
            0 <= id < state.active.len() ==> (#[trigger] state.active[id] matches Some(desc)
                ==> desc.channels > 0),
        desc.id < state.max_channels,
        state.active[desc.id as int] is None,
    ensures
        state.reserved(desc).can_activate(desc),
{
    let n = state.max_channels as nat;
    let routes = state.matrix.routes;
    assert forall|port: usize| routes.contains_key(port) implies (
    #[trigger] routes[port]).0.transceiver_id < n by {
        assert(state.owned(port));
    }
    lemma_ports_in_use(routes, n, n);
    lemma_ports_within_channels(state, n);
    assert(state.active.take(n as int) =~= state.active);
}

/// Deleting a receiver that was just created gives all of its channels and
/// ports back.
pub proof fn lemma_delete_undoes_create(state: ReceiversModel, desc: DescriptorModel)
    requires
        state.consistent(),
        state.has_channels_for(desc),
        state.reserved(desc).can_activate(desc),
    ensures
        ({
            let after = state.reserved(desc).activated(desc).deleted(desc.id);
            &&& after.used_channels == state.used_channels
            &&& after.active == state.active
            &&& after.matrix == state.matrix
            &&& after.ports == state.ports
            &&& after.ids == state.ids.remove((desc.session_id, desc.session_version))
        }),
{
    let reserved = state.reserved(desc);
    let created = reserved.activated(desc);
    let after = created.deleted(desc.id);
    let routes = state.matrix.routes;
    let n = state.max_channels as nat;
    assert forall|port: usize| routes.contains_key(port) implies (
    #[trigger] routes[port]).0.transceiver_id != desc.id by {
        assert(state.owned(port));
    }
    lemma_unroute_undoes_route(state.matrix, desc.id, desc.channels, desc);
    assert(after.active =~= state.active);
    lemma_activated_consistent(reserved, desc);
    lemma_deleted_consistent(created, desc.id);
    assert forall|p: int| 0 <= p < n implies after.ports[p] == state.ports[p] by {
        let port = p as usize;
        assert(after.ports[port as int] == playing(after.matrix.routes, port));
        assert(state.ports[port as int] == playing(routes, port));
    }
    assert(after.ports =~= state.ports);
    assert(after.ids =~= state.ids.remove((desc.session_id, desc.session_version)));
}

/// A session keeps the number of its receiver: where a receiver is created for
/// a session that has one, the new one gets the number of the old one, which is
/// replaced.
pub proof fn lemma_session_keeps_its_number(state: ReceiversModel, desc: DescriptorModel)
    requires
        state.consistent(),
        state.has_channels_for(desc),
        state.reserved(desc).can_activate(desc),
    ensures
        ({
            let session = (desc.session_id, desc.session_version);
            let created = state.reserved(desc).activated(desc);
            &&& created.claim(session) == Ok::<
                (ReceiverId, Option<DescriptorModel>),
                RxErrorModel,
            >((desc.id, Some(desc)))
            &&& created.claimed(session).used_channels == state.used_channels
            &&& created.claimed(session).active == state.active
            &&& created.claimed(session).matrix == state.matrix
            &&& created.claimed(session).ports == state.ports
        }),
{
    lemma_delete_undoes_create(state, desc);
    let session = (desc.session_id, desc.session_version);
    let created = state.reserved(desc).activated(desc);
    let known = created.forgotten(session);
    assert(known.deleted(desc.id).active =~= created.deleted(desc.id).active);
    assert(known.deleted(desc.id).ports =~= created.deleted(desc.id).ports);
}

/// Deleting a receiver leaves what the others play out as it was.
pub proof fn lemma_delete_leaves_others(state: ReceiversModel, id: ReceiverId, port: usize)
    requires
        state.consistent(),
        state.has(id),
        port < state.max_channels,
    ensures
        state.ports[port as int] matches Some((channel, other)) && other != id
            ==> state.deleted(id).ports[port as int] == state.ports[port as int],
        state.ports[port as int] matches Some((channel, other)) && other == id
            ==> state.deleted(id).ports[port as int] is None,
        forall|other: int|
            0 <= other < state.max_channels && other != id ==> #[trigger] state.deleted(
                id,
            ).active[other] == state.active[other],
{
    lemma_receiver_ports(state.matrix.routes, id, state.max_channels as nat);
    assert(state.ports[port as int] == playing(state.matrix.routes, port));
}

proof fn lemma_lowest_free(active: Seq<Option<DescriptorModel>>, i: nat)
    requires
        active.len() <= usize::MAX,
        i <= active.len(),
    ensures
        free_from(active, i) matches Some(id) ==> i <= id < active.len() && active[id as int] is None
            && forall|k: int| i <= k < id ==> (#[trigger] active[k]) is Some,
        free_from(active, i) is None ==> forall|k: int|
            i <= k < active.len() ==> (#[trigger] active[k]) is Some,
    decreases active.len() - i,
{
    if i < active.len() && active[i as int] is Some {
        lemma_lowest_free(active, i + 1);
    }
}

/// Which number a session gets. One that has a receiver gets the number of it,
/// and the receiver is handed out. One that is not known gets the lowest number
/// that no receiver has, and there is nothing to hand out. Where all numbers are
/// taken it gets none, and is told how many there are. Where a session is known
/// but its receiver is not, it gets none either, and is told which is missing.
pub proof fn lemma_which_number_a_session_gets(state: ReceiversModel, session: (u64, u64))
    requires
        state.active.len() == state.max_channels,
    ensures
        state.ids.contains_key(session) ==> ({
            let id = state.ids[session];
            if id < state.max_channels && state.active[id as int] is Some {
                state.claim(session) == Ok::<
                    (ReceiverId, Option<DescriptorModel>),
                    RxErrorModel,
                >((id, state.active[id as int]))
            } else {
                state.claim(session) == Err::<
                    (ReceiverId, Option<DescriptorModel>),
                    RxErrorModel,
                >(RxErrorModel::InvalidReceiverId(id as nat))
            }
        }),
        !state.ids.contains_key(session) ==> match state.claim(session) {
            Ok((id, replaced)) => {
                &&& replaced is None
                &&& id < state.max_channels
                &&& state.active[id as int] is None
                &&& forall|k: int| 0 <= k < id ==> (#[trigger] state.active[k]) is Some
            },
            Err(error) => {
                &&& error == RxErrorModel::MaxChannelsExceeded(state.max_channels as nat)
                &&& forall|k: int|
                    0 <= k < state.max_channels ==> (#[trigger] state.active[k]) is Some
            },
        },
{
    lemma_lowest_free(state.active, 0);
}

/// What claiming a number changes: nothing for a session that is not known. One
/// that is known is forgotten, and its receiver, where it has one, is deleted.
pub proof fn lemma_what_claiming_changes(state: ReceiversModel, session: (u64, u64))
    ensures
        !state.ids.contains_key(session) ==> state.claimed(session) == state,
        !state.claimed(session).ids.contains_key(session),
        state.ids.contains_key(session) && state.has(state.ids[session]) ==> ({
            let id = state.ids[session];
            let now = state.claimed(session);
            &&& now.active == state.active.update(id as int, None)
            &&& now.used_channels == state.deleted(id).used_channels
            &&& now.matrix == state.deleted(id).matrix
            &&& now.ports == state.deleted(id).ports
        }),
        state.ids.contains_key(session) && !state.has(state.ids[session]) ==> ({
            let now = state.claimed(session);
            &&& now.active == state.active
            &&& now.used_channels == state.used_channels
            &&& now.matrix == state.matrix
            &&& now.ports == state.ports
            &&& now.ids == state.ids.remove(session)
        }),
{
    if state.ids.contains_key(session) {
        let known = state.forgotten(session);
        let id = state.ids[session];
        if known.has(id) {
            assert(known.deleted(id).ports =~= state.deleted(id).ports);
        }
    }
}

/// What reserving the channels of a receiver changes: so many more are in use, and
/// the session has the number of the receiver. There is room for a receiver where
/// no more than all channels are in use then. Nothing else changes.
pub proof fn lemma_what_reserving_changes(
    state: ReceiversModel,
    desc: DescriptorModel,
    session: (u64, u64),
)
    ensures
        state.has_channels_for(desc) <==> state.used_channels + desc.channels
            <= state.max_channels,
        state.has_channels_for(desc) ==> ({
            let now = state.reserved(desc);
            &&& now.used_channels == state.used_channels + desc.channels
            &&& now.ids.contains_key((desc.session_id, desc.session_version))
            &&& now.ids[(desc.session_id, desc.session_version)] == desc.id
            &&& session != (desc.session_id, desc.session_version) ==> now.ids.contains_key(session)
                == state.ids.contains_key(session) && (state.ids.contains_key(session)
                ==> now.ids[session] == state.ids[session])
            &&& now.max_channels == state.max_channels
            &&& now.active == state.active
            &&& now.matrix == state.matrix
            &&& now.ports == state.ports
        }),
{
}

/// When a receiver can begin to receive: where its number exists and is free, no
/// more channels are active then than are reserved, and there is a port that is
/// not in use for each of its channels. None of these can be missing.
pub proof fn lemma_when_a_receiver_can_begin(state: ReceiversModel, desc: DescriptorModel)
    ensures
        state.can_activate(desc) ==> desc.id < state.max_channels && state.active[desc.id as int]
            is None,
        state.can_activate(desc) ==> channels_in(state.active) + desc.channels
            <= state.used_channels,
        state.can_activate(desc) ==> vacant_ports(
            state.matrix.routes,
            state.max_channels as nat,
        ).len() >= desc.channels,
        !state.can_activate(desc) ==> desc.id >= state.max_channels || state.active[desc.id as int]
            is Some || channels_in(state.active) + desc.channels > state.used_channels
            || vacant_ports(state.matrix.routes, state.max_channels as nat).len() < desc.channels,
{
}

/// What a receiver that begins to receive changes: it has its number, its channels
/// are played out in order on the lowest ports that were not in use, and the
/// other ports and receivers are as they were. What is reserved stays.
pub proof fn lemma_what_activating_changes(state: ReceiversModel, desc: DescriptorModel, port: usize)
    requires
        state.consistent(),
        state.can_activate(desc),
        port < state.max_channels,
    ensures
        ({
            let now = state.activated(desc);
            let changed = lowest_vacant(state.matrix, desc.channels);
            &&& now.active == state.active.update(desc.id as int, Some(desc))
            &&& now.max_channels == state.max_channels
            &&& now.used_channels == state.used_channels
            &&& now.ids == state.ids
            &&& now.matrix.channels == state.matrix.channels
            &&& forall|i: int|
                0 <= i < changed.len() ==> {
                    &&& now.ports[#[trigger] changed[i] as int] == Some((i as usize, desc.id))
                    &&& now.matrix.routes.contains_key(changed[i])
                    &&& now.matrix.routes[changed[i]].1 == desc
                    &&& state.ports[changed[i] as int] is None
                }
            &&& !changed.contains(port) ==> now.ports[port as int] == state.ports[port as int]
            &&& !changed.contains(port) ==> now.matrix.routes.contains_key(port)
                == state.matrix.routes.contains_key(port)
        }),
{
    let now = state.activated(desc);
    let changed = lowest_vacant(state.matrix, desc.channels);
    lemma_route_uses_vacant_ports(state.matrix, desc.id, desc.channels, desc);
    assert forall|i: int| 0 <= i < changed.len() implies {
        &&& now.ports[#[trigger] changed[i] as int] == Some((i as usize, desc.id))
        &&& now.matrix.routes.contains_key(changed[i])
        &&& now.matrix.routes[changed[i]].1 == desc
        &&& state.ports[changed[i] as int] is None
    } by {
        assert(changed[i] < state.max_channels);
        assert(!state.matrix.routes.contains_key(changed[i]));
        assert(changed.contains(changed[i]));
        assert(state.ports[changed[i] as int] == playing(state.matrix.routes, changed[i]));
    }
}

/// What deleting a receiver changes: its channels are in use no more, its session
/// and its number are free again, and the ports that have played it out play out
/// nothing. What belongs to others is as it was.
pub proof fn lemma_what_deleting_changes(
    state: ReceiversModel,
    id: ReceiverId,
    port: usize,
    session: (u64, u64),
)
    requires
        state.consistent(),
        state.has(id),
        port < state.max_channels,
    ensures
        ({
            let desc = state.active[id as int]->0;
            let now = state.deleted(id);
            &&& now.max_channels == state.max_channels
            &&& now.used_channels == state.used_channels - desc.channels
            &&& now.active == state.active.update(id as int, None)
            &&& !now.ids.contains_key((desc.session_id, desc.session_version))
            &&& session != (desc.session_id, desc.session_version) ==> now.ids.contains_key(session)
                == state.ids.contains_key(session) && (state.ids.contains_key(session)
                ==> now.ids[session] == state.ids[session])
            &&& now.ports[port as int] == (if state.matrix.routes.contains_key(port)
                && state.matrix.routes[port].0.transceiver_id == id {
                None
            } else {
                state.ports[port as int]
            })
            &&& now.matrix.channels == state.matrix.channels
            &&& now.matrix.routes.contains_key(port) <==> state.matrix.routes.contains_key(port)
                && state.matrix.routes[port].0.transceiver_id != id
        }),
{
    lemma_deleted_consistent(state, id);
    lemma_receiver_ports(state.matrix.routes, id, state.max_channels as nat);
}

/// A port plays out the channel of the receiver that is routed to it, and nothing
/// where nothing is routed to it.
pub proof fn lemma_ports_play_what_is_routed(state: ReceiversModel, port: usize)
    requires
        state.consistent(),
        port < state.max_channels,
    ensures
        state.ports[port as int] is Some <==> state.matrix.routes.contains_key(port),
        state.ports[port as int] matches Some((channel, receiver)) ==> {
            &&& state.matrix.routes[port].0.channel_nr == channel
            &&& state.matrix.routes[port].0.transceiver_id == receiver
            &&& state.has(receiver)
            &&& state.active[receiver as int] == Some(state.matrix.routes[port].1)
        },
{
    assert(state.ports[port as int] == playing(state.matrix.routes, port));
    if state.matrix.routes.contains_key(port) {
        assert(state.owned(port));
    }
}

/// The channels of the receivers are added up. A number without a receiver counts
/// nothing.
pub proof fn lemma_channels_add_up(
    active: Seq<Option<DescriptorModel>>,
    desc: DescriptorModel,
    i: int,
)
    requires
        0 <= i < active.len(),
        active[i] is None,
    ensures
        channels_in(active.push(Some(desc))) == channels_in(active) + desc.channels,
        channels_in(active.push(None)) == channels_in(active),
        channels_in(active.update(i, Some(desc))) == channels_in(active) + desc.channels,
        channels_in(Seq::<Option<DescriptorModel>>::empty()) == 0,
{
    assert(active.push(Some(desc)).drop_last() =~= active);
    assert(active.push(None).drop_last() =~= active);
    lemma_channels_update(active, i, Some(desc));
}

/// What is published when a receiver was deleted: first that it was, then how many
/// channels are in use now, of how many. Nothing is published of a number that no
/// receiver had.
pub proof fn lemma_what_is_published_of_a_deletion(state: ReceiversModel, desc: DescriptorModel)
    ensures
        ({
            let report = state.replacement_report(Some(desc));
            &&& report.len() == 2
            &&& report[0] == StatusModel::Receiver(ReceiverModel::Deleted(desc))
            &&& report[1] == StatusModel::UsedOutputChannels(
                state.used_channels,
                state.max_channels,
            )
            &&& state.deletion_report(desc) == report
        }),
        state.replacement_report(None).len() == 0,
{
}

} // verus!
