//! Which channel of which receiver is played out on which port.

use crate::descriptor::{DescriptorModel, RxDescriptor};
use std::collections::HashMap;
use vstd::prelude::*;

verus! {

/// A channel of a receiver or transmitter.
#[derive(Debug, Clone, Copy, PartialEq, PartialOrd, Eq, Ord, Hash, Structural)]
pub struct Channel {
    pub transceiver_id: usize,
    pub channel_nr: usize,
}

impl Channel {
    pub fn new(transceiver_id: usize, channel_nr: usize) -> (channel: Self)
        ensures
            channel.transceiver_id == transceiver_id,
            channel.channel_nr == channel_nr,
    {
        Channel { transceiver_id, channel_nr }
    }
}

/// What is routed to each port that is in use.
pub type Routes = Map<usize, (Channel, DescriptorModel)>;

/// The mathematical value of an `OutputMatrix`.
pub struct MatrixModel {
    pub channels: usize,
    pub routes: Routes,
}

/// The ports below `n` to which `channel` is routed, in ascending order.
pub open spec fn ports_of(routes: Routes, channel: Channel, n: nat) -> Seq<usize>
    decreases n,
{
    if n == 0 {
        Seq::empty()
    } else {
        let port = (n - 1) as usize;
        let lower = ports_of(routes, channel, (n - 1) as nat);
        if routes.contains_key(port) && routes[port].0 == channel {
            lower.push(port)
        } else {
            lower
        }
    }
}

/// The ports below `n` that are not in use, in ascending order.
pub open spec fn vacant_ports(routes: Routes, n: nat) -> Seq<usize>
    decreases n,
{
    if n == 0 {
        Seq::empty()
    } else {
        let port = (n - 1) as usize;
        let lower = vacant_ports(routes, (n - 1) as nat);
        if routes.contains_key(port) {
            lower
        } else {
            lower.push(port)
        }
    }
}

/// The ports below `n` on which something of `receiver` is played out, in
/// ascending order.
pub open spec fn ports_of_receiver(routes: Routes, receiver: usize, n: nat) -> Seq<usize>
    decreases n,
{
    if n == 0 {
        Seq::empty()
    } else {
        let port = (n - 1) as usize;
        let lower = ports_of_receiver(routes, receiver, (n - 1) as nat);
        if routes.contains_key(port) && routes[port].0.transceiver_id == receiver {
            lower.push(port)
        } else {
            lower
        }
    }
}

/// The routes with the channels of a receiver put on the given ports, one
/// after the other.
pub open spec fn routed(
    routes: Routes,
    ports: Seq<usize>,
    receiver: usize,
    desc: DescriptorModel,
) -> Routes
    decreases ports.len(),
{
    if ports.len() == 0 {
        routes
    } else {
        let channel = Channel {
            transceiver_id: receiver,
            channel_nr: (ports.len() - 1) as usize,
        };
        routed(routes, ports.drop_last(), receiver, desc).insert(ports.last(), (channel, desc))
    }
}

/// The routes without those of a receiver.
pub open spec fn unrouted(routes: Routes, receiver: usize) -> Routes {
    routes.restrict(
        Set::new(|port: usize| routes.contains_key(port) && routes[port].0.transceiver_id != receiver),
    )
}

/// Routes the channels of receivers to output ports.
#[derive(Debug)]
pub struct OutputMatrix {
    channels: usize,
    mapping: HashMap<usize, (Channel, RxDescriptor)>,
    rev_mapping: Vec<(Channel, Vec<usize>)>,
}

/// The routes that a mapping holds.
spec fn routes_in(mapping: Map<usize, (Channel, RxDescriptor)>) -> Routes {
    mapping.map_values(|route: (Channel, RxDescriptor)| (route.0, route.1@))
}

/// Whether the reverse mapping lists, for each channel that is routed to a
/// port below `n`, just these ports, and no channel twice.
spec fn reversed(rev_mapping: Seq<(Channel, Vec<usize>)>, routes: Routes, n: nat) -> bool {
    &&& forall|i: int|
        0 <= i < rev_mapping.len() ==> {
            &&& (#[trigger] rev_mapping[i]).1@ == ports_of(routes, rev_mapping[i].0, n)
            &&& rev_mapping[i].1@.len() > 0
        }
    &&& forall|i: int, j: int|
        0 <= i < j < rev_mapping.len() ==> (#[trigger] rev_mapping[i]).0 != (
        #[trigger] rev_mapping[j]).0
    &&& forall|channel: Channel|
        (#[trigger] ports_of(routes, channel, n)).len() > 0 ==> exists|i: int|
            0 <= i < rev_mapping.len() && (#[trigger] rev_mapping[i]).0 == channel
}

impl View for OutputMatrix {
    type V = MatrixModel;

    closed spec fn view(&self) -> MatrixModel {
        MatrixModel { channels: self.channels, routes: routes_in(self.mapping@) }
    }
}

/// Whether a port is among the ports that a lookup by channel finds.
pub open spec fn lists(ports: Option<Seq<usize>>, port: usize) -> bool {
    ports matches Some(list) && list.contains(port)
}

impl OutputMatrix {
    /// Only ports that exist are in use, and the lookup by channel agrees with
    /// the lookup by port.
    pub open spec fn wf(&self) -> bool {
        self.ports_exist() && self.is_reversed()
    }

    /// Only ports that exist are in use.
    pub closed spec fn ports_exist(&self) -> bool {
        &&& self.mapping@.dom().finite()
        &&& forall|port: usize|
            self.mapping@.contains_key(port) ==> port < self.channels
    }

    /// The lookup by channel agrees with the lookup by port.
    pub closed spec fn is_reversed(&self) -> bool {
        reversed(self.rev_mapping@, self@.routes, self.channels as nat)
    }

    /// What a lookup by channel finds.
    pub closed spec fn outputs_of(&self, channel: Channel) -> Option<Seq<usize>> {
        if exists|i: int| self.listed_at(i, channel) {
            Some(self.rev_mapping@[choose|i: int| self.listed_at(i, channel)].1@)
        } else {
            None
        }
    }

    spec fn listed_at(&self, i: int, channel: Channel) -> bool {
        0 <= i < self.rev_mapping@.len() && self.rev_mapping@[i].0 == channel
    }

    /// What a lookup by channel finds are the ports to which the channel is
    /// routed.
    proof fn lemma_outputs_of(&self, channel: Channel)
        requires
            self.wf(),
        ensures
            self.outputs_of(channel) == (if ports_of(
                self@.routes,
                channel,
                self@.channels as nat,
            ).len() == 0 {
                None
            } else {
                Some(ports_of(self@.routes, channel, self@.channels as nat))
            }),
    {
        if ports_of(self@.routes, channel, self.channels as nat).len() > 0 {
            let i = choose|i: int|
                0 <= i < self.rev_mapping@.len() && (#[trigger] self.rev_mapping@[i]).0 == channel;
            assert(self.listed_at(i, channel));
        }
    }

    /// Only ports that exist are in use.
    pub proof fn lemma_ports_exist(&self)
        requires
            self.wf(),
        ensures
            self@.routes.dom().finite(),
            forall|port: usize|
                #[trigger] self@.routes.contains_key(port) ==> port < self@.channels,
    {
        assert(self@.routes.dom() =~= self.mapping@.dom());
    }

    /// A matrix with that many ports, none of which is in use.
    pub fn default(channels: usize) -> (matrix: OutputMatrix)
        ensures
            matrix.wf(),
            matrix@.channels == channels,
            matrix@.routes == Map::<usize, (Channel, DescriptorModel)>::empty(),
    {
        let matrix = OutputMatrix {
            channels,
            mapping: HashMap::new(),
            rev_mapping: Vec::new(),
        };
        proof {
            assert(matrix@.routes =~= Map::<usize, (Channel, DescriptorModel)>::empty());
            assert forall|channel: Channel, n: nat| (#[trigger] ports_of(
                matrix@.routes,
                channel,
                n,
            )).len() == 0 by {
                lemma_no_ports(matrix@.routes, channel, n);
            }
        }
        matrix
    }

    /// The ports on which a channel is played out, in ascending order; `None`
    /// where it is not played out at all. Each of them is listed once, and they
    /// are those on which a lookup by port finds the channel.
    pub fn get_outputs(&self, ch: &Channel) -> (ports: Option<&Vec<usize>>)
        requires
            self.wf(),
        ensures
            ports is None <==> ports_of(self@.routes, *ch, self@.channels as nat).len() == 0,
            ports matches Some(p) ==> p@ == ports_of(self@.routes, *ch, self@.channels as nat),
            match ports {
                Some(p) => self.outputs_of(*ch) == Some(p@),
                None => self.outputs_of(*ch) is None,
            },
            match ports {
                Some(p) => {
                    &&& p@.len() > 0
                    &&& p@.no_duplicates()
                    &&& forall|port: usize| #[trigger]
                        p@.contains(port) <==> self@.routes.contains_key(port)
                            && self@.routes[port].0 == *ch
                },
                None => forall|port: usize| #[trigger]
                    self@.routes.contains_key(port) ==> self@.routes[port].0 != *ch,
            },
    {
        let mut i: usize = 0;
        while i < self.rev_mapping.len()
            invariant
                i <= self.rev_mapping@.len(),
                self.wf(),
                forall|k: int| 0 <= k < i ==> (#[trigger] self.rev_mapping@[k]).0 != *ch,
            decreases self.rev_mapping@.len() - i,
        {
            if self.rev_mapping[i].0 == *ch {
                proof {
                    lemma_all_lookups_agree(self@.routes, *ch, self.channels as nat);
                    self.lemma_outputs_of(*ch);
                }
                return Some(&self.rev_mapping[i].1);
            }
            i = i + 1;
        }
        proof {
            lemma_all_lookups_agree(self@.routes, *ch, self.channels as nat);
            self.lemma_outputs_of(*ch);
            assert forall|port: usize| #[trigger]
                self@.routes.contains_key(port) implies self@.routes[port].0 != *ch by {
                assert(!ports_of(self@.routes, *ch, self.channels as nat).contains(port));
            }
        }
        None
    }

    /// What is played out on a port.
    pub fn get_channel(&self, output: usize) -> (route: Option<&(Channel, RxDescriptor)>)
        requires
            self.wf(),
        ensures
            route is Some <==> self@.routes.contains_key(output),
            route matches Some(r) ==> self@.routes[output] == (r.0, r.1@),
    {
        self.mapping.get(&output)
    }

    /// The number of ports.
    pub fn port_count(&self) -> (ports: usize)
        ensures
            ports == self@.channels,
    {
        self.channels
    }

    /// The number of ports that are not in use.
    pub fn free_ports(&self) -> (free: usize)
        requires
            self.wf(),
        ensures
            free == vacant_ports(self@.routes, self@.channels as nat).len(),
            free == self@.channels - self@.routes.dom().len(),
    {
        proof {
            assert(self.mapping@.dom() =~= self@.routes.dom());
            lemma_vacant_count(self@.routes, self.channels as nat);
        }
        self.channels - self.mapping.len()
    }

    /// Puts the channels of a receiver on the lowest ports that are not in
    /// use, and tells which these are. Where there are too few, nothing
    /// changes. A receiver without channels takes one port, where there is
    /// one.
    pub fn auto_route(
        &mut self,
        receiver: usize,
        channels: usize,
        desc: RxDescriptor,
    ) -> (ports: Option<Vec<usize>>)
        requires
            old(self).wf(),
        ensures
            final(self).wf(),
            final(self)@.channels == old(self)@.channels,
            ports is None <==> vacant_ports(old(self)@.routes, old(self)@.channels as nat).len()
                < channels,
            ports is None ==> final(self)@ == old(self)@,
            ports matches Some(p) ==> {
                &&& p@ == lowest_vacant(old(self)@, channels)
                &&& final(self)@.routes == routed(old(self)@.routes, p@, receiver, desc@)
            },
    {
        if self.free_ports() < channels {
            return None;
        }
        let ghost before = self@.routes;
        let ghost all = vacant_ports(before, self.channels as nat);
        let ghost wanted: nat = if channels == 0 { 1 } else { channels as nat };
        let mut ports: Vec<usize> = Vec::new();
        let mut channel: usize = 0;
        let mut port: usize = 0;
        let mut done: bool = false;
        while port < self.channels && !done
            invariant
                port <= self.channels,
                self.channels == old(self).channels,
                before == old(self)@.routes,
                self.mapping@.dom().finite(),
                forall|p: usize| self.mapping@.contains_key(p) ==> p < self.channels,
                wanted == (if channels == 0 { 1 } else { channels as nat }),
                channel == ports@.len(),
                ports@.len() <= wanted,
                done <==> ports@.len() == wanted,
                all == vacant_ports(before, self.channels as nat),
                ports@ == vacant_ports(before, port as nat),
                routes_in(self.mapping@) == routed(before, ports@, receiver, desc@),
            decreases self.channels - port,
        {
            proof {
                lemma_vacant_bound(before, port as nat);
                lemma_routed_elsewhere(before, ports@, receiver, desc@, port);
                assert(routes_in(self.mapping@).contains_key(port) == self.mapping@.contains_key(
                    port,
                ));
            }
            if !self.mapping.contains_key(&port) {
                let ghost mapping = self.mapping@;
                self.mapping.insert(port, (Channel::new(receiver, channel), desc.clone()));
                ports.push(port);
                channel = channel + 1;
                if channel >= channels {
                    done = true;
                }
                proof {
                    assert(ports@.drop_last() =~= vacant_ports(before, port as nat));
                    assert(routes_in(self.mapping@) =~= routed(before, ports@, receiver, desc@));
                }
            }
            port = port + 1;
        }
        proof {
            lemma_vacant_prefix(before, port as nat, self.channels as nat);
            assert(ports@ =~= lowest_vacant(old(self)@, channels));
        }
        self.update_rev_mapping();
        Some(ports)
    }

    /// Takes what belongs to a receiver off the ports, and tells which ports
    /// these were.
    pub fn auto_unroute(&mut self, receiver: usize) -> (ports: Vec<usize>)
        requires
            old(self).wf(),
        ensures
            final(self).wf(),
            final(self)@.channels == old(self)@.channels,
            ports@ == ports_of_receiver(
                old(self)@.routes,
                receiver,
                old(self)@.channels as nat,
            ),
            final(self)@.routes == unrouted(old(self)@.routes, receiver),
    {
        let ghost before = self.mapping@;
        let mut ports: Vec<usize> = Vec::new();
        let mut port: usize = 0;
        while port < self.channels
            invariant
                port <= self.channels,
                self.channels == old(self).channels,
                before == old(self).mapping@,
                self.mapping@.dom().finite(),
                forall|p: usize| before.contains_key(p) ==> p < self.channels,
                ports@ == ports_of_receiver(routes_in(before), receiver, port as nat),
                forall|p: usize|
                    #[trigger] self.mapping@.contains_key(p) <==> before.contains_key(p) && (p
                        >= port || before[p].0.transceiver_id != receiver),
                forall|p: usize|
                    self.mapping@.contains_key(p) ==> #[trigger] self.mapping@[p] == before[p],
            decreases self.channels - port,
        {
            let theirs: bool = match self.mapping.get(&port) {
                Some(route) => route.0.transceiver_id == receiver,
                None => false,
            };
            if theirs {
                self.mapping.remove(&port);
                ports.push(port);
            }
            port = port + 1;
        }
        assert(routes_in(self.mapping@) =~= unrouted(routes_in(before), receiver));
        self.update_rev_mapping();
        ports
    }

    /// Makes the lookup by channel agree with the lookup by port, which stays
    /// as it was: a lookup by channel finds a port exactly where a lookup by
    /// that port finds the channel, each port once, and is never empty.
    pub fn update_rev_mapping(&mut self)
        requires
            old(self).ports_exist(),
        ensures
            final(self).wf(),
            final(self)@ == old(self)@,
            forall|channel: Channel, port: usize| #[trigger]
                lists(final(self).outputs_of(channel), port) <==> old(self)@.routes.contains_key(
                    port,
                ) && old(self)@.routes[port].0 == channel,
            forall|channel: Channel| (#[trigger] final(self).outputs_of(channel)) matches Some(list)
                ==> list.len() > 0 && list.no_duplicates(),
    {
        self.rev_mapping.clear();
        let ghost routes = self@.routes;
        let mut port: usize = 0;
        proof {
            assert forall|channel: Channel| (#[trigger] ports_of(routes, channel, 0)).len() == 0 by {
            }
        }
        while port < self.channels
            invariant
                port <= self.channels,
                self.channels == old(self).channels,
                self.mapping == old(self).mapping,
                routes == routes_in(self.mapping@),
                reversed(self.rev_mapping@, routes, port as nat),
            decreases self.channels - port,
        {
            match self.mapping.get(&port) {
                Some(route) => {
                    let channel = route.0;
                    list_port(&mut self.rev_mapping, channel, port, Ghost(routes));
                },
                None => {
                    proof {
                        lemma_reversed_skip(self.rev_mapping@, routes, port as nat);
                    }
                },
            }
            port = port + 1;
        }
        proof {
            assert forall|channel: Channel, port: usize| #[trigger]
                lists(self.outputs_of(channel), port) <==> routes.contains_key(port)
                    && routes[port].0 == channel by {
                self.lemma_outputs_of(channel);
                lemma_all_lookups_agree(routes, channel, self.channels as nat);
                let all = ports_of(routes, channel, self.channels as nat);
                assert(all.contains(port) <==> routes.contains_key(port) && routes[port].0
                    == channel);
            }
            assert forall|channel: Channel|
                (#[trigger] self.outputs_of(channel)) is Some implies self.outputs_of(
                channel,
            )->0.len() > 0 && self.outputs_of(channel)->0.no_duplicates() by {
                self.lemma_outputs_of(channel);
                lemma_all_lookups_agree(routes, channel, self.channels as nat);
            }
        }
    }
}

/// Lists a port under the channel that is routed to it.
fn list_port(
    rev_mapping: &mut Vec<(Channel, Vec<usize>)>,
    channel: Channel,
    port: usize,
    Ghost(routes): Ghost<Routes>,
)
    requires
        reversed(old(rev_mapping)@, routes, port as nat),
        routes.contains_key(port),
        routes[port].0 == channel,
    ensures
        reversed(final(rev_mapping)@, routes, port as nat + 1),
{
    let ghost before = rev_mapping@;
    let mut i: usize = 0;
    while i < rev_mapping.len()
        invariant
            i <= rev_mapping@.len(),
            before == rev_mapping@,
            before == old(rev_mapping)@,
            reversed(before, routes, port as nat),
            routes.contains_key(port),
            routes[port].0 == channel,
            forall|k: int| 0 <= k < i ==> (#[trigger] before[k]).0 != channel,
        decreases rev_mapping@.len() - i,
    {
        if rev_mapping[i].0 == channel {
            rev_mapping[i].1.push(port);
            proof {
                let after = rev_mapping@;
                assert forall|j: int| 0 <= j < after.len() implies {
                    &&& (#[trigger] after[j]).1@ == ports_of(routes, after[j].0, port as nat + 1)
                    &&& after[j].1@.len() > 0
                } by {
                    assert(before[j].0 == after[j].0);
                    if j != i {
                        assert(before[j] == after[j]);
                        assert(before[i as int].0 != before[j].0);
                    }
                }
                assert forall|j: int, k: int| 0 <= j < k < after.len() implies (
                #[trigger] after[j]).0 != (#[trigger] after[k]).0 by {
                    assert(before[j].0 != before[k].0);
                }
                assert forall|c: Channel| (#[trigger] ports_of(routes, c, port as nat + 1)).len()
                    > 0 implies exists|j: int|
                    0 <= j < after.len() && (#[trigger] after[j]).0 == c by {
                    if c == channel {
                        assert(after[i as int].0 == c);
                    } else {
                        assert(ports_of(routes, c, port as nat).len() > 0);
                        let j = choose|j: int|
                            0 <= j < before.len() && (#[trigger] before[j]).0 == c;
                        assert(after[j].0 == c);
                    }
                }
            }
            return;
        }
        i = i + 1;
    }
    let ports: Vec<usize> = vec![port];
    proof {
        if ports_of(routes, channel, port as nat).len() > 0 {
            let j = choose|j: int| 0 <= j < before.len() && (#[trigger] before[j]).0 == channel;
            assert(false);
        }
        assert(ports@ =~= ports_of(routes, channel, port as nat + 1));
    }
    rev_mapping.push((channel, ports));
    proof {
        let after = rev_mapping@;
        assert forall|j: int| 0 <= j < after.len() implies {
            &&& (#[trigger] after[j]).1@ == ports_of(routes, after[j].0, port as nat + 1)
            &&& after[j].1@.len() > 0
        } by {
            if j < before.len() {
                assert(before[j] == after[j]);
            }
        }
        assert forall|j: int, k: int| 0 <= j < k < after.len() implies (#[trigger] after[j]).0 != (
        #[trigger] after[k]).0 by {
            assert(before[j] == after[j]);
            if k < before.len() {
                assert(before[k] == after[k]);
            }
        }
        assert forall|c: Channel| (#[trigger] ports_of(routes, c, port as nat + 1)).len()
            > 0 implies exists|j: int| 0 <= j < after.len() && (#[trigger] after[j]).0 == c by {
            if c == channel {
                assert(after[before.len() as int].0 == c);
            } else {
                assert(ports_of(routes, c, port as nat).len() > 0);
                let j = choose|j: int| 0 <= j < before.len() && (#[trigger] before[j]).0 == c;
                assert(after[j].0 == c);
            }
        }
    }
}

proof fn lemma_reversed_skip(rev_mapping: Seq<(Channel, Vec<usize>)>, routes: Routes, n: nat)
    requires
        reversed(rev_mapping, routes, n),
        n < usize::MAX,
        !routes.contains_key(n as usize),
    ensures
        reversed(rev_mapping, routes, n + 1),
{
    assert forall|c: Channel| (#[trigger] ports_of(routes, c, n + 1)).len() > 0 implies exists|
        j: int,
    |
        0 <= j < rev_mapping.len() && (#[trigger] rev_mapping[j]).0 == c by {
        assert(ports_of(routes, c, n).len() > 0);
    }
}

proof fn lemma_no_ports(routes: Routes, channel: Channel, n: nat)
    requires
        routes == Map::<usize, (Channel, DescriptorModel)>::empty(),
    ensures
        ports_of(routes, channel, n).len() == 0,
    decreases n,
{
    if n > 0 {
        lemma_no_ports(routes, channel, (n - 1) as nat);
    }
}

/// The ports that a matrix takes for a receiver with that many channels.
pub open spec fn lowest_vacant(matrix: MatrixModel, channels: usize) -> Seq<usize> {
    let vacant = vacant_ports(matrix.routes, matrix.channels as nat);
    let wanted: int = if channels == 0 {
        1
    } else {
        channels as int
    };
    if vacant.len() < wanted {
        vacant
    } else {
        vacant.take(wanted)
    }
}

proof fn lemma_vacant_bound(routes: Routes, n: nat)
    requires
        n <= usize::MAX,
    ensures
        vacant_ports(routes, n).len() <= n,
        forall|i: int|
            0 <= i < vacant_ports(routes, n).len() ==> {
                &&& #[trigger] vacant_ports(routes, n)[i] < n
                &&& !routes.contains_key(vacant_ports(routes, n)[i])
            },
        forall|i: int, j: int|
            0 <= i < j < vacant_ports(routes, n).len() ==> #[trigger] vacant_ports(routes, n)[i]
                < #[trigger] vacant_ports(routes, n)[j],
    decreases n,
{
    if n > 0 {
        lemma_vacant_bound(routes, (n - 1) as nat);
    }
}

proof fn lemma_vacant_prefix(routes: Routes, m: nat, n: nat)
    requires
        m <= n,
    ensures
        vacant_ports(routes, m).len() <= vacant_ports(routes, n).len(),
        vacant_ports(routes, n).take(vacant_ports(routes, m).len() as int) == vacant_ports(
            routes,
            m,
        ),
    decreases n,
{
    if m < n {
        lemma_vacant_prefix(routes, m, (n - 1) as nat);
        let count = vacant_ports(routes, m).len() as int;
        assert(vacant_ports(routes, n).take(count) =~= vacant_ports(routes, (n - 1) as nat).take(
            count,
        ));
    } else {
        assert(vacant_ports(routes, n).take(vacant_ports(routes, n).len() as int) =~= vacant_ports(
            routes,
            n,
        ));
    }
}

proof fn lemma_routed_elsewhere(
    routes: Routes,
    ports: Seq<usize>,
    receiver: usize,
    desc: DescriptorModel,
    port: usize,
)
    requires
        forall|i: int| 0 <= i < ports.len() ==> ports[i] != port,
    ensures
        routed(routes, ports, receiver, desc).contains_key(port) == routes.contains_key(port),
        routes.contains_key(port) ==> routed(routes, ports, receiver, desc)[port] == routes[port],
    decreases ports.len(),
{
    if ports.len() > 0 {
        lemma_routed_elsewhere(routes, ports.drop_last(), receiver, desc, port);
    }
}

/// Each port is either in use or not: the ports that are not in use are as
/// many as the matrix has more ports than routes.
pub proof fn lemma_vacant_count(routes: Routes, n: nat)
    requires
        n <= usize::MAX,
        routes.dom().finite(),
        forall|port: usize| routes.contains_key(port) ==> port < n,
    ensures
        routes.dom().len() <= n,
        vacant_ports(routes, n).len() == n - routes.dom().len(),
    decreases n,
{
    if n == 0 {
        assert(routes.dom() =~= Set::empty());
    } else {
        let last = (n - 1) as usize;
        let rest = routes.remove(last);
        lemma_vacant_count(rest, (n - 1) as nat);
        lemma_vacant_same(routes, rest, (n - 1) as nat);
        if !routes.contains_key(last) {
            assert(rest.dom() =~= routes.dom());
        }
    }
}

proof fn lemma_vacant_same(a: Routes, b: Routes, n: nat)
    requires
        n <= usize::MAX,
        forall|port: usize| port < n ==> a.contains_key(port) == b.contains_key(port),
    ensures
        vacant_ports(a, n) == vacant_ports(b, n),
    decreases n,
{
    if n > 0 {
        lemma_vacant_same(a, b, (n - 1) as nat);
    }
}

proof fn lemma_routed_ports(
    routes: Routes,
    ports: Seq<usize>,
    receiver: usize,
    desc: DescriptorModel,
    i: int,
)
    requires
        0 <= i < ports.len() <= usize::MAX,
        forall|j: int, k: int| 0 <= j < k < ports.len() ==> ports[j] != ports[k],
    ensures
        routed(routes, ports, receiver, desc).contains_key(ports[i]),
        routed(routes, ports, receiver, desc)[ports[i]] == (
            Channel { transceiver_id: receiver, channel_nr: i as usize },
            desc,
        ),
    decreases ports.len(),
{
    if i < ports.len() - 1 {
        assert(ports.drop_last()[i] == ports[i]);
        lemma_routed_ports(routes, ports.drop_last(), receiver, desc, i);
        assert(ports[i] != ports[ports.len() - 1]);
    }
}

/// Looking up by channel and looking up by port agree: a port is among the
/// ports of a channel exactly where the channel is routed to it, and no port
/// is listed twice.
pub proof fn lemma_lookups_agree(routes: Routes, channel: Channel, n: nat, port: usize)
    requires
        n <= usize::MAX,
    ensures
        ports_of(routes, channel, n).contains(port) <==> port < n && routes.contains_key(port)
            && routes[port].0 == channel,
        forall|i: int, j: int|
            0 <= i < j < ports_of(routes, channel, n).len() ==> #[trigger] ports_of(
                routes,
                channel,
                n,
            )[i] < #[trigger] ports_of(routes, channel, n)[j] < n,
        ports_of(routes, channel, n).len() > 0 ==> ports_of(routes, channel, n).last() < n,
    decreases n,
{
    if n > 0 {
        let lower = ports_of(routes, channel, (n - 1) as nat);
        let last = (n - 1) as usize;
        lemma_lookups_agree(routes, channel, (n - 1) as nat, port);
        let all = ports_of(routes, channel, n);
        if routes.contains_key(last) && routes[last].0 == channel {
            assert(all == lower.push(last));
            assert(all[lower.len() as int] == last);
            if lower.contains(port) {
                let i = choose|i: int| 0 <= i < lower.len() && lower[i] == port;
                assert(all[i] == port);
            }
            if all.contains(port) && port != last {
                let i = choose|i: int| 0 <= i < all.len() && all[i] == port;
                assert(lower[i] == port);
            }
        }
    }
}

proof fn lemma_all_lookups_agree(routes: Routes, channel: Channel, n: nat)
    requires
        n <= usize::MAX,
        forall|port: usize| routes.contains_key(port) ==> port < n,
    ensures
        ports_of(routes, channel, n).no_duplicates(),
        forall|port: usize| #[trigger]
            ports_of(routes, channel, n).contains(port) <==> routes.contains_key(port)
                && routes[port].0 == channel,
{
    assert forall|port: usize| #[trigger]
        ports_of(routes, channel, n).contains(port) <==> routes.contains_key(port)
            && routes[port].0 == channel by {
        lemma_lookups_agree(routes, channel, n, port);
    }
    lemma_lookups_agree(routes, channel, n, 0);
}

/// Whether ports hold the channels of a receiver, in order.
pub open spec fn hold_channels(
    routes: Routes,
    ports: Seq<usize>,
    receiver: usize,
    desc: DescriptorModel,
) -> bool {
    forall|i: int|
        0 <= i < ports.len() ==> {
            &&& routes.contains_key(#[trigger] ports[i])
            &&& routes[ports[i]] == (
                Channel { transceiver_id: receiver, channel_nr: i as usize },
                desc,
            )
        }
}

/// Whether routes are the same on all ports but some.
pub open spec fn same_elsewhere(before: Routes, after: Routes, ports: Seq<usize>) -> bool {
    forall|port: usize|
        !ports.contains(port) ==> {
            &&& #[trigger] after.contains_key(port) == before.contains_key(port)
            &&& before.contains_key(port) ==> after[port] == before[port]
        }
}

/// Routing a receiver puts its channels, in order, on ports that were not in
/// use, and leaves every other port as it was.
pub proof fn lemma_route_uses_vacant_ports(
    matrix: MatrixModel,
    receiver: usize,
    channels: usize,
    desc: DescriptorModel,
)
    ensures
        forall|i: int|
            0 <= i < lowest_vacant(matrix, channels).len() ==> {
                &&& #[trigger] lowest_vacant(matrix, channels)[i] < matrix.channels
                &&& !matrix.routes.contains_key(lowest_vacant(matrix, channels)[i])
            },
        hold_channels(
            routed(matrix.routes, lowest_vacant(matrix, channels), receiver, desc),
            lowest_vacant(matrix, channels),
            receiver,
            desc,
        ),
        same_elsewhere(
            matrix.routes,
            routed(matrix.routes, lowest_vacant(matrix, channels), receiver, desc),
            lowest_vacant(matrix, channels),
        ),
{
    let ports = lowest_vacant(matrix, channels);
    let after = routed(matrix.routes, ports, receiver, desc);
    lemma_vacant_bound(matrix.routes, matrix.channels as nat);
    let all = vacant_ports(matrix.routes, matrix.channels as nat);
    assert forall|i: int| 0 <= i < ports.len() implies {
        &&& #[trigger] ports[i] < matrix.channels
        &&& !matrix.routes.contains_key(ports[i])
    } by {
        assert(ports[i] == all[i]);
    }
    assert forall|j: int, k: int| 0 <= j < k < ports.len() implies #[trigger] ports[j]
        != #[trigger] ports[k] by {
        assert(all[j] < all[k]);
    }
    assert forall|i: int| 0 <= i < ports.len() implies {
        &&& after.contains_key(#[trigger] ports[i])
        &&& after[ports[i]] == (
            Channel { transceiver_id: receiver, channel_nr: i as usize },
            desc,
        )
    } by {
        lemma_routed_ports(matrix.routes, ports, receiver, desc, i);
    }
    assert forall|port: usize| !ports.contains(port) implies {
        &&& #[trigger] after.contains_key(port) == matrix.routes.contains_key(port)
        &&& matrix.routes.contains_key(port) ==> after[port] == matrix.routes[port]
    } by {
        assert forall|i: int| 0 <= i < ports.len() implies ports[i] != port by {
            assert(ports.contains(ports[i]));
        }
        lemma_routed_elsewhere(matrix.routes, ports, receiver, desc, port);
    }
}

/// Unrouting a receiver undoes routing it, where nothing of it was routed
/// before.
pub proof fn lemma_unroute_undoes_route(
    matrix: MatrixModel,
    receiver: usize,
    channels: usize,
    desc: DescriptorModel,
)
    requires
        forall|port: usize|
            matrix.routes.contains_key(port) ==> (#[trigger] matrix.routes[port]).0.transceiver_id
                != receiver,
    ensures
        unrouted(
            routed(matrix.routes, lowest_vacant(matrix, channels), receiver, desc),
            receiver,
        ) == matrix.routes,
{
    let ports = lowest_vacant(matrix, channels);
    let after = routed(matrix.routes, ports, receiver, desc);
    let undone = unrouted(after, receiver);
    lemma_route_uses_vacant_ports(matrix, receiver, channels, desc);
    assert forall|port: usize| #[trigger]
        undone.contains_key(port) == matrix.routes.contains_key(port) by {
        if ports.contains(port) {
            let i = choose|i: int| 0 <= i < ports.len() && ports[i] == port;
            assert(after[ports[i]].0.transceiver_id == receiver);
        } else {
            assert(after.contains_key(port) == matrix.routes.contains_key(port));
        }
    }
    assert forall|port: usize| matrix.routes.contains_key(port) implies undone[port]
        == matrix.routes[port] by {
        assert(undone.contains_key(port));
        if ports.contains(port) {
            let i = choose|i: int| 0 <= i < ports.len() && ports[i] == port;
            assert(!matrix.routes.contains_key(ports[i]));
        }
        assert(after.contains_key(port) == matrix.routes.contains_key(port));
    }
    assert(undone =~= matrix.routes);
}

/// After unrouting a receiver nothing of it is left, and what belongs to
/// others is as it was.
pub proof fn lemma_unroute_leaves_others(routes: Routes, receiver: usize, port: usize)
    ensures
        unrouted(routes, receiver).contains_key(port) <==> routes.contains_key(port)
            && routes[port].0.transceiver_id != receiver,
        unrouted(routes, receiver).contains_key(port) ==> unrouted(routes, receiver)[port]
            == routes[port],
{
}

/// Routes input ports to the channels of transmitters.
#[derive(Debug)]
pub struct InputMatrix {
    channels: usize,
    mapping: Vec<(Channel, usize)>,
}

impl InputMatrix {
    /// The number of ports.
    pub closed spec fn port_count(&self) -> usize {
        self.channels
    }

    /// The port that each channel is fed from.
    pub closed spec fn sources(&self) -> Seq<(Channel, usize)> {
        self.mapping@
    }

    /// A matrix with that many ports and no route.
    pub fn default(channels: usize) -> (matrix: InputMatrix)
        ensures
            matrix.port_count() == channels,
            matrix.sources() == Seq::<(Channel, usize)>::empty(),
    {
        InputMatrix { channels, mapping: Vec::new() }
    }
}

proof fn lemma_port_added(ports: Seq<usize>, port: usize, p: usize)
    ensures
        ports.push(port).contains(p) <==> ports.contains(p) || p == port,
{
    let more = ports.push(port);
    assert(more[ports.len() as int] == port);
    if ports.contains(p) {
        let i = ports.index_of(p);
        assert(more[i] == p);
    }
    if more.contains(p) && p != port {
        let i = more.index_of(p);
        assert(ports[i] == p);
    }
}

/// The ports that are not in use are all those to which nothing is routed, each of
/// them once, the lowest first.
pub proof fn lemma_ports_not_in_use(routes: Routes, n: nat, port: usize)
    requires
        n <= usize::MAX,
    ensures
        vacant_ports(routes, n).contains(port) <==> port < n && !routes.contains_key(port),
        forall|i: int, j: int|
            0 <= i < j < vacant_ports(routes, n).len() ==> #[trigger] vacant_ports(routes, n)[i]
                < #[trigger] vacant_ports(routes, n)[j],
    decreases n,
{
    lemma_vacant_bound(routes, n);
    if n > 0 {
        let last = (n - 1) as usize;
        lemma_ports_not_in_use(routes, (n - 1) as nat, port);
        if !routes.contains_key(last) {
            lemma_port_added(vacant_ports(routes, (n - 1) as nat), last, port);
        }
    }
}

/// The ports of a receiver are all those on which one of its channels is played
/// out, each of them once, the lowest first.
pub proof fn lemma_ports_of_a_receiver(routes: Routes, receiver: usize, n: nat, port: usize)
    requires
        n <= usize::MAX,
    ensures
        ports_of_receiver(routes, receiver, n).contains(port) <==> port < n && routes.contains_key(
            port,
        ) && routes[port].0.transceiver_id == receiver,
        forall|i: int|
            0 <= i < ports_of_receiver(routes, receiver, n).len() ==> #[trigger] ports_of_receiver(
                routes,
                receiver,
                n,
            )[i] < n,
        forall|i: int, j: int|
            0 <= i < j < ports_of_receiver(routes, receiver, n).len()
                ==> #[trigger] ports_of_receiver(routes, receiver, n)[i]
                < #[trigger] ports_of_receiver(routes, receiver, n)[j],
    decreases n,
{
    if n > 0 {
        let last = (n - 1) as usize;
        lemma_ports_of_a_receiver(routes, receiver, (n - 1) as nat, port);
        if routes.contains_key(last) && routes[last].0.transceiver_id == receiver {
            lemma_port_added(ports_of_receiver(routes, receiver, (n - 1) as nat), last, port);
        }
    }
}

/// The lowest ports are taken: one for each channel, and one for a receiver
/// without channels, as far as there are any. They are taken in ascending order,
/// and a port that is left although nothing is routed to it lies above all of
/// them, and is left only where there are enough below it.
pub proof fn lemma_lowest_ports_are_taken(matrix: MatrixModel, channels: usize, port: usize)
    ensures
        ({
            let ports = lowest_vacant(matrix, channels);
            let vacant = vacant_ports(matrix.routes, matrix.channels as nat).len();
            let wanted: int = if channels == 0 {
                1
            } else {
                channels as int
            };
            &&& ports.len() == (if vacant < wanted {
                vacant as int
            } else {
                wanted
            })
            &&& forall|i: int, j: int|
                0 <= i < j < ports.len() ==> #[trigger] ports[i] < #[trigger] ports[j]
            &&& forall|i: int|
                0 <= i < ports.len() ==> #[trigger] ports[i] < matrix.channels
                    && !matrix.routes.contains_key(ports[i])
            &&& port < matrix.channels && !matrix.routes.contains_key(port) && !ports.contains(port)
                ==> ports.len() == wanted && forall|i: int|
                0 <= i < ports.len() ==> #[trigger] ports[i] < port
        }),
{
    let ports = lowest_vacant(matrix, channels);
    let vacant = vacant_ports(matrix.routes, matrix.channels as nat);
    lemma_vacant_bound(matrix.routes, matrix.channels as nat);
    lemma_ports_not_in_use(matrix.routes, matrix.channels as nat, port);
    assert forall|i: int| 0 <= i < ports.len() implies #[trigger] ports[i] == vacant[i] by {}
    if vacant.contains(port) && !ports.contains(port) {
        let k = vacant.index_of(port);
        if k < ports.len() {
            assert(ports[k] == port);
        }
        assert forall|i: int| 0 <= i < ports.len() implies #[trigger] ports[i] < port by {
            assert(vacant[i] < vacant[k]);
        }
    }
}

} // verus!
