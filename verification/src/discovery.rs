//! Finding the interfaces that the relay serves: what to ask the kernel about
//! each, and what to make of the answers.

use crate::addr::{law_broadcast_within, network_broadcast, unspecified, Ipv4Address};
use crate::interface::MachineIterface;
use crate::platform::{iff_broadcast, iff_loopback, iff_up};
use vstd::prelude::*;

verus! {

/// What is asked about an interface, with what is known of it so far.
#[derive(Clone, Copy, Debug)]
pub enum Probe {
    /// The number of the interface with this name.
    Index,
    /// Its flags.
    Flags { index: u32 },
    /// The address of this machine on it.
    Address { index: u32, flags: i32 },
    /// Its broadcast address.
    Broadcast { index: u32, address: Ipv4Address },
    /// The address at its other end.
    Destination { index: u32, address: Ipv4Address },
    /// The mask of its network.
    Netmask { index: u32, address: Ipv4Address },
    /// Whether a socket for sending through it can be had.
    Socket { interface: MachineIterface },
}

/// What the kernel answers.
#[derive(Clone, Copy, Debug)]
pub enum Reply {
    Index(u32),
    Flags(i32),
    Address(Ipv4Address),
    SocketReady,
    Failed,
}

/// What follows from an answer.
#[derive(Clone, Copy, Debug)]
pub enum Verdict {
    /// Ask this next.
    Ask(Probe),
    /// The relay does not serve the interface.
    Skip,
    /// The relay serves the interface.
    Keep(MachineIterface),
    /// The relay cannot start.
    Fail,
}

/// How far the search has come.
#[derive(Clone, Copy, Debug)]
pub enum Progress {
    /// The interface at `position` in the list of names is being looked at.
    Probing { position: usize, probe: Probe },
    /// Every interface has been looked at.
    Finished,
    /// This could not be learned.
    Failed { position: usize, probe: Probe },
}

/// The search for the interfaces with the given names.
#[derive(Debug)]
pub struct Discovery {
    requested: usize,
    progress: Progress,
    found: Vec<MachineIterface>,
}

/// A [`Discovery`] in specifications.
#[verifier::ext_equal]
pub struct DiscoveryView {
    /// How many names there are.
    pub requested: nat,
    pub progress: Progress,
    /// The interfaces to serve, in the order of their names.
    pub found: Seq<MachineIterface>,
}

/// An interface is served if it is up and no loopback.
pub open spec fn is_served(flags: i32) -> bool {
    flags & 1 != 0 && flags & 8 == 0
}

/// Whether an interface has a broadcast address.
pub open spec fn has_broadcast(flags: i32) -> bool {
    flags & 2 != 0
}

/// An interface as the relay keeps it.
pub open spec fn interface_with(
    index: u32,
    address: Ipv4Address,
    broadcast: Ipv4Address,
) -> MachineIterface {
    MachineIterface {
        destination_addr: broadcast,
        interface_addr: address,
        ifindex: index as i32,
    }
}

impl Probe {
    /// What follows from `reply`. Nothing can be learned from one that does not
    /// answer what was asked.
    pub open spec fn verdict(self, reply: Reply) -> Verdict {
        match (self, reply) {
            (Probe::Index, Reply::Index(index)) => if index == 0 {
                Verdict::Fail
            } else {
                Verdict::Ask(Probe::Flags { index })
            },
            (Probe::Flags { index }, Reply::Flags(flags)) => if is_served(flags) {
                Verdict::Ask(Probe::Address { index, flags })
            } else {
                Verdict::Skip
            },
            (Probe::Address { index, flags }, Reply::Address(address)) => if has_broadcast(flags) {
                Verdict::Ask(Probe::Broadcast { index, address })
            } else {
                Verdict::Ask(Probe::Destination { index, address })
            },
            (Probe::Broadcast { index, address }, Reply::Address(broadcast)) | (
                Probe::Destination { index, address },
                Reply::Address(broadcast),
            ) => if broadcast == unspecified() {
                Verdict::Ask(Probe::Netmask { index, address })
            } else {
                Verdict::Ask(Probe::Socket { interface: interface_with(index, address, broadcast) })
            },
            (Probe::Netmask { index, address }, Reply::Address(mask)) => Verdict::Ask(
                Probe::Socket {
                    interface: interface_with(index, address, network_broadcast(address, mask)),
                },
            ),
            (Probe::Socket { interface }, Reply::SocketReady) => Verdict::Keep(interface),
            _ => Verdict::Fail,
        }
    }
}

/// The progress when the interfaces before `position` have been looked at.
pub open spec fn progress_at(position: nat, requested: nat) -> Progress {
    if position < requested {
        Progress::Probing { position: position as usize, probe: Probe::Index }
    } else {
        Progress::Finished
    }
}

impl DiscoveryView {
    /// The position is one of the names.
    pub open spec fn wf(self) -> bool {
        &&& self.requested <= usize::MAX
        &&& match self.progress {
            Progress::Probing { position, .. } => position < self.requested,
            Progress::Failed { position, .. } => position < self.requested,
            Progress::Finished => true,
        }
    }

    /// The search after a reply. One that has ended stays as it is.
    pub open spec fn after(self, reply: Reply) -> DiscoveryView {
        match self.progress {
            Progress::Probing { position, probe } => match probe.verdict(reply) {
                Verdict::Ask(next) => DiscoveryView {
                    progress: Progress::Probing { position, probe: next },
                    ..self
                },
                Verdict::Skip => DiscoveryView {
                    progress: progress_at(position as nat + 1, self.requested),
                    ..self
                },
                Verdict::Keep(interface) => DiscoveryView {
                    progress: progress_at(position as nat + 1, self.requested),
                    found: self.found.push(interface),
                    ..self
                },
                Verdict::Fail => DiscoveryView {
                    progress: Progress::Failed { position, probe },
                    ..self
                },
            },
            _ => self,
        }
    }

    /// The search at its start.
    pub open spec fn start(requested: nat) -> DiscoveryView {
        DiscoveryView { requested, progress: progress_at(0, requested), found: seq![] }
    }
}

impl View for Discovery {
    type V = DiscoveryView;

    closed spec fn view(&self) -> DiscoveryView {
        DiscoveryView {
            requested: self.requested as nat,
            progress: self.progress,
            found: self.found@,
        }
    }
}

/// What follows from an answer.
pub fn judge(probe: Probe, reply: Reply) -> (r: Verdict)
    ensures
        r == probe.verdict(reply),
{
    match (probe, reply) {
        (Probe::Index, Reply::Index(index)) => if index == 0 {
            Verdict::Fail
        } else {
            Verdict::Ask(Probe::Flags { index })
        },
        (Probe::Flags { index }, Reply::Flags(flags)) => {
            if (flags & iff_up()) == 0 || (flags & iff_loopback()) != 0 {
                Verdict::Skip
            } else {
                Verdict::Ask(Probe::Address { index, flags })
            }
        },
        (Probe::Address { index, flags }, Reply::Address(address)) => {
            if (flags & iff_broadcast()) != 0 {
                Verdict::Ask(Probe::Broadcast { index, address })
            } else {
                Verdict::Ask(Probe::Destination { index, address })
            }
        },
        (Probe::Broadcast { index, address }, Reply::Address(broadcast)) | (
            Probe::Destination { index, address },
            Reply::Address(broadcast),
        ) => {
            if broadcast.is_unspecified() {
                Verdict::Ask(Probe::Netmask { index, address })
            } else {
                Verdict::Ask(
                    Probe::Socket {
                        interface: MachineIterface {
                            destination_addr: broadcast,
                            interface_addr: address,
                            ifindex: index as i32,
                        },
                    },
                )
            }
        },
        (Probe::Netmask { index, address }, Reply::Address(mask)) => Verdict::Ask(
            Probe::Socket {
                interface: MachineIterface {
                    destination_addr: address.broadcast_within(mask),
                    interface_addr: address,
                    ifindex: index as i32,
                },
            },
        ),
        (Probe::Socket { interface }, Reply::SocketReady) => Verdict::Keep(interface),
        _ => Verdict::Fail,
    }
}

impl Discovery {
    #[verifier::type_invariant]
    closed spec fn inv(self) -> bool {
        self@.wf()
    }

    /// Starts the search for `requested` interfaces.
    pub fn new(requested: usize) -> (r: Discovery)
        ensures
            r@ == DiscoveryView::start(requested as nat),
            r@.wf(),
    {
        let found: Vec<MachineIterface> = Vec::new();
        let progress = if requested > 0 {
            Progress::Probing { position: 0, probe: Probe::Index }
        } else {
            Progress::Finished
        };
        let r = Discovery { requested, progress, found };
        assert(r@ =~= DiscoveryView::start(requested as nat));
        r
    }

    /// How far the search has come, and what is to be asked next.
    pub fn progress(&self) -> (r: Progress)
        ensures
            r == self@.progress,
            self@.wf(),
    {
        proof {
            use_type_invariant(self);
        }
        self.progress
    }

    /// Takes the answer to what was asked.
    pub fn advance(&mut self, reply: Reply)
        ensures
            final(self)@ == old(self)@.after(reply),
            final(self)@.wf(),
    {
        proof {
            use_type_invariant(&*self);
        }
        if let Progress::Probing { position, probe } = self.progress {
            match judge(probe, reply) {
                Verdict::Ask(next) => {
                    self.progress = Progress::Probing { position, probe: next };
                },
                Verdict::Skip => {
                    self.progress = if position + 1 < self.requested {
                        Progress::Probing { position: position + 1, probe: Probe::Index }
                    } else {
                        Progress::Finished
                    };
                },
                Verdict::Keep(interface) => {
                    let mut found: Vec<MachineIterface> = Vec::new();
                    std::mem::swap(&mut found, &mut self.found);
                    found.push(interface);
                    self.found = found;
                    self.progress = if position + 1 < self.requested {
                        Progress::Probing { position: position + 1, probe: Probe::Index }
                    } else {
                        Progress::Finished
                    };
                },
                Verdict::Fail => {
                    self.progress = Progress::Failed { position, probe };
                },
            }
        }
        assert(self@ =~= old(self)@.after(reply));
    }

    /// The interfaces found so far, whatever has become of the search.
    pub fn into_interfaces(self) -> (r: Vec<MachineIterface>)
        ensures
            r@ == self@.found,
    {
        self.found
    }

    /// The interfaces to serve, once every one has been looked at. A search that
    /// has failed, or that has not ended, gives none, and tells how far it came.
    pub fn finish(self) -> (r: Result<Vec<MachineIterface>, Progress>)
        ensures
            match r {
                Ok(interfaces) => self@.progress is Finished && interfaces@ == self@.found,
                Err(progress) => !(self@.progress is Finished) && progress == self@.progress,
            },
    {
        match self.progress {
            Progress::Finished => Ok(self.into_interfaces()),
            progress => Err(progress),
        }
    }
}

/// All that the kernel would tell about an interface. It refuses to tell what is
/// `None`, and has no interface of that name where the index is zero.
pub struct InterfaceFacts {
    pub index: u32,
    pub flags: Option<i32>,
    pub address: Option<Ipv4Address>,
    pub broadcast: Option<Ipv4Address>,
    pub destination: Option<Ipv4Address>,
    pub mask: Option<Ipv4Address>,
    /// Whether a socket for sending through the interface can be had.
    pub socket: bool,
}

/// An address, or the refusal to tell it.
pub open spec fn address_reply(address: Option<Ipv4Address>) -> Reply {
    match address {
        Some(address) => Reply::Address(address),
        None => Reply::Failed,
    }
}

impl InterfaceFacts {
    /// What the kernel answers.
    pub open spec fn reply(self, probe: Probe) -> Reply {
        match probe {
            Probe::Index => Reply::Index(self.index),
            Probe::Flags { .. } => match self.flags {
                Some(flags) => Reply::Flags(flags),
                None => Reply::Failed,
            },
            Probe::Address { .. } => address_reply(self.address),
            Probe::Broadcast { .. } => address_reply(self.broadcast),
            Probe::Destination { .. } => address_reply(self.destination),
            Probe::Netmask { .. } => address_reply(self.mask),
            Probe::Socket { .. } => if self.socket {
                Reply::SocketReady
            } else {
                Reply::Failed
            },
        }
    }

    /// Where packets for everyone behind the interface go: its broadcast
    /// address, or that of its other end; where the kernel has none, the
    /// highest address of the network. If the kernel refuses to tell, what was
    /// asked.
    pub open spec fn everyone(self, flags: i32, address: Ipv4Address) -> Result<
        Ipv4Address,
        Probe,
    > {
        let index = self.index;
        let (told, probe) = if has_broadcast(flags) {
            (self.broadcast, Probe::Broadcast { index, address })
        } else {
            (self.destination, Probe::Destination { index, address })
        };
        match (told, self.mask) {
            (None, _) => Err(probe),
            (Some(told), _) if told != unspecified() => Ok(told),
            (Some(_), Some(mask)) => Ok(network_broadcast(address, mask)),
            (Some(_), None) => Err(Probe::Netmask { index, address }),
        }
    }

    /// The interface, if the relay serves it; or what could not be learned.
    pub open spec fn outcome(self) -> Result<Seq<MachineIterface>, Probe> {
        let index = self.index;
        match (self.flags, self.address) {
            _ if index == 0 => Err(Probe::Index),
            (None, _) => Err(Probe::Flags { index }),
            (Some(flags), _) if !is_served(flags) => Ok(seq![]),
            (Some(flags), None) => Err(Probe::Address { index, flags }),
            (Some(flags), Some(address)) => match self.everyone(flags, address) {
                Err(probe) => Err(probe),
                Ok(everyone) => {
                    let interface = interface_with(index, address, everyone);
                    if self.socket {
                        Ok(seq![interface])
                    } else {
                        Err(Probe::Socket { interface })
                    }
                },
            },
        }
    }
}

/// The interfaces that the relay serves, in the order of their names; or the
/// first position at which something could not be learned, and what.
pub open spec fn all_served(facts: Seq<InterfaceFacts>) -> Result<
    Seq<MachineIterface>,
    (nat, Probe),
>
    decreases facts.len(),
{
    if facts.len() == 0 {
        Ok(seq![])
    } else {
        match (all_served(facts.drop_last()), facts.last().outcome()) {
            (Err(failure), _) => Err(failure),
            (Ok(_), Err(probe)) => Err(((facts.len() - 1) as nat, probe)),
            (Ok(before), Ok(last)) => Ok(before + last),
        }
    }
}

/// The search after at most `steps` replies of a kernel that knows `facts`.
pub open spec fn run(facts: Seq<InterfaceFacts>, search: DiscoveryView, steps: nat) -> DiscoveryView
    decreases steps,
{
    match search.progress {
        Progress::Probing { position, probe } if steps > 0 => run(
            facts,
            search.after(facts[position as int].reply(probe)),
            (steps - 1) as nat,
        ),
        _ => search,
    }
}

/// The search for the interfaces that `facts` tell of, at its end.
pub open spec fn searched(facts: Seq<InterfaceFacts>) -> DiscoveryView {
    run(facts, DiscoveryView::start(facts.len()), 6 * facts.len())
}

/// The search after these replies.
pub open spec fn replay(search: DiscoveryView, replies: Seq<Reply>) -> DiscoveryView
    decreases replies.len(),
{
    if replies.len() == 0 {
        search
    } else {
        replay(search, replies.drop_last()).after(replies.last())
    }
}

/// Looking at one interface takes no more than six replies.
proof fn lemma_one_interface(
    facts: Seq<InterfaceFacts>,
    search: DiscoveryView,
    position: nat,
    steps: nat,
)
    requires
        facts.len() == search.requested,
        search.requested <= usize::MAX,
        position < facts.len(),
        search.progress == progress_at(position, search.requested),
    ensures
        match facts[position as int].outcome() {
            Ok(served) => exists|left: nat|
                left >= steps && #[trigger] run(
                    facts,
                    DiscoveryView {
                        progress: progress_at(position + 1, search.requested),
                        found: search.found + served,
                        ..search
                    },
                    left,
                ) == run(facts, search, steps + 6),
            Err(probe) => run(facts, search, steps + 6) == (DiscoveryView {
                progress: Progress::Failed { position: position as usize, probe },
                ..search
            }),
        },
{
    reveal_with_fuel(run, 7);
    let fact = facts[position as int];
    if let Ok(served) = fact.outcome() {
        let goal = DiscoveryView {
            progress: progress_at(position + 1, search.requested),
            found: search.found + served,
            ..search
        };
        let s1 = search.after(fact.reply(Probe::Index));
        let s2 = s1.after(fact.reply(Probe::Flags { index: fact.index }));
        let flags = fact.flags->Some_0;
        if !is_served(flags) {
            assert(s2 =~= goal);
            assert(run(facts, goal, steps + 4) == run(facts, search, steps + 6));
        } else {
            let index = fact.index;
            let address = fact.address->Some_0;
            let s3 = s2.after(fact.reply(Probe::Address { index, flags }));
            let (told, probe4) = if has_broadcast(flags) {
                (fact.broadcast->Some_0, Probe::Broadcast { index, address })
            } else {
                (fact.destination->Some_0, Probe::Destination { index, address })
            };
            let s4 = s3.after(fact.reply(probe4));
            let last = Probe::Socket { interface: served[0] };
            assert(search.found.push(served[0]) =~= search.found + served);
            if told == unspecified() {
                let s5 = s4.after(fact.reply(Probe::Netmask { index, address }));
                let s6 = s5.after(fact.reply(last));
                assert(s6 =~= goal);
                assert(run(facts, goal, steps) == run(facts, search, steps + 6));
            } else {
                let s5 = s4.after(fact.reply(last));
                assert(s5 =~= goal);
                assert(run(facts, goal, steps + 1) == run(facts, search, steps + 6));
            }
        }
    }
}

/// What fails among the first names fails the whole search.
proof fn lemma_failure_in_front(facts: Seq<InterfaceFacts>, position: int)
    requires
        0 <= position <= facts.len(),
        all_served(facts.take(position)) is Err,
    ensures
        all_served(facts) == all_served(facts.take(position)),
    decreases facts.len() - position,
{
    if position == facts.len() {
        assert(facts.take(position) =~= facts);
    } else {
        assert(facts.take(position + 1).drop_last() =~= facts.take(position));
        lemma_failure_in_front(facts, position + 1);
    }
}

/// From where the interfaces before `position` have been looked at, the search
/// comes to its end.
proof fn lemma_run_from(facts: Seq<InterfaceFacts>, position: nat, steps: nat)
    requires
        facts.len() <= usize::MAX,
        position <= facts.len(),
        all_served(facts.take(position as int)) is Ok,
        steps >= 6 * (facts.len() - position),
    ensures
        ({
            let search = DiscoveryView {
                requested: facts.len(),
                progress: progress_at(position, facts.len()),
                found: all_served(facts.take(position as int))->Ok_0,
            };
            ends_as(run(facts, search, steps), facts)
        }),
    decreases facts.len() - position,
{
    let search = DiscoveryView {
        requested: facts.len(),
        progress: progress_at(position, facts.len()),
        found: all_served(facts.take(position as int))->Ok_0,
    };
    if position == facts.len() {
        assert(facts.take(position as int) =~= facts);
    } else {
        let rest = (steps - 6) as nat;
        lemma_one_interface(facts, search, position, rest);
        assert(facts.take(position as int + 1).drop_last() =~= facts.take(position as int));
        assert(facts.take(position as int + 1).last() == facts[position as int]);
        match facts[position as int].outcome() {
            Ok(served) => {
                let next = DiscoveryView {
                    progress: progress_at(position + 1, search.requested),
                    found: search.found + served,
                    ..search
                };
                let left = choose|left: nat|
                    left >= rest && #[trigger] run(facts, next, left) == run(facts, search, steps);
                lemma_run_from(facts, position + 1, left);
            },
            Err(_) => {
                lemma_failure_in_front(facts, position as int + 1);
            },
        }
    }
}

/// The search has ended as `facts` say: with the interfaces to serve, or with
/// what could not be learned.
pub open spec fn ends_as(search: DiscoveryView, facts: Seq<InterfaceFacts>) -> bool {
    &&& search.requested == facts.len()
    &&& match all_served(facts) {
        Ok(served) => search.progress == Progress::Finished && search.found == served,
        Err((position, probe)) => search.progress == (Progress::Failed {
            position: position as usize,
            probe,
        }),
    }
}

/// The search ends. Where all that it asks is told, it finds exactly the
/// interfaces that are up and no loopback, in the order in which they were
/// named. Otherwise it fails with the first thing that could not be learned.
pub proof fn law_discovery_ends(facts: Seq<InterfaceFacts>, steps: nat)
    requires
        facts.len() <= usize::MAX,
        steps >= 6 * facts.len(),
    ensures
        ends_as(run(facts, DiscoveryView::start(facts.len()), steps), facts),
{
    assert(facts.take(0) =~= seq![]);
    lemma_run_from(facts, 0, steps);
}

/// A name that no interface has makes the search fail: at that name, or at an
/// earlier one about which something else could not be learned.
pub proof fn law_unknown_name_fails(facts: Seq<InterfaceFacts>, unknown: nat)
    requires
        facts.len() <= usize::MAX,
        unknown < facts.len(),
        facts[unknown as int].index == 0,
    ensures
        searched(facts).progress is Failed,
        searched(facts).progress->Failed_position <= unknown,
        (forall|i: int| 0 <= i < unknown ==> (#[trigger] facts[i]).outcome() is Ok) ==> searched(
            facts,
        ).progress == (Progress::Failed { position: unknown as usize, probe: Probe::Index }),
{
    let front = facts.take(unknown as int);
    let through = facts.take(unknown as int + 1);
    assert(through.drop_last() =~= front);
    assert(through.last() == facts[unknown as int]);
    lemma_failure_within(through);
    lemma_failure_in_front(facts, unknown as int + 1);
    law_discovery_ends(facts, 6 * facts.len());
    if forall|i: int| 0 <= i < unknown ==> (#[trigger] facts[i]).outcome() is Ok {
        assert forall|i: int| 0 <= i < front.len() implies (#[trigger] front[i]).outcome() is Ok by {
            assert(front[i] == facts[i]);
        }
        lemma_nothing_fails(front);
    }
}

/// Where nothing fails for any name, the search does not fail.
proof fn lemma_nothing_fails(facts: Seq<InterfaceFacts>)
    requires
        forall|i: int| 0 <= i < facts.len() ==> (#[trigger] facts[i]).outcome() is Ok,
    ensures
        all_served(facts) is Ok,
    decreases facts.len(),
{
    if facts.len() > 0 {
        let front = facts.drop_last();
        assert forall|i: int| 0 <= i < front.len() implies (#[trigger] front[i]).outcome() is Ok by {
            assert(front[i] == facts[i]);
        }
        assert(facts.last() == facts[facts.len() - 1]);
        lemma_nothing_fails(front);
    }
}

/// What is served of two lists of names, one behind the other.
proof fn lemma_joined_served(first: Seq<InterfaceFacts>, second: Seq<InterfaceFacts>)
    ensures
        all_served(first + second) == (match (all_served(first), all_served(second)) {
            (Err(failure), _) => Err(failure),
            (Ok(_), Err((position, probe))) => Err((first.len() + position, probe)),
            (Ok(a), Ok(b)) => Ok::<Seq<MachineIterface>, (nat, Probe)>(a + b),
        }),
    decreases second.len(),
{
    let joined = first + second;
    if second.len() == 0 {
        assert(joined =~= first);
        if let Ok(a) = all_served(first) {
            assert(a + Seq::<MachineIterface>::empty() =~= a);
        }
    } else {
        let front = second.drop_last();
        lemma_joined_served(first, front);
        assert(joined.drop_last() =~= first + front);
        assert(joined.last() == second.last());
        if let (Ok(a), Ok(b), Ok(c)) = (
            all_served(first),
            all_served(front),
            second.last().outcome(),
        ) {
            assert((a + b) + c =~= a + (b + c));
        }
    }
}

/// The search through two lists of names, one behind the other, succeeds exactly
/// if it succeeds through each, and finds what it finds in the first followed by
/// what it finds in the second. It fails where the first does, or else where the
/// second does.
pub proof fn law_joined_searches(first: Seq<InterfaceFacts>, second: Seq<InterfaceFacts>)
    requires
        first.len() + second.len() <= usize::MAX,
    ensures
        searched(first + second).progress is Finished <==> searched(first).progress is Finished
            && searched(second).progress is Finished,
        searched(first + second).progress is Finished ==> searched(first + second).found
            == searched(first).found + searched(second).found,
        searched(first).progress is Failed ==> searched(first + second).progress == searched(
            first,
        ).progress,
        searched(first).progress is Finished ==> (searched(
            second,
        ).progress matches Progress::Failed { position, probe } ==> searched(
            first + second,
        ).progress == (Progress::Failed { position: (first.len() + position) as usize, probe })),
        searched(first).progress is Finished || searched(first).progress is Failed,
{
    law_discovery_ends(first, 6 * first.len());
    law_discovery_ends(second, 6 * second.len());
    law_discovery_ends(first + second, 6 * (first + second).len());
    lemma_joined_served(first, second);
    lemma_failure_within(second);
}

/// What fails is one of the names.
proof fn lemma_failure_within(facts: Seq<InterfaceFacts>)
    ensures
        all_served(facts) matches Err((position, _)) ==> position < facts.len(),
    decreases facts.len(),
{
    if facts.len() > 0 {
        lemma_failure_within(facts.drop_last());
    }
}

/// Whatever the kernel answers, the search has failed with what it asked at some
/// position exactly if one of the replies, coming when just that was asked,
/// could not be used.
pub proof fn law_when_discovery_fails(
    requested: nat,
    replies: Seq<Reply>,
    position: usize,
    probe: Probe,
)
    ensures
        replay(DiscoveryView::start(requested), replies).progress == (Progress::Failed {
            position,
            probe,
        }) <==> exists|k: int|
            0 <= k < replies.len() && #[trigger] replay(
                DiscoveryView::start(requested),
                replies.take(k),
            ).progress == (Progress::Probing { position, probe }) && probe.verdict(
                replies[k],
            ) is Fail,
    decreases replies.len(),
{
    let start = DiscoveryView::start(requested);
    let failed = Progress::Failed { position, probe };
    let asked = Progress::Probing { position, probe };
    if replies.len() > 0 {
        let front = replies.drop_last();
        let last = replies.len() - 1;
        law_when_discovery_fails(requested, front, position, probe);
        assert(front =~= replies.take(last));
        assert forall|k: int| 0 <= k < last implies #[trigger] front.take(k) == replies.take(k) by {
            assert(front.take(k) =~= replies.take(k));
        }
        if replay(start, replies).progress == failed {
            if replay(start, front).progress == failed {
                let k = choose|k: int|
                    0 <= k < front.len() && #[trigger] replay(start, front.take(k)).progress
                        == asked && probe.verdict(front[k]) is Fail;
                assert(replay(start, replies.take(k)).progress == asked);
            } else {
                assert(replay(start, replies.take(last)).progress == asked);
            }
        }
        if exists|k: int|
            0 <= k < replies.len() && #[trigger] replay(start, replies.take(k)).progress == asked
                && probe.verdict(replies[k]) is Fail {
            let k = choose|k: int|
                0 <= k < replies.len() && #[trigger] replay(start, replies.take(k)).progress
                    == asked && probe.verdict(replies[k]) is Fail;
            if k < last {
                assert(replay(start, front.take(k)).progress == asked);
            }
        }
    }
}

/// Whatever is asked, an answer that the kernel cannot give ends the search
/// with a failure, and no answer changes that any more.
pub proof fn law_failure_is_final(search: DiscoveryView, reply: Reply)
    ensures
        search.progress matches Progress::Probing { position, probe } ==> search.after(
            Reply::Failed,
        ).progress == (Progress::Failed { position, probe }),
        search.progress is Failed ==> search.after(reply) == search,
{
}

/// What follows from the number and the flags of an interface. The number zero
/// stands for no interface. An interface is asked for its address exactly if its
/// flags have the bit for being up and lack the bit for a loopback, whatever other
/// bits they have, and is left out otherwise. Next comes its broadcast address if
/// its flags have the bit for that, and else the address at its other end.
pub proof fn law_answers_by_flags(index: u32, flags: i32, address: Ipv4Address)
    ensures
        Probe::Index.verdict(Reply::Index(0)) == Verdict::Fail,
        index != 0 ==> Probe::Index.verdict(Reply::Index(index)) == Verdict::Ask(
            Probe::Flags { index },
        ),
        flags & 1 == 1 && flags & 8 == 0 ==> (Probe::Flags { index }).verdict(Reply::Flags(flags))
            == Verdict::Ask(Probe::Address { index, flags }),
        flags & 1 == 0 || flags & 8 == 8 ==> (Probe::Flags { index }).verdict(Reply::Flags(flags))
            == Verdict::Skip,
        flags & 2 == 2 ==> (Probe::Address { index, flags }).verdict(Reply::Address(address))
            == Verdict::Ask(Probe::Broadcast { index, address }),
        flags & 2 == 0 ==> (Probe::Address { index, flags }).verdict(Reply::Address(address))
            == Verdict::Ask(Probe::Destination { index, address }),
{
    assert(flags & 1 == 0 || flags & 1 == 1) by (bit_vector);
    assert(flags & 2 == 0 || flags & 2 == 2) by (bit_vector);
    assert(flags & 8 == 0 || flags & 8 == 8) by (bit_vector);
}

/// The flags decide by two bits alone: two sets of flags that agree on being up
/// and on being a loopback are both served or both left out.
pub proof fn law_other_flags_do_not_matter(index: u32, flags: i32, other: i32)
    requires
        flags & 9 == other & 9,
    ensures
        (Probe::Flags { index }).verdict(Reply::Flags(flags)) is Skip <==> (Probe::Flags {
            index,
        }).verdict(Reply::Flags(other)) is Skip,
        (Probe::Flags { index }).verdict(Reply::Flags(flags)) is Skip <==> flags & 9 != 1,
{
    assert(flags & 9 == 1 <==> (flags & 1 != 0 && flags & 8 == 0)) by (bit_vector);
    assert(other & 9 == 1 <==> (other & 1 != 0 && other & 8 == 0)) by (bit_vector);
}

/// What follows from the address for everyone behind an interface. 0.0.0.0 says
/// that there is none: then the mask is asked for, and the address is the one in
/// the same network with all other bits set. The interface is kept once there is a
/// socket for it. Its number is kept in 32 bits, with a sign.
pub proof fn law_answers_by_address(
    index: u32,
    address: Ipv4Address,
    told: Ipv4Address,
    mask: Ipv4Address,
    interface: MachineIterface,
)
    ensures
        told.a == 0 && told.b == 0 && told.c == 0 && told.d == 0 ==> (Probe::Broadcast {
            index,
            address,
        }).verdict(Reply::Address(told)) == Verdict::Ask(Probe::Netmask { index, address }),
        !(told.a == 0 && told.b == 0 && told.c == 0 && told.d == 0) ==> {
            let r = (Probe::Broadcast { index, address }).verdict(Reply::Address(told));
            &&& r matches Verdict::Ask(Probe::Socket { interface: made })
            &&& made.destination_addr == told
            &&& made.interface_addr == address
            &&& made.ifindex == (if index < 0x8000_0000 {
                index as int
            } else {
                index - 0x1_0000_0000
            })
        },
        (Probe::Destination { index, address }).verdict(Reply::Address(told)) == (
        Probe::Broadcast { index, address }).verdict(Reply::Address(told)),
        ({
            let r = (Probe::Netmask { index, address }).verdict(Reply::Address(mask));
            &&& r matches Verdict::Ask(Probe::Socket { interface: made })
            &&& made.interface_addr == address
            &&& made.ifindex == (if index < 0x8000_0000 {
                index as int
            } else {
                index - 0x1_0000_0000
            })
            &&& made.destination_addr.a & mask.a == address.a & mask.a
            &&& made.destination_addr.b & mask.b == address.b & mask.b
            &&& made.destination_addr.c & mask.c == address.c & mask.c
            &&& made.destination_addr.d & mask.d == address.d & mask.d
            &&& made.destination_addr.a | mask.a == 255 && made.destination_addr.b | mask.b == 255
            &&& made.destination_addr.c | mask.c == 255 && made.destination_addr.d | mask.d == 255
        }),
        (Probe::Socket { interface }).verdict(Reply::SocketReady) == Verdict::Keep(interface),
{
    law_broadcast_within(address, mask);
    assert(index < 0x8000_0000 ==> index as i32 == index) by (bit_vector);
    assert(index >= 0x8000_0000 ==> index as i32 == index - 0x1_0000_0000) by (bit_vector);
}

/// An answer that is not of the kind that was asked for fails, as a refusal does.
pub proof fn law_unfit_answers_fail(probe: Probe, reply: Reply)
    ensures
        reply is Failed ==> probe.verdict(reply) is Fail,
        probe is Index && !(reply is Index) ==> probe.verdict(reply) is Fail,
        probe is Flags && !(reply is Flags) ==> probe.verdict(reply) is Fail,
        (probe is Address || probe is Broadcast || probe is Destination || probe is Netmask) && !(
        reply is Address) ==> probe.verdict(reply) is Fail,
        probe is Socket && !(reply is SocketReady) ==> probe.verdict(reply) is Fail,
        probe.verdict(reply) is Fail ==> reply is Failed || reply == Reply::Index(0) || !(probe
            is Index && reply is Index || probe is Flags && reply is Flags || (probe is Address
            || probe is Broadcast || probe is Destination || probe is Netmask) && reply is Address
            || probe is Socket && reply is SocketReady),
{
}

/// How the search goes on. It starts with the first name, if there is one. A
/// question leads to the next about the same name; an interface that is kept comes
/// behind those found before; one that is kept or left out leads to the next name,
/// or to the end behind the last; a failure ends the search where it is. A search
/// that has ended stays as it is.
pub proof fn law_how_the_search_goes_on(search: DiscoveryView, reply: Reply, requested: nat)
    requires
        search.requested <= usize::MAX,
        search.progress matches Progress::Probing { position, .. } ==> position < search.requested,
    ensures
        DiscoveryView::start(requested).requested == requested,
        DiscoveryView::start(requested).found.len() == 0,
        requested == 0 ==> DiscoveryView::start(requested).progress is Finished,
        requested > 0 ==> DiscoveryView::start(requested).progress == (Progress::Probing {
            position: 0,
            probe: Probe::Index,
        }),
        search.after(reply).requested == search.requested,
        match search.progress {
            Progress::Probing { position, probe } => {
                let next = search.after(reply);
                let onward = if position + 1 < search.requested {
                    next.progress == (Progress::Probing {
                        position: (position + 1) as usize,
                        probe: Probe::Index,
                    })
                } else {
                    next.progress is Finished
                };
                match probe.verdict(reply) {
                    Verdict::Ask(asked) => next.found == search.found && next.progress == (
                    Progress::Probing { position, probe: asked }),
                    Verdict::Skip => next.found == search.found && onward,
                    Verdict::Keep(interface) => onward && next.found.len() == search.found.len() + 1
                        && next.found.last() == interface && next.found.drop_last()
                        == search.found,
                    Verdict::Fail => next.found == search.found && next.progress == (
                    Progress::Failed { position, probe }),
                }
            },
            _ => search.after(reply) == search,
        },
{
    if let Progress::Probing { position, probe } = search.progress {
        if let Verdict::Keep(interface) = probe.verdict(reply) {
            assert(search.found.push(interface).drop_last() =~= search.found);
        }
    }
}

/// A search is well-formed exactly if its position is one of the names.
pub proof fn law_search_in_range(search: DiscoveryView)
    ensures
        search.wf() <==> search.requested <= usize::MAX && match search.progress {
            Progress::Probing { position, .. } => position < search.requested,
            Progress::Failed { position, .. } => position < search.requested,
            Progress::Finished => true,
        },
{
}

/// What is found of one name. The search fails if there is no such interface or
/// the kernel does not tell its flags. An interface that is not up, or that is a
/// loopback, is left out. Of any other its address, the address for everyone
/// behind it and a socket are needed, and with these it is found.
pub proof fn law_search_for_one(f: InterfaceFacts)
    ensures
        ({
            let r = searched(seq![f]);
            let flags = f.flags->Some_0;
            let address = f.address->Some_0;
            let told = if flags & 2 != 0 {
                f.broadcast
            } else {
                f.destination
            };
            let none = told->Some_0.a == 0 && told->Some_0.b == 0 && told->Some_0.c == 0
                && told->Some_0.d == 0;
            let mask = f.mask->Some_0;
            if f.index == 0 || f.flags is None {
                r.progress is Failed
            } else if flags & 1 == 0 || flags & 8 != 0 {
                r.progress is Finished && r.found.len() == 0
            } else if f.address is None || told is None || (none && f.mask is None) || !f.socket {
                r.progress is Failed
            } else {
                &&& r.progress is Finished
                &&& r.found.len() == 1
                &&& r.found[0].interface_addr == address
                &&& r.found[0].ifindex == f.index as i32
                &&& !none ==> r.found[0].destination_addr == told->Some_0
                &&& none ==> {
                    let everyone = r.found[0].destination_addr;
                    &&& everyone.a & mask.a == address.a & mask.a && everyone.a | mask.a == 255
                    &&& everyone.b & mask.b == address.b & mask.b && everyone.b | mask.b == 255
                    &&& everyone.c & mask.c == address.c & mask.c && everyone.c | mask.c == 255
                    &&& everyone.d & mask.d == address.d & mask.d && everyone.d | mask.d == 255
                }
            }
        }),
{
    let facts = seq![f];
    law_discovery_ends(facts, 6);
    assert(facts.drop_last() =~= seq![]);
    assert(facts.last() == f);
    reveal_with_fuel(all_served, 2);
    if f.address is Some && f.mask is Some {
        law_broadcast_within(f.address->Some_0, f.mask->Some_0);
    }
}

} // verus!
