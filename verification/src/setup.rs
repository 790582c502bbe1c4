//! How the sockets of the relay are set up, and which of them to read.

use crate::addr::{unspecified, Ipv4Address, SocketAddress};
use crate::interface::MachineIterface;
use crate::platform::pollin;
use vstd::prelude::*;

verus! {

/// The operating systems that the relay runs on.
#[derive(Clone, Copy, Debug, PartialEq, Eq, Structural)]
pub enum Platform {
    Linux,
    FreeBsd,
    MacOs,
}

/// A step in setting up the socket that listens on a relayed port.
#[derive(Clone, Copy, Debug, PartialEq, Eq, Structural)]
pub enum ListenerStep {
    /// Allow broadcasts.
    Broadcast,
    /// Share the port with other sockets.
    ReusePort,
    /// Have the time to live of each datagram told.
    TellTtl,
    /// Have the interface and the destination of each datagram told.
    TellPacketInfo,
    /// Have the interface of each datagram told.
    TellInterface,
    /// Have the destination of each datagram told.
    TellDestination,
    /// Join a multicast group on an interface.
    Join { group: Ipv4Address, interface_addr: Ipv4Address },
    /// Listen on this address and port.
    Bind { address: SocketAddress },
}

/// A step in setting up the socket that sends through an interface.
#[derive(Clone, Copy, Debug, PartialEq, Eq, Structural)]
pub enum SenderStep {
    /// Allow broadcasts.
    Broadcast,
    /// Take packets with their headers.
    HeaderIncluded,
    /// Share the port with other sockets.
    ReusePort,
    /// Send through this interface, whatever the routing table says.
    BindDevice,
    /// Do not receive what is sent to a multicast group.
    MulticastLoopOff,
    /// Send to multicast groups through the interface with this address.
    MulticastInterface(Ipv4Address),
    /// Send to multicast groups with this time to live.
    MulticastTtl(u32),
}

/// How far the set-up of a socket has come.
#[derive(Clone, Copy, Debug, PartialEq, Eq, Structural)]
pub enum SetupProgress {
    /// The step at `position` is to be taken.
    Take { position: usize },
    /// Every step has been taken.
    Ready,
    /// The step at `position` has failed, and the socket is of no use.
    Failed { position: usize },
}

/// The options by which the kernel tells about each datagram.
pub open spec fn tell_steps(platform: Platform) -> Seq<ListenerStep> {
    match platform {
        Platform::Linux => seq![ListenerStep::TellTtl, ListenerStep::TellPacketInfo],
        _ => seq![
            ListenerStep::TellTtl,
            ListenerStep::TellInterface,
            ListenerStep::TellDestination,
        ],
    }
}

/// A group is joined on each interface.
pub open spec fn group_joins(
    group: Ipv4Address,
    interfaces: Seq<MachineIterface>,
) -> Seq<ListenerStep> {
    interfaces.map_values(
        |interface: MachineIterface|
            ListenerStep::Join { group, interface_addr: interface.interface_addr },
    )
}

/// The groups are joined one after the other.
pub open spec fn all_joins(
    groups: Seq<Ipv4Address>,
    interfaces: Seq<MachineIterface>,
) -> Seq<ListenerStep>
    decreases groups.len(),
{
    if groups.len() == 0 {
        seq![]
    } else {
        all_joins(groups.drop_last(), interfaces) + group_joins(groups.last(), interfaces)
    }
}

/// Where a listener listens: on the port, on every address of the machine.
pub open spec fn listener_address(port: u16) -> SocketAddress {
    SocketAddress { ip: unspecified(), port }
}

/// The steps for a listener, in order.
pub open spec fn listener_plan(
    platform: Platform,
    groups: Seq<Ipv4Address>,
    interfaces: Seq<MachineIterface>,
    port: u16,
) -> Seq<ListenerStep> {
    seq![ListenerStep::Broadcast, ListenerStep::ReusePort] + tell_steps(platform) + all_joins(
        groups,
        interfaces,
    ) + seq![ListenerStep::Bind { address: listener_address(port) }]
}

/// The steps for a sender, in order.
pub open spec fn sender_plan(
    platform: Platform,
    interface_addr: Ipv4Address,
    ttl: u8,
) -> Seq<SenderStep> {
    seq![SenderStep::Broadcast, SenderStep::HeaderIncluded, SenderStep::ReusePort] + match platform {
        Platform::Linux => seq![SenderStep::BindDevice],
        _ => seq![
            SenderStep::MulticastLoopOff,
            SenderStep::MulticastInterface(interface_addr),
            SenderStep::MulticastTtl(ttl as u32),
        ],
    }
}

impl SenderStep {
    /// Whether the relay can do without the step.
    pub open spec fn optional(self) -> bool {
        self is MulticastLoopOff || self is MulticastInterface || self is MulticastTtl
    }
}

/// The progress when the steps before `position` have been taken.
pub open spec fn setup_at(steps: nat, position: nat) -> SetupProgress {
    if position < steps {
        SetupProgress::Take { position: position as usize }
    } else {
        SetupProgress::Ready
    }
}

/// The progress when the step at `position` has been taken.
pub open spec fn setup_after_step(steps: nat, position: usize, succeeded: bool) -> SetupProgress {
    if succeeded {
        setup_at(steps, position as nat + 1)
    } else {
        SetupProgress::Failed { position }
    }
}

/// The progress after at most `turns` steps, where `outcomes` say of each step
/// whether it succeeds if it is taken.
pub open spec fn setup_run(outcomes: Seq<bool>, turns: nat) -> SetupProgress
    decreases turns,
{
    if turns == 0 {
        setup_at(outcomes.len(), 0)
    } else {
        match setup_run(outcomes, (turns - 1) as nat) {
            SetupProgress::Take { position } => setup_after_step(
                outcomes.len(),
                position,
                outcomes[position as int],
            ),
            ended => ended,
        }
    }
}

/// The positions of the sockets that can be read, in order.
pub open spec fn readable(revents: Seq<i16>) -> Seq<usize>
    decreases revents.len(),
{
    if revents.len() == 0 {
        seq![]
    } else if revents.last() & 1 != 0 {
        readable(revents.drop_last()).push((revents.len() - 1) as usize)
    } else {
        readable(revents.drop_last())
    }
}

/// Where the socket for a relayed port listens.
pub fn bind_address(port: u16) -> (r: SocketAddress)
    ensures
        r == listener_address(port),
{
    SocketAddress { ip: Ipv4Address::new(0, 0, 0, 0), port }
}

/// How to set up the socket that listens on `listen_port` and joins the groups
/// on every interface.
pub fn broadcast_receiver_setup(
    platform: Platform,
    multicast_addresses: &Vec<Ipv4Address>,
    interfaces: &Vec<MachineIterface>,
    listen_port: u16,
) -> (r: Vec<ListenerStep>)
    ensures
        r@ == listener_plan(platform, multicast_addresses@, interfaces@, listen_port),
{
    let mut steps: Vec<ListenerStep> = Vec::new();
    steps.push(ListenerStep::Broadcast);
    steps.push(ListenerStep::ReusePort);
    steps.push(ListenerStep::TellTtl);
    match platform {
        Platform::Linux => {
            steps.push(ListenerStep::TellPacketInfo);
        },
        Platform::FreeBsd | Platform::MacOs => {
            steps.push(ListenerStep::TellInterface);
            steps.push(ListenerStep::TellDestination);
        },
    }
    let ghost groups = multicast_addresses@;
    let ghost opening = steps@;
    assert(opening =~= seq![ListenerStep::Broadcast, ListenerStep::ReusePort] + tell_steps(
        platform,
    ));
    assert(opening + all_joins(groups.take(0), interfaces@) =~= opening);
    for g in 0..multicast_addresses.len()
        invariant
            groups == multicast_addresses@,
            steps@ == opening + all_joins(groups.take(g as int), interfaces@),
    {
        let group = multicast_addresses[g];
        let ghost before = steps@;
        let ghost joins = group_joins(group, interfaces@);
        assert(before + joins.take(0) =~= before);
        for i in 0..interfaces.len()
            invariant
                joins == group_joins(group, interfaces@),
                steps@ == before + joins.take(i as int),
        {
            let interface_addr = interfaces[i].interface_addr;
            steps.push(ListenerStep::Join { group, interface_addr });
            assert(joins.take(i + 1) =~= joins.take(i as int).push(joins[i as int]));
            assert(steps@ =~= before + joins.take(i + 1));
        }
        assert(joins.take(joins.len() as int) =~= joins);
        assert(groups.take(g + 1).drop_last() =~= groups.take(g as int));
        assert(steps@ =~= opening + all_joins(groups.take(g + 1), interfaces@));
    }
    assert(groups.take(groups.len() as int) =~= groups);
    steps.push(ListenerStep::Bind { address: bind_address(listen_port) });
    assert(steps@ =~= listener_plan(platform, groups, interfaces@, listen_port));
    steps
}

/// How to set up the socket that sends through the interface with this address.
pub fn sender_setup(platform: Platform, interface_addr: Ipv4Address, ttl: u8) -> (r: Vec<
    SenderStep,
>)
    ensures
        r@ == sender_plan(platform, interface_addr, ttl),
{
    let mut steps: Vec<SenderStep> = Vec::new();
    steps.push(SenderStep::Broadcast);
    steps.push(SenderStep::HeaderIncluded);
    steps.push(SenderStep::ReusePort);
    match platform {
        Platform::Linux => {
            steps.push(SenderStep::BindDevice);
        },
        Platform::FreeBsd | Platform::MacOs => {
            steps.push(SenderStep::MulticastLoopOff);
            steps.push(SenderStep::MulticastInterface(interface_addr));
            steps.push(SenderStep::MulticastTtl(ttl as u32));
        },
    }
    assert(steps@ =~= sender_plan(platform, interface_addr, ttl));
    steps
}

impl SenderStep {
    /// Whether the relay can do without the step, so that a failure is only
    /// reported.
    pub fn is_optional(&self) -> (r: bool)
        ensures
            r == self.optional(),
    {
        match self {
            SenderStep::MulticastLoopOff
            | SenderStep::MulticastInterface(_)
            | SenderStep::MulticastTtl(_) => true,
            SenderStep::Broadcast
            | SenderStep::HeaderIncluded
            | SenderStep::ReusePort
            | SenderStep::BindDevice => false,
        }
    }
}

/// The progress before any of the steps is taken.
pub fn setup_start(steps: usize) -> (r: SetupProgress)
    ensures
        r == setup_at(steps as nat, 0),
{
    if steps > 0 {
        SetupProgress::Take { position: 0 }
    } else {
        SetupProgress::Ready
    }
}

/// What follows when the step of a listener at `position` has been taken: the
/// next one only if it has succeeded.
pub fn after_listener_step(steps: usize, position: usize, succeeded: bool) -> (r: SetupProgress)
    requires
        position < steps,
    ensures
        r == setup_after_step(steps as nat, position, succeeded),
        r == (if !succeeded {
            SetupProgress::Failed { position }
        } else if position + 1 < steps {
            SetupProgress::Take { position: (position + 1) as usize }
        } else {
            SetupProgress::Ready
        }),
{
    if !succeeded {
        SetupProgress::Failed { position }
    } else if position + 1 < steps {
        SetupProgress::Take { position: position + 1 }
    } else {
        SetupProgress::Ready
    }
}

/// What follows when the step of a sender at `position` has been taken: the next
/// one if it has succeeded, or if the relay can do without it.
pub fn after_sender_step(steps: &Vec<SenderStep>, position: usize, succeeded: bool) -> (r:
    SetupProgress)
    requires
        position < steps.len(),
    ensures
        r == setup_after_step(
            steps@.len(),
            position,
            succeeded || steps@[position as int].optional(),
        ),
{
    after_listener_step(steps.len(), position, succeeded || steps[position].is_optional())
}

/// The sockets to read after waiting for them: none where waiting failed, which
/// a negative number of ready sockets tells.
pub fn ready_relays(ready: i32, revents: &Vec<i16>) -> (r: Vec<usize>)
    ensures
        r@ == (if ready < 0 {
            seq![]
        } else {
            readable(revents@)
        }),
{
    let mut positions: Vec<usize> = Vec::new();
    if ready < 0 {
        return positions;
    }
    for i in 0..revents.len()
        invariant
            positions@ == readable(revents@.take(i as int)),
    {
        assert(revents@.take(i + 1).drop_last() =~= revents@.take(i as int));
        if (revents[i] & pollin()) != 0 {
            positions.push(i);
        }
    }
    assert(revents@.take(revents@.len() as int) =~= revents@);
    positions
}

/// Whether the relay leaves the terminal: it was asked to, and there are no
/// debugging messages to show.
pub fn runs_in_background(debugging: bool, fork_to_background: bool) -> (r: bool)
    ensures
        r == (fork_to_background && !debugging),
{
    !debugging && fork_to_background
}

/// Every group is joined on every interface, and nothing else is joined.
pub proof fn law_every_group_on_every_interface(
    groups: Seq<Ipv4Address>,
    interfaces: Seq<MachineIterface>,
    step: ListenerStep,
)
    ensures
        all_joins(groups, interfaces).contains(step) <==> exists|g: int, i: int|
            0 <= g < groups.len() && 0 <= i < interfaces.len() && step == (ListenerStep::Join {
                group: #[trigger] groups[g],
                interface_addr: (#[trigger] interfaces[i]).interface_addr,
            }),
    decreases groups.len(),
{
    if groups.len() > 0 {
        let front = groups.drop_last();
        let before = all_joins(front, interfaces);
        let last = group_joins(groups.last(), interfaces);
        let all = all_joins(groups, interfaces);
        law_every_group_on_every_interface(front, interfaces, step);
        if all.contains(step) {
            let k = choose|k: int| 0 <= k < all.len() && all[k] == step;
            if k < before.len() {
                assert(before[k] == step);
                let (g, i) = choose|g: int, i: int|
                    0 <= g < front.len() && 0 <= i < interfaces.len() && step == (
                    ListenerStep::Join {
                        group: #[trigger] front[g],
                        interface_addr: (#[trigger] interfaces[i]).interface_addr,
                    });
                assert(groups[g] == front[g]);
            } else {
                let i = k - before.len();
                assert(last[i] == step);
                assert(groups[groups.len() - 1] == groups.last());
                assert(step == (ListenerStep::Join {
                    group: groups[groups.len() - 1],
                    interface_addr: interfaces[i].interface_addr,
                }));
            }
        }
        if exists|g: int, i: int|
            0 <= g < groups.len() && 0 <= i < interfaces.len() && step == (ListenerStep::Join {
                group: #[trigger] groups[g],
                interface_addr: (#[trigger] interfaces[i]).interface_addr,
            }) {
            let (g, i) = choose|g: int, i: int|
                0 <= g < groups.len() && 0 <= i < interfaces.len() && step == (ListenerStep::Join {
                    group: #[trigger] groups[g],
                    interface_addr: (#[trigger] interfaces[i]).interface_addr,
                });
            if g < front.len() {
                assert(front[g] == groups[g]);
                let k = choose|k: int| 0 <= k < before.len() && before[k] == step;
                assert(all[k] == step);
            } else {
                assert(last[i] == step);
                assert(all[before.len() + i] == step);
            }
        }
    }
}

/// The steps are taken in order up to the first that fails, and none behind it.
/// Where none fails, all are taken.
pub proof fn law_setup_stops_at_failure(outcomes: Seq<bool>, good: nat, turns: nat)
    requires
        outcomes.len() <= usize::MAX,
        good <= outcomes.len(),
        forall|i: int| 0 <= i < good ==> outcomes[i],
        good < outcomes.len() ==> !outcomes[good as int],
    ensures
        setup_run(outcomes, turns) == (if turns <= good {
            setup_at(outcomes.len(), turns)
        } else if good < outcomes.len() {
            SetupProgress::Failed { position: good as usize }
        } else {
            SetupProgress::Ready
        }),
    decreases turns,
{
    if turns > 0 {
        law_setup_stops_at_failure(outcomes, good, (turns - 1) as nat);
    }
}

/// Of the steps for a listener only the last binds it, and the steps that join
/// groups stand before that.
proof fn lemma_bind_is_last(
    platform: Platform,
    groups: Seq<Ipv4Address>,
    interfaces: Seq<MachineIterface>,
    port: u16,
    k: int,
)
    requires
        0 <= k < listener_plan(platform, groups, interfaces, port).len(),
    ensures
        listener_plan(platform, groups, interfaces, port)[k] is Bind <==> k == listener_plan(
            platform,
            groups,
            interfaces,
            port,
        ).len() - 1,
{
    let plan = listener_plan(platform, groups, interfaces, port);
    let joins = all_joins(groups, interfaces);
    let opening = 2 + tell_steps(platform).len();
    if opening <= k < plan.len() - 1 {
        assert(plan[k] == joins[k - opening]);
        assert(joins.contains(plan[k]));
        law_every_group_on_every_interface(groups, interfaces, plan[k]);
    }
}

/// Once joining a group has failed, no group is joined and no port is bound any
/// more.
pub proof fn law_failed_join_is_last(
    platform: Platform,
    groups: Seq<Ipv4Address>,
    interfaces: Seq<MachineIterface>,
    port: u16,
    outcomes: Seq<bool>,
    turn: nat,
    later: nat,
)
    requires
        outcomes.len() == listener_plan(platform, groups, interfaces, port).len(),
        setup_run(outcomes, turn) matches SetupProgress::Take { position } && listener_plan(
            platform,
            groups,
            interfaces,
            port,
        )[position as int] is Join && !outcomes[position as int],
        turn < later,
    ensures
        setup_run(outcomes, later) == (SetupProgress::Failed {
            position: setup_run(outcomes, turn)->Take_position,
        }),
    decreases later,
{
    if turn + 1 < later {
        law_failed_join_is_last(
            platform,
            groups,
            interfaces,
            port,
            outcomes,
            turn,
            (later - 1) as nat,
        );
    }
}

/// The port is bound only once every group has been joined on every interface.
pub proof fn law_bound_after_every_join(
    platform: Platform,
    groups: Seq<Ipv4Address>,
    interfaces: Seq<MachineIterface>,
    port: u16,
    outcomes: Seq<bool>,
    turn: nat,
    k: int,
)
    requires
        outcomes.len() == listener_plan(platform, groups, interfaces, port).len(),
        outcomes.len() <= usize::MAX,
        setup_run(outcomes, turn) matches SetupProgress::Take { position } && listener_plan(
            platform,
            groups,
            interfaces,
            port,
        )[position as int] is Bind,
        0 <= k < outcomes.len(),
        listener_plan(platform, groups, interfaces, port)[k] is Join,
    ensures
        outcomes[k],
{
    let position = setup_run(outcomes, turn)->Take_position;
    lemma_setup_run(outcomes, turn);
    lemma_bind_is_last(platform, groups, interfaces, port, position as int);
    lemma_bind_is_last(platform, groups, interfaces, port, k);
}

/// A step is taken only if all before it have succeeded; the step with which the
/// set-up fails has failed; a socket is ready only if all steps have succeeded.
proof fn lemma_setup_run(outcomes: Seq<bool>, turns: nat)
    requires
        outcomes.len() <= usize::MAX,
    ensures
        match setup_run(outcomes, turns) {
            SetupProgress::Take { position } => position == turns && turns < outcomes.len()
                && forall|i: int| 0 <= i < turns ==> outcomes[i],
            SetupProgress::Failed { position } => position < outcomes.len()
                && !outcomes[position as int],
            SetupProgress::Ready => forall|i: int| 0 <= i < outcomes.len() ==> outcomes[i],
        },
    decreases turns,
{
    if turns > 0 {
        lemma_setup_run(outcomes, (turns - 1) as nat);
    }
}

/// A sender is ready exactly if every step that the relay cannot do without
/// succeeds.
pub proof fn law_sender_ready(plan: Seq<SenderStep>, succeeded: Seq<bool>)
    requires
        plan.len() == succeeded.len(),
        plan.len() <= usize::MAX,
    ensures
        setup_run(
            Seq::new(plan.len(), |i: int| succeeded[i] || plan[i].optional()),
            plan.len(),
        ) is Ready <==> forall|i: int|
            0 <= i < plan.len() && !(#[trigger] plan[i]).optional() ==> succeeded[i],
{
    let outcomes = Seq::new(plan.len(), |i: int| succeeded[i] || plan[i].optional());
    lemma_setup_run(outcomes, plan.len());
    if setup_run(outcomes, plan.len()) is Ready {
        assert forall|i: int| 0 <= i < plan.len() && !(#[trigger] plan[i]).optional() implies
            succeeded[i] by {
            assert(outcomes[i]);
        }
    } else {
        let position = setup_run(outcomes, plan.len())->Failed_position as int;
        assert(!outcomes[position]);
        assert(!plan[position].optional());
    }
}

/// Exactly the sockets with something to read are read, each once.
pub proof fn law_readable_sockets(revents: Seq<i16>, position: usize)
    requires
        revents.len() <= usize::MAX,
    ensures
        readable(revents).contains(position) <==> position < revents.len()
            && revents[position as int] & 1 != 0,
        readable(revents).no_duplicates(),
        forall|k: int| 0 <= k < readable(revents).len() ==> #[trigger] readable(revents)[k]
            < revents.len(),
    decreases revents.len(),
{
    if revents.len() > 0 {
        let front = revents.drop_last();
        law_readable_sockets(front, position);
        let before = readable(front);
        let all = readable(revents);
        if revents.last() & 1 != 0 {
            let last = (revents.len() - 1) as usize;
            assert(all == before.push(last));
            assert(all[before.len() as int] == last);
            if before.contains(position) {
                let k = choose|k: int| 0 <= k < before.len() && before[k] == position;
                assert(all[k] == position);
            }
            if all.contains(position) && position != last {
                let k = choose|k: int| 0 <= k < all.len() && all[k] == position;
                assert(before[k] == position);
            }
        }
        if position < front.len() {
            assert(front[position as int] == revents[position as int]);
        }
    }
}

/// Where the steps that join groups stand: those for one group together, in the
/// order of the groups, and among them in the order of the interfaces.
proof fn lemma_join_position(
    groups: Seq<Ipv4Address>,
    interfaces: Seq<MachineIterface>,
    g: int,
    i: int,
)
    ensures
        all_joins(groups, interfaces).len() == groups.len() * interfaces.len(),
        0 <= g < groups.len() && 0 <= i < interfaces.len() ==> 0 <= g * interfaces.len() + i
            < groups.len() * interfaces.len() && all_joins(groups, interfaces)[g * interfaces.len()
            + i] == (ListenerStep::Join {
            group: groups[g],
            interface_addr: interfaces[i].interface_addr,
        }),
    decreases groups.len(),
{
    let n = interfaces.len() as int;
    let all = groups.len() as int;
    if all == 0 {
        assert(0 * n == 0) by (nonlinear_arith);
    } else {
        let front = groups.drop_last();
        lemma_join_position(front, interfaces, g, i);
        assert(all * n == (all - 1) * n + n) by (nonlinear_arith);
        if 0 <= g < all && 0 <= i < n {
            assert(0 <= g * n) by (nonlinear_arith)
                requires
                    0 <= g,
                    0 <= n,
            ;
            if g < all - 1 {
                assert(g * n + n <= (all - 1) * n) by (nonlinear_arith)
                    requires
                        g < all - 1,
                        0 <= n,
                ;
                assert(front[g] == groups[g]);
            } else {
                assert(groups.last() == groups[g]);
                assert(group_joins(groups.last(), interfaces)[i] == (ListenerStep::Join {
                    group: groups[g],
                    interface_addr: interfaces[i].interface_addr,
                }));
            }
        }
    }
}

/// What the steps for a listener are, in order: broadcasts, the shared port, the
/// time to live; then on Linux the interface together with the destination, and
/// elsewhere the one and the other; then every group on every interface; and at
/// last the port, on the address 0.0.0.0. There are no others.
pub proof fn law_listener_steps(
    platform: Platform,
    groups: Seq<Ipv4Address>,
    interfaces: Seq<MachineIterface>,
    port: u16,
    g: int,
    i: int,
)
    ensures
        ({
            let plan = listener_plan(platform, groups, interfaces, port);
            let opening: int = if platform is Linux {
                4
            } else {
                5
            };
            let last = opening + groups.len() * interfaces.len();
            &&& plan.len() == last + 1
            &&& plan[0] == ListenerStep::Broadcast
            &&& plan[1] == ListenerStep::ReusePort
            &&& plan[2] == ListenerStep::TellTtl
            &&& platform is Linux ==> plan[3] == ListenerStep::TellPacketInfo
            &&& !(platform is Linux) ==> plan[3] == ListenerStep::TellInterface && plan[4]
                == ListenerStep::TellDestination
            &&& 0 <= g < groups.len() && 0 <= i < interfaces.len() ==> plan[opening + (g
                * interfaces.len() + i)] == (ListenerStep::Join {
                group: groups[g],
                interface_addr: interfaces[i].interface_addr,
            })
            &&& plan[last] matches ListenerStep::Bind { address } && address.port == port
                && address.ip.a == 0 && address.ip.b == 0 && address.ip.c == 0 && address.ip.d == 0
        }),
        listener_address(port).port == port,
        ({
            let ip = listener_address(port).ip;
            ip.a == 0 && ip.b == 0 && ip.c == 0 && ip.d == 0
        }),
{
    lemma_join_position(groups, interfaces, g, i);
    let opening = seq![ListenerStep::Broadcast, ListenerStep::ReusePort] + tell_steps(platform);
    let joins = all_joins(groups, interfaces);
    let plan = listener_plan(platform, groups, interfaces, port);
    assert(plan.len() == opening.len() + joins.len() + 1);
    let k = g * interfaces.len() + i;
    if 0 <= g < groups.len() && 0 <= i < interfaces.len() {
        assert(plan[opening.len() + k] == joins[k]);
    }
}

/// A listener joins a group on an address exactly if the group is one of those
/// asked for and the address that of a served interface.
pub proof fn law_listener_joins(
    platform: Platform,
    groups: Seq<Ipv4Address>,
    interfaces: Seq<MachineIterface>,
    port: u16,
    group: Ipv4Address,
    interface_addr: Ipv4Address,
)
    ensures
        listener_plan(platform, groups, interfaces, port).contains(
            ListenerStep::Join { group, interface_addr },
        ) <==> groups.contains(group) && exists|i: int|
            0 <= i < interfaces.len() && (#[trigger] interfaces[i]).interface_addr
                == interface_addr,
{
    let step = ListenerStep::Join { group, interface_addr };
    let plan = listener_plan(platform, groups, interfaces, port);
    let joins = all_joins(groups, interfaces);
    let opening = 2 + tell_steps(platform).len();
    law_every_group_on_every_interface(groups, interfaces, step);
    if plan.contains(step) {
        let k = choose|k: int| 0 <= k < plan.len() && plan[k] == step;
        assert(opening <= k < plan.len() - 1);
        assert(joins[k - opening] == step);
        assert(joins.contains(step));
    }
    if groups.contains(group) && exists|i: int|
        0 <= i < interfaces.len() && (#[trigger] interfaces[i]).interface_addr == interface_addr {
        let g = choose|g: int| 0 <= g < groups.len() && groups[g] == group;
        let i = choose|i: int|
            0 <= i < interfaces.len() && (#[trigger] interfaces[i]).interface_addr
                == interface_addr;
        assert(groups[g] == group && interfaces[i].interface_addr == interface_addr);
        assert(joins.contains(step));
        let k = choose|k: int| 0 <= k < joins.len() && joins[k] == step;
        assert(plan[opening + k] == step);
    }
}

/// What the steps for a sender are, in order, and which of them the relay can do
/// without: those that only concern multicast groups.
pub proof fn law_sender_steps(
    platform: Platform,
    interface_addr: Ipv4Address,
    ttl: u8,
    k: int,
    other_ttl: u32,
)
    ensures
        ({
            let plan = sender_plan(platform, interface_addr, ttl);
            &&& plan.len() == (if platform is Linux {
                4int
            } else {
                6int
            })
            &&& plan[0] == SenderStep::Broadcast
            &&& plan[1] == SenderStep::HeaderIncluded
            &&& plan[2] == SenderStep::ReusePort
            &&& platform is Linux ==> plan[3] == SenderStep::BindDevice
            &&& !(platform is Linux) ==> {
                &&& plan[3] == SenderStep::MulticastLoopOff
                &&& plan[4] == SenderStep::MulticastInterface(interface_addr)
                &&& plan[5] matches SenderStep::MulticastTtl(told) && told == ttl
            }
            &&& 0 <= k < plan.len() ==> (plan[k].optional() <==> k >= 3 && !(platform is Linux))
        }),
        !SenderStep::Broadcast.optional(),
        !SenderStep::HeaderIncluded.optional(),
        !SenderStep::ReusePort.optional(),
        !SenderStep::BindDevice.optional(),
        SenderStep::MulticastLoopOff.optional(),
        SenderStep::MulticastInterface(interface_addr).optional(),
        SenderStep::MulticastTtl(other_ttl).optional(),
{
}

/// The set-up starts with the first step. A step that has succeeded leads to the
/// next, or behind the last to a socket that is ready; one that has failed ends the
/// set-up.
pub proof fn law_how_the_setup_goes_on(steps: nat, position: usize)
    requires
        steps <= usize::MAX,
        position < steps,
    ensures
        setup_at(0, 0) is Ready,
        setup_at(steps, 0) == (SetupProgress::Take { position: 0 }),
        position + 1 < steps ==> setup_after_step(steps, position, true) == (SetupProgress::Take {
            position: (position + 1) as usize,
        }),
        position + 1 == steps ==> setup_after_step(steps, position, true) is Ready,
        setup_after_step(steps, position, false) == (SetupProgress::Failed { position }),
{
}

/// The sockets are read in their order.
pub proof fn law_readable_in_order(revents: Seq<i16>, j: int, k: int)
    requires
        revents.len() <= usize::MAX,
        0 <= j < k < readable(revents).len(),
    ensures
        readable(revents)[j] < readable(revents)[k],
    decreases revents.len(),
{
    let front = revents.drop_last();
    law_readable_sockets(front, 0);
    if k < readable(front).len() {
        law_readable_in_order(front, j, k);
    } else {
        assert(readable(front)[j] < front.len());
    }
}

} // verus!
