//! Installing the route of a function along the path to its winner,
//! and deciding where an invocation goes next.

use crate::ids::{BidId, NodeId};
use crate::routing::{routed, Forward, Hop, Node, NodeSituation, RoutingTable};
use vstd::prelude::*;

verus! {

/// The path of a function, hop by hop from the market to the node that
/// won its auction.
#[derive(Debug)]
pub struct FunctionRoutingStack {
    pub bid_id: BidId,
    pub stack: Vec<NodeId>,
}

/// An invocation on its way. The payload belongs to the caller and to
/// the function: nothing here reads it.
#[derive(Debug)]
pub struct Packet {
    pub bid_id: BidId,
    pub payload: Vec<u8>,
}

/// Why a route could not be installed or a packet not be forwarded.
#[derive(Debug, Clone, Copy, PartialEq, Eq, Structural)]
pub enum Error {
    /// This node is not on the path it was asked to install.
    MalformedStack,
    /// The next hop is not a neighbour of this node.
    UnknownNeighbor(NodeId),
    /// The packet must go up, and this node is the market.
    NoMarketLink,
}

/// What is left to do once a route has been installed here.
#[derive(Debug)]
pub enum RouteInstall {
    /// This node is the winner: the path ends here.
    Winner,
    /// The unchanged path is to be handed to this neighbour.
    Relay(Node),
}

/// Who is to receive a packet.
#[derive(Debug)]
pub enum Delivery {
    /// The function of this bid, on this node.
    Function(BidId),
    /// This neighbour, the next hop towards the function.
    Neighbor(Node),
    /// This neighbour, the way to the market.
    Market(Node),
}

/// The first position of a node on a path, or the path's length where
/// the node is not on it.
pub open spec fn position_of(stack: Seq<NodeId>, node: NodeId) -> int
    decreases stack.len(),
{
    if stack.len() == 0 || stack[0] == node {
        0
    } else {
        1 + position_of(stack.skip(1), node)
    }
}

/// The entry that the node at a position of a path installs: the last
/// node routes inside, every other node to the one after it.
pub open spec fn hop_at(stack: Seq<NodeId>, position: int) -> Hop {
    if position == stack.len() - 1 {
        Hop::Inside
    } else {
        Hop::Outside(stack[position + 1])
    }
}

/// What installing a path decides at a node with the given neighbours:
/// the entry to install, or why there is none.
pub open spec fn route_decided(stack: Seq<NodeId>, me: NodeId, neighbors: Map<u128, Node>) -> Result<
    Hop,
    Error,
> {
    let position = position_of(stack, me);
    if position >= stack.len() {
        Err(Error::MalformedStack)
    } else {
        match hop_at(stack, position) {
            Hop::Outside(next) => if neighbors.contains_key(next.value) {
                Ok(Hop::Outside(next))
            } else {
                Err(Error::UnknownNeighbor(next))
            },
            hop => Ok(hop),
        }
    }
}

/// Where a packet that the table routes as `forward` is delivered by a
/// node with the given neighbours and way to the market.
pub open spec fn delivery_decided(
    forward: Forward,
    neighbors: Map<u128, Node>,
    to_market: Option<Node>,
) -> Result<Delivery, Error> {
    match forward {
        Forward::Inside(bid_id) => Ok(Delivery::Function(bid_id)),
        Forward::Outside(_, next) => if neighbors.contains_key(next.value) {
            Ok(Delivery::Neighbor(neighbors[next.value]))
        } else {
            Err(Error::UnknownNeighbor(next))
        },
        Forward::ToMarket(_) => match to_market {
            Some(parent) => Ok(Delivery::Market(parent)),
            None => Err(Error::NoMarketLink),
        },
    }
}

pub proof fn lemma_position_of(stack: Seq<NodeId>, node: NodeId)
    ensures
        0 <= position_of(stack, node) <= stack.len(),
        position_of(stack, node) < stack.len() ==> stack[position_of(stack, node)] == node,
        forall|j: int| 0 <= j < position_of(stack, node) ==> #[trigger] stack[j] != node,
    decreases stack.len(),
{
    if stack.len() == 0 || stack[0] == node {
    } else {
        let rest = stack.skip(1);
        lemma_position_of(rest, node);
        assert forall|j: int| 0 <= j < position_of(stack, node) implies #[trigger] stack[j]
            != node by {
            if j > 0 {
                assert(stack[j] == rest[j - 1]);
            }
        }
    }
}

/// A node that is told to route a function inside is the last node of
/// the path that told it so.
pub proof fn lemma_inside_at_the_end(stack: Seq<NodeId>, me: NodeId, neighbors: Map<u128, Node>)
    requires
        route_decided(stack, me, neighbors) == Ok::<Hop, Error>(Hop::Inside),
    ensures
        stack.len() > 0,
        stack.last() == me,
        position_of(stack, me) == stack.len() - 1,
{
    lemma_position_of(stack, me);
}

/// The first position of a node on a path.
fn find_position(stack: &Vec<NodeId>, node: NodeId) -> (position: usize)
    ensures
        position == position_of(stack@, node),
        position <= stack@.len(),
{
    let mut i: usize = 0;
    proof {
        assert(stack@.skip(0) =~= stack@);
        lemma_position_of(stack@, node);
    }
    while i < stack.len()
        invariant
            i <= stack.len(),
            position_of(stack@, node) == i + position_of(stack@.skip(i as int), node),
        decreases stack.len() - i,
    {
        proof {
            assert(stack@.skip(i as int)[0] == stack@[i as int]);
            assert(stack@.skip(i as int).skip(1) =~= stack@.skip(i + 1));
        }
        if stack[i] == node {
            return i;
        }
        i = i + 1;
    }
    i
}

/// The routing state of one node.
#[derive(Debug)]
pub struct Router {
    pub table: RoutingTable,
    pub situation: NodeSituation,
}

impl Router {
    /// Installs the route of a function at this node.
    ///
    /// The node looks for its first position on the path. The winner,
    /// at the end of the path, routes the function inside. Any other
    /// node routes it to the node that follows, which must be one of
    /// its neighbours, and is told to relay the path to it. Where this
    /// node is not on the path, or the next hop is no neighbour, the
    /// table stays as it was.
    pub fn register_function_route(&mut self, stack: &FunctionRoutingStack) -> (r: Result<
        RouteInstall,
        Error,
    >)
        ensures
            final(self).situation == old(self).situation,
            match route_decided(stack.stack@, old(self).situation.my_id, old(self).situation.neighbors()) {
                Ok(hop) => final(self).table@ == old(self).table@.insert(stack.bid_id.value, hop)
                    && match hop {
                    Hop::Outside(next) => r == Ok::<RouteInstall, Error>(
                        RouteInstall::Relay(old(self).situation.neighbors()[next.value]),
                    ),
                    _ => r == Ok::<RouteInstall, Error>(RouteInstall::Winner),
                },
                Err(e) => final(self).table@ == old(self).table@ && r == Err::<RouteInstall, Error>(e),
            },
            r is Ok && final(self).table@[stack.bid_id.value] == Hop::Inside ==> stack.stack@.len() > 0
                && stack.stack@.last() == old(self).situation.my_id,
    {
        let me = self.situation.my_id;
        let position = find_position(&stack.stack, me);
        if position >= stack.stack.len() {
            return Err(Error::MalformedStack);
        }
        proof {
            lemma_position_of(stack.stack@, me);
        }
        if position == stack.stack.len() - 1 {
            self.table.install(stack.bid_id, Hop::Inside);
            return Ok(RouteInstall::Winner);
        }
        let next = stack.stack[position + 1];
        let relay = match self.situation.get(&next) {
            Some(node) => node.clone(),
            None => {
                return Err(Error::UnknownNeighbor(next));
            },
        };
        self.table.install(stack.bid_id, Hop::Outside(next));
        Ok(RouteInstall::Relay(relay))
    }

    /// Decides who receives the packets of a function.
    ///
    /// A function without an entry is first given the entry that sends
    /// it towards the market; no other entry is touched. The packet
    /// then goes where the table says: to the function itself, to the
    /// neighbour that is the next hop, or to the parent; the latter
    /// two fail where this node has no such neighbour or no parent.
    pub fn forward(&mut self, bid_id: BidId) -> (r: Result<Delivery, Error>)
        ensures
            final(self).situation == old(self).situation,
            final(self).table@ == if old(self).table@.contains_key(bid_id.value) {
                old(self).table@
            } else {
                old(self).table@.insert(bid_id.value, Hop::ToMarket)
            },
            r == delivery_decided(
                routed(old(self).table@, bid_id),
                old(self).situation.neighbors(),
                old(self).situation.to_market,
            ),
    {
        let hop = match self.table.entry(bid_id) {
            Some(hop) => hop,
            None => {
                self.table.install(bid_id, Hop::ToMarket);
                Hop::ToMarket
            },
        };
        match hop {
            Hop::Inside => Ok(Delivery::Function(bid_id)),
            Hop::Outside(next) => match self.situation.get(&next) {
                Some(node) => Ok(Delivery::Neighbor(node.clone())),
                None => Err(Error::UnknownNeighbor(next)),
            },
            Hop::ToMarket => match &self.situation.to_market {
                Some(parent) => Ok(Delivery::Market(parent.clone())),
                None => Err(Error::NoMarketLink),
            },
        }
    }
}

/// No node occurs twice on the path.
pub open spec fn no_repeats(stack: Seq<NodeId>) -> bool {
    forall|i: int, j: int| 0 <= i < j < stack.len() ==> stack[i] != stack[j]
}

/// Every node of the path has installed the path in its own table:
/// `tables` holds the table of each node under the value of the node's
/// identifier.
pub open spec fn installed_along(
    tables: Map<u128, Map<u128, Hop>>,
    bid_id: BidId,
    stack: Seq<NodeId>,
) -> bool {
    forall|i: int|
        0 <= i < stack.len() ==> tables.contains_key((#[trigger] stack[i]).value)
            && tables[stack[i].value].contains_key(bid_id.value)
            && tables[stack[i].value][bid_id.value] == hop_at(stack, position_of(stack, stack[i]))
}

/// The node at which a packet of the function is handed inside, when
/// it starts at `at` and every node passes it to the next hop of its
/// table, for at most `hops` hops. `None` where the walk meets a node
/// without a table, leaves towards the market, or runs out of hops.
pub open spec fn reached(
    tables: Map<u128, Map<u128, Hop>>,
    bid_id: BidId,
    at: NodeId,
    hops: nat,
) -> Option<NodeId>
    decreases hops,
{
    if !tables.contains_key(at.value) {
        None
    } else {
        match routed(tables[at.value], bid_id) {
            Forward::Inside(_) => Some(at),
            Forward::Outside(_, next) => if hops == 0 {
                None
            } else {
                reached(tables, bid_id, next, (hops - 1) as nat)
            },
            Forward::ToMarket(_) => None,
        }
    }
}

/// Once every node of a path without repeats has installed it, a
/// packet that starts at any node of the path follows the path to its
/// last node and is handed inside there: the walk from position `i`
/// takes the hops that are left and ends at the winner, and the winner
/// is the only node of the path that routes inside.
pub proof fn lemma_path_reaches_winner(
    tables: Map<u128, Map<u128, Hop>>,
    bid_id: BidId,
    stack: Seq<NodeId>,
    i: int,
)
    requires
        no_repeats(stack),
        installed_along(tables, bid_id, stack),
        0 <= i < stack.len(),
    ensures
        reached(tables, bid_id, stack[i], (stack.len() - 1 - i) as nat) == Some(stack.last()),
        forall|j: int|
            0 <= j < stack.len() ==> (tables[(#[trigger] stack[j]).value][bid_id.value]
                == Hop::Inside <==> j == stack.len() - 1),
    decreases stack.len() - i,
{
    assert forall|j: int| 0 <= j < stack.len() implies position_of(stack, #[trigger] stack[j])
        == j by {
        lemma_position_of(stack, stack[j]);
    }
    if i < stack.len() - 1 {
        lemma_path_reaches_winner(tables, bid_id, stack, i + 1);
    }
}

/// Every node of the path has been told to install the path and has
/// done so: `tables` holds the table of each node and `neighbors` the
/// neighbours of each node, both under the value of the node's
/// identifier, and each table holds for the function the entry that
/// installing the path decides at its node.
pub open spec fn registered_along(
    tables: Map<u128, Map<u128, Hop>>,
    neighbors: Map<u128, Map<u128, Node>>,
    bid_id: BidId,
    stack: Seq<NodeId>,
) -> bool {
    forall|i: int|
        0 <= i < stack.len() ==> {
            let node = (#[trigger] stack[i]).value;
            &&& tables.contains_key(node)
            &&& neighbors.contains_key(node)
            &&& tables[node].contains_key(bid_id.value)
            &&& route_decided(stack, stack[i], neighbors[node]) == Ok::<Hop, Error>(
                tables[node][bid_id.value],
            )
        }
}

/// A walk that is given too few hops does not arrive: from position
/// `i` of an installed path without repeats, fewer hops than are left
/// to the last node reach nothing.
pub proof fn lemma_walk_needs_every_hop(
    tables: Map<u128, Map<u128, Hop>>,
    bid_id: BidId,
    stack: Seq<NodeId>,
    i: int,
    hops: nat,
)
    requires
        no_repeats(stack),
        installed_along(tables, bid_id, stack),
        0 <= i < stack.len(),
        hops < stack.len() - 1 - i,
    ensures
        reached(tables, bid_id, stack[i], hops) is None,
    decreases hops,
{
    lemma_position_of(stack, stack[i]);
    assert(position_of(stack, stack[i]) == i);
    if hops > 0 {
        lemma_walk_needs_every_hop(tables, bid_id, stack, i + 1, (hops - 1) as nat);
    }
}

/// Once installing a path has succeeded at every node of it, and no
/// node occurs twice on it, the packets of the function follow the
/// path: every node but the last hands them to the node after it, the
/// last node hands them inside and is the only one to do so, and the
/// walk from the first node arrives there after exactly as many hops as
/// the path has links.
pub proof fn lemma_registered_path_is_walked(
    tables: Map<u128, Map<u128, Hop>>,
    neighbors: Map<u128, Map<u128, Node>>,
    bid_id: BidId,
    stack: Seq<NodeId>,
)
    requires
        stack.len() > 0,
        no_repeats(stack),
        registered_along(tables, neighbors, bid_id, stack),
    ensures
        forall|j: int|
            0 <= j < stack.len() - 1 ==> routed(tables[(#[trigger] stack[j]).value], bid_id)
                == Forward::Outside(bid_id, stack[j + 1]),
        routed(tables[stack.last().value], bid_id) == Forward::Inside(bid_id),
        reached(tables, bid_id, stack[0], (stack.len() - 1) as nat) == Some(stack.last()),
        forall|hops: nat|
            hops < stack.len() - 1 ==> #[trigger] reached(tables, bid_id, stack[0], hops) is None,
{
    assert forall|i: int| 0 <= i < stack.len() implies tables.contains_key(
        (#[trigger] stack[i]).value,
    ) && tables[stack[i].value].contains_key(bid_id.value) && tables[stack[i].value][bid_id.value]
        == hop_at(stack, position_of(stack, stack[i])) by {
        lemma_position_of(stack, stack[i]);
    }
    assert(installed_along(tables, bid_id, stack));
    assert forall|j: int| 0 <= j < stack.len() implies position_of(stack, #[trigger] stack[j])
        == j by {
        lemma_position_of(stack, stack[j]);
    }
    lemma_path_reaches_winner(tables, bid_id, stack, 0);
    assert forall|hops: nat| hops < stack.len() - 1 implies #[trigger] reached(
        tables,
        bid_id,
        stack[0],
        hops,
    ) is None by {
        lemma_walk_needs_every_hop(tables, bid_id, stack, 0, hops);
    }
}

} // verus!
