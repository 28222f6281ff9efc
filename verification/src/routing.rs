//! What a node knows of its neighbours, and its table of routes.

use crate::config::ConfigError;
use crate::ids::{BidId, NodeId};
use std::collections::HashMap;
use vstd::prelude::*;

verus! {

/// On which side of this node a neighbour stands.
#[derive(Debug, Clone, Copy, PartialEq, Eq, Structural)]
pub enum NodeCategory {
    Parent,
    Child,
}

/// A neighbour: where to reach it, who it is, and on which side it is.
#[derive(Debug)]
pub struct Node {
    pub uri: String,
    pub id: NodeId,
    pub category: NodeCategory,
}

impl Clone for Node {
    fn clone(&self) -> (node: Node)
        ensures
            node == *self,
    {
        Node { uri: self.uri.clone(), id: self.id, category: self.category }
    }
}

/// The node situation as it is kept at rest.
#[derive(Debug)]
pub struct NodeSituationDisk {
    pub nodes: Vec<Node>,
    pub market_url: Option<String>,
    pub my_id: NodeId,
}

impl Default for NodeSituationDisk {
    fn default() -> (disk: NodeSituationDisk)
        ensures
            disk.nodes@.len() == 0,
            disk.market_url is None,
            disk.my_id.value == 0,
    {
        NodeSituationDisk { nodes: Vec::new(), market_url: None, my_id: NodeId::nil() }
    }
}

impl NodeSituationDisk {
    /// The situation that was loaded. Where nothing could be loaded,
    /// because nothing could be read or what was read is no node
    /// situation, there is no situation: none is made up, so that a
    /// node without a valid configuration does not start.
    pub fn new(loaded: Option<NodeSituationDisk>) -> (r: Result<NodeSituationDisk, ConfigError>)
        ensures
            loaded matches Some(found) ==> r == Ok::<NodeSituationDisk, ConfigError>(found),
            loaded is None ==> r == Err::<NodeSituationDisk, ConfigError>(ConfigError::Malformed),
    {
        match loaded {
            Some(found) => Ok(found),
            None => Err(ConfigError::Malformed),
        }
    }
}

/// The neighbours of a list, each under the value of its identifier.
/// Where an identifier occurs twice, the later neighbour stands.
pub open spec fn neighbor_map(nodes: Seq<Node>) -> Map<u128, Node>
    decreases nodes.len(),
{
    if nodes.len() == 0 {
        Map::empty()
    } else {
        neighbor_map(nodes.drop_last()).insert(nodes.last().id.value, nodes.last())
    }
}

/// The first neighbour of the list whose identifier stands in the map
/// for a parent, as the map holds it.
pub open spec fn first_parent(nodes: Seq<Node>, map: Map<u128, Node>) -> Option<Node>
    decreases nodes.len(),
{
    if nodes.len() == 0 {
        None
    } else if map.contains_key(nodes[0].id.value) && map[nodes[0].id.value].category
        == NodeCategory::Parent {
        Some(map[nodes[0].id.value])
    } else {
        first_parent(nodes.skip(1), map)
    }
}

/// Every neighbour of the map stands under its own identifier and
/// comes from the list, and every identifier of the list is in the map.
pub proof fn lemma_neighbor_map(nodes: Seq<Node>)
    ensures
        forall|i: int|
            0 <= i < nodes.len() ==> neighbor_map(nodes).contains_key(
                (#[trigger] nodes[i]).id.value,
            ),
        forall|key: u128| #[trigger]
            neighbor_map(nodes).contains_key(key) ==> neighbor_map(nodes)[key].id.value == key
                && nodes.contains(neighbor_map(nodes)[key]),
    decreases nodes.len(),
{
    if nodes.len() > 0 {
        let front = nodes.drop_last();
        lemma_neighbor_map(front);
        assert forall|i: int| 0 <= i < nodes.len() implies neighbor_map(nodes).contains_key(
            (#[trigger] nodes[i]).id.value,
        ) by {
            if i < front.len() {
                assert(front[i] == nodes[i]);
            }
        }
        assert forall|key: u128| #[trigger]
            neighbor_map(nodes).contains_key(key) implies neighbor_map(nodes)[key].id.value == key
            && nodes.contains(neighbor_map(nodes)[key]) by {
            if key == nodes.last().id.value {
                assert(nodes[nodes.len() - 1] == nodes.last());
            } else {
                let j = choose|j: int| 0 <= j < front.len() && front[j] == neighbor_map(front)[key];
                assert(nodes[j] == front[j]);
            }
        }
    }
}

/// What [`first_parent`] finds is a parent of the map, and it finds
/// none only where no identifier of the list stands for a parent.
pub proof fn lemma_first_parent(nodes: Seq<Node>, map: Map<u128, Node>)
    ensures
        match first_parent(nodes, map) {
            Some(parent) => parent.category == NodeCategory::Parent && exists|i: int|
                0 <= i < nodes.len() && map.contains_key((#[trigger] nodes[i]).id.value)
                    && map[nodes[i].id.value] == parent,
            None => forall|i: int|
                0 <= i < nodes.len() && map.contains_key((#[trigger] nodes[i]).id.value)
                    ==> map[nodes[i].id.value].category != NodeCategory::Parent,
        },
    decreases nodes.len(),
{
    if nodes.len() > 0 {
        if map.contains_key(nodes[0].id.value) && map[nodes[0].id.value].category
            == NodeCategory::Parent {
        } else {
            let rest = nodes.skip(1);
            lemma_first_parent(rest, map);
            match first_parent(rest, map) {
                Some(parent) => {
                    let i = choose|i: int|
                        0 <= i < rest.len() && map.contains_key((#[trigger] rest[i]).id.value)
                            && map[rest[i].id.value] == parent;
                    assert(nodes[i + 1] == rest[i]);
                },
                None => {
                    assert forall|i: int|
                        0 <= i < nodes.len() && map.contains_key(
                            (#[trigger] nodes[i]).id.value,
                        ) implies map[nodes[i].id.value].category != NodeCategory::Parent by {
                        if i > 0 {
                            assert(rest[i - 1] == nodes[i]);
                        }
                    }
                },
            }
        }
    }
}

/// Whether some neighbour of the map is a parent.
pub open spec fn has_parent(map: Map<u128, Node>) -> bool {
    exists|key: u128| #[trigger] map.contains_key(key) && map[key].category == NodeCategory::Parent
}

/// A list of neighbours yields a way to the market exactly when one of
/// the neighbours it leaves is a parent, and the way it yields is one
/// of those.
pub proof fn lemma_parent_found(nodes: Seq<Node>)
    ensures
        first_parent(nodes, neighbor_map(nodes)) is Some <==> has_parent(neighbor_map(nodes)),
        first_parent(nodes, neighbor_map(nodes)) matches Some(parent) ==> neighbor_map(
            nodes,
        ).contains_key(parent.id.value) && neighbor_map(nodes)[parent.id.value] == parent,
{
    let map = neighbor_map(nodes);
    lemma_neighbor_map(nodes);
    lemma_first_parent(nodes, map);
    if has_parent(map) {
        let key = choose|key: u128| #[trigger]
            map.contains_key(key) && map[key].category == NodeCategory::Parent;
        let i = choose|i: int| 0 <= i < nodes.len() && nodes[i] == map[key];
        assert(nodes[i].id.value == key);
    }
    if first_parent(nodes, map) is Some {
        let parent = first_parent(nodes, map)->0;
        let i = choose|i: int|
            0 <= i < nodes.len() && map.contains_key((#[trigger] nodes[i]).id.value)
                && map[nodes[i].id.value] == parent;
        assert(map.contains_key(nodes[i].id.value));
    }
}

/// Whether a list holds the neighbours of one category, each exactly
/// once: `keys` names, position by position, the entry of the map that
/// each neighbour of the list is, no key twice, and no entry of the
/// category is left out.
pub open spec fn lists_category(
    list: Seq<Node>,
    keys: Seq<u128>,
    neighbors: Map<u128, Node>,
    category: NodeCategory,
) -> bool {
    &&& keys.len() == list.len()
    &&& keys.no_duplicates()
    &&& forall|i: int|
        #![trigger keys[i]]
        0 <= i < keys.len() ==> neighbors.contains_key(keys[i]) && neighbors[keys[i]] == list[i]
            && list[i].category == category
    &&& forall|key: u128|
        neighbors.contains_key(key) && neighbors[key].category == category
            ==> #[trigger] keys.contains(key)
}

/// What a node knows of itself and of its direct neighbours.
#[derive(Debug, Clone)]
pub struct NodeSituation {
    /// The neighbours, each under the value of its identifier.
    pub nodes: HashMap<u128, Node>,
    pub to_market: Option<Node>,
    pub is_market: bool,
    pub market_url: Option<String>,
    pub my_id: NodeId,
    /// The address at which other nodes reach this one.
    pub public_ip: String,
    /// The port at which other nodes reach this one.
    pub public_port: u16,
}

impl NodeSituation {
    /// The neighbours, each under the value of its identifier.
    pub open spec fn neighbors(&self) -> Map<u128, Node> {
        self.nodes@
    }

    /// A node is the market exactly when it has no way to the market,
    /// the way to the market leads to a parent, and only the market
    /// carries the market's address.
    pub open spec fn wf(&self) -> bool {
        &&& self.is_market <==> self.to_market is None
        &&& self.to_market matches Some(parent) ==> parent.category == NodeCategory::Parent
        &&& !self.is_market ==> self.market_url is None
    }

    /// The neighbours of one category, each once, in no particular
    /// order.
    pub fn neighbors_in(&self, category: NodeCategory) -> (list: Vec<Node>)
        ensures
            exists|keys: Seq<u128>| #[trigger] lists_category(list@, keys, self.neighbors(), category),
    {
        let mut list: Vec<Node> = Vec::new();
        let ghost mut keys: Seq<u128> = Seq::empty();
        let ghost mut places: Seq<int> = Seq::empty();
        for key in it: self.nodes.keys()
            invariant
                it.seq().unref().to_set() == self.nodes@.dom(),
                it.seq().no_duplicates(),
                keys.len() == list@.len(),
                places.len() == keys.len(),
                keys.no_duplicates(),
                forall|i: int|
                    #![trigger keys[i]]
                    0 <= i < keys.len() ==> self.nodes@.contains_key(keys[i]) && self.nodes@[keys[i]]
                        == list@[i],
                forall|i: int| 0 <= i < list@.len() ==> (#[trigger] list@[i]).category == category,
                forall|i: int|
                    #![trigger places[i]]
                    0 <= i < places.len() ==> 0 <= places[i] < it.index() && *it.seq()[places[i]]
                        == keys[i],
                forall|key: u128|
                    self.nodes@.contains_key(key) && self.nodes@[key].category == category
                        ==> #[trigger] keys.contains(key) || exists|j: int|
                        it.index() <= j < it.seq().len() && *it.seq()[j] == key,
        {
            let ghost visited = keys;
            let ghost held = list@;
            let ghost here = it.index();
            proof {
                assert(it.seq().unref()[here] == *key);
                assert(it.seq().unref().to_set().contains(*key));
                assert(self.nodes@.contains_key(*key));
                assert forall|i: int| 0 <= i < visited.len() implies visited[i] != *key by {
                    assert(it.seq()[places[i]] != it.seq()[here]);
                }
            }
            match self.nodes.get(key) {
                Some(node) => {
                    if node.category == category {
                        list.push(node.clone());
                        proof {
                            keys = keys.push(*key);
                            places = places.push(here);
                            assert(keys[keys.len() - 1] == *key);
                            assert forall|i: int|
                                #![trigger keys[i]]
                                0 <= i < keys.len() implies self.nodes@.contains_key(keys[i])
                                && self.nodes@[keys[i]] == list@[i] by {
                                if i < visited.len() {
                                    assert(keys[i] == visited[i]);
                                    assert(list@[i] == held[i]);
                                }
                            }
                            assert forall|i: int| 0 <= i < list@.len() implies (
                            #[trigger] list@[i]).category == category by {
                                if i < held.len() {
                                    assert(list@[i] == held[i]);
                                }
                            }
                        }
                    }
                },
                None => {},
            }
            proof {
                assert forall|other: u128|
                    self.nodes@.contains_key(other) && self.nodes@[other].category
                        == category implies #[trigger] keys.contains(other) || exists|j: int|
                    here + 1 <= j < it.seq().len() && *it.seq()[j] == other by {
                    if visited.contains(other) {
                        let i = choose|i: int| 0 <= i < visited.len() && visited[i] == other;
                        assert(keys[i] == other);
                    } else if other == *key {
                        assert(keys[keys.len() - 1] == other);
                    } else {
                        let j = choose|j: int| here <= j < it.seq().len() && *it.seq()[j] == other;
                        assert(j != here);
                    }
                }
            }
        }
        proof {
            assert(lists_category(list@, keys, self.neighbors(), category));
        }
        list
    }

    /// The neighbours that a call for bids is handed on to: the
    /// children.
    pub fn children(&self) -> (list: Vec<Node>)
        ensures
            exists|keys: Seq<u128>| #[trigger]
                lists_category(list@, keys, self.neighbors(), NodeCategory::Child),
    {
        self.neighbors_in(NodeCategory::Child)
    }

    /// The neighbour with the given identifier.
    pub fn get(&self, id: &NodeId) -> (r: Option<&Node>)
        ensures
            match r {
                Some(node) => self.neighbors().contains_key(id.value) && *node
                    == self.neighbors()[id.value],
                None => !self.neighbors().contains_key(id.value),
            },
    {
        self.nodes.get(&id.value)
    }
}

impl From<NodeSituationDisk> for NodeSituation {
    fn from(disk: NodeSituationDisk) -> (situation: NodeSituation)
        ensures
            situation.wf(),
            situation.neighbors() == neighbor_map(disk.nodes@),
            situation.to_market == first_parent(disk.nodes@, neighbor_map(disk.nodes@)),
            situation.is_market <==> !has_parent(situation.neighbors()),
            situation.to_market matches Some(parent) ==> situation.neighbors().contains_key(
                parent.id.value,
            ) && situation.neighbors()[parent.id.value] == parent,
            situation.market_url == if situation.is_market {
                disk.market_url
            } else {
                None
            },
            situation.my_id == disk.my_id,
            situation.public_ip@.len() == 0,
            situation.public_port == 0,
    {
        let mut nodes: HashMap<u128, Node> = HashMap::new();
        let mut i: usize = 0;
        proof {
            assert(disk.nodes@.take(0) =~= Seq::<Node>::empty());
        }
        while i < disk.nodes.len()
            invariant
                i <= disk.nodes.len(),
                nodes@ == neighbor_map(disk.nodes@.take(i as int)),
            decreases disk.nodes.len() - i,
        {
            proof {
                assert(disk.nodes@.take(i + 1).drop_last() =~= disk.nodes@.take(i as int));
                assert(disk.nodes@.take(i + 1).last() == disk.nodes@[i as int]);
            }
            let node = disk.nodes[i].clone();
            nodes.insert(node.id.value, node);
            i = i + 1;
        }
        proof {
            assert(disk.nodes@.take(disk.nodes@.len() as int) =~= disk.nodes@);
            assert(disk.nodes@.skip(0) =~= disk.nodes@);
        }
        let mut to_market: Option<Node> = None;
        let mut k: usize = 0;
        while k < disk.nodes.len()
            invariant_except_break
                to_market is None,
                first_parent(disk.nodes@, nodes@) == first_parent(
                    disk.nodes@.skip(k as int),
                    nodes@,
                ),
            invariant
                k <= disk.nodes.len(),
            ensures
                to_market == first_parent(disk.nodes@, nodes@),
                to_market matches Some(parent) ==> parent.category == NodeCategory::Parent,
            decreases disk.nodes.len() - k,
        {
            proof {
                assert(disk.nodes@.skip(k as int)[0] == disk.nodes@[k as int]);
                assert(disk.nodes@.skip(k as int).skip(1) =~= disk.nodes@.skip(k + 1));
            }
            let found = nodes.get(&disk.nodes[k].id.value);
            match found {
                Some(node) => {
                    if node.category == NodeCategory::Parent {
                        to_market = Some(node.clone());
                        break ;
                    }
                },
                None => {},
            }
            k = k + 1;
        }
        proof {
            lemma_parent_found(disk.nodes@);
        }
        let is_market = to_market.is_none();
        let my_id = disk.my_id;
        let market_url = if is_market {
            disk.market_url
        } else {
            None
        };
        NodeSituation {
            nodes,
            to_market,
            is_market,
            market_url,
            my_id,
            public_ip: String::new(),
            public_port: 0,
        }
    }
}

/// What the conversion yields is said by the `ensures` of `from`: a
/// situation holds a hash map, which no spec function can write down,
/// so `from_spec` is left unused.
impl vstd::std_specs::convert::FromSpecImpl<NodeSituationDisk> for NodeSituation {
    open spec fn obeys_from_spec() -> bool {
        false
    }

    open spec fn from_spec(disk: NodeSituationDisk) -> NodeSituation {
        arbitrary()
    }
}

impl Default for NodeSituation {
    /// The situation of a node that knows nobody: a market without
    /// neighbours and without an address.
    fn default() -> (situation: NodeSituation)
        ensures
            situation.wf(),
            situation.is_market,
            situation.neighbors() == Map::<u128, Node>::empty(),
            situation.market_url is None,
            situation.my_id.value == 0,
    {
        NodeSituation {
            nodes: HashMap::new(),
            to_market: None,
            is_market: true,
            market_url: None,
            my_id: NodeId::nil(),
            public_ip: String::new(),
            public_port: 0,
        }
    }
}

/// Where the invocations of one function go from this node.
#[derive(Debug, Clone, Copy, PartialEq, Eq, Structural)]
pub enum Hop {
    /// To the neighbour that is the next hop towards the function.
    Outside(NodeId),
    /// To the function, which runs on this node.
    Inside,
    /// Upwards, towards the market.
    ToMarket,
}

/// The routes of this node: for each function, by the value of its
/// bid's identifier, at most one entry.
#[derive(Debug)]
pub struct RoutingTable {
    pub routes: HashMap<u128, Hop>,
}

/// Where a packet goes.
#[derive(Debug, Clone, Copy, PartialEq, Eq, Structural)]
pub enum Forward {
    Outside(BidId, NodeId),
    Inside(BidId),
    ToMarket(BidId),
}

/// The entry that a route towards `target` amounts to: the all-zero
/// identifier stands for this node itself, any other for a neighbour.
pub open spec fn hop_towards(target: NodeId) -> Hop {
    if target.value == 0 {
        Hop::Inside
    } else {
        Hop::Outside(target)
    }
}

/// Where a table sends the packets of a function. A function without
/// an entry goes towards the market.
pub open spec fn routed(routes: Map<u128, Hop>, source: BidId) -> Forward {
    if routes.contains_key(source.value) {
        match routes[source.value] {
            Hop::Outside(next) => Forward::Outside(source, next),
            Hop::Inside => Forward::Inside(source),
            Hop::ToMarket => Forward::ToMarket(source),
        }
    } else {
        Forward::ToMarket(source)
    }
}

impl View for RoutingTable {
    type V = Map<u128, Hop>;

    open spec fn view(&self) -> Map<u128, Hop> {
        self.routes@
    }
}

impl Default for RoutingTable {
    fn default() -> (table: RoutingTable)
        ensures
            table@ == Map::<u128, Hop>::empty(),
    {
        RoutingTable { routes: HashMap::new() }
    }
}

impl RoutingTable {
    /// Sets the route of a function, replacing the one it had.
    pub fn install(&mut self, source: BidId, hop: Hop)
        ensures
            final(self)@ == old(self)@.insert(source.value, hop),
    {
        self.routes.insert(source.value, hop);
    }

    /// Routes a function towards `target`, as [`hop_towards`] says.
    pub fn update_route(&mut self, source: BidId, target: NodeId)
        ensures
            final(self)@ == old(self)@.insert(source.value, hop_towards(target)),
    {
        if target.is_nil() {
            self.install(source, Hop::Inside);
        } else {
            self.install(source, Hop::Outside(target));
        }
    }

    /// The entry of a function, if it has one.
    pub fn entry(&self, source: BidId) -> (r: Option<Hop>)
        ensures
            r == if self@.contains_key(source.value) {
                Some(self@[source.value])
            } else {
                None
            },
    {
        match self.routes.get(&source.value) {
            Some(hop) => Some(*hop),
            None => None,
        }
    }

    /// Where the packets of a function go from here.
    pub fn route(&self, source: BidId) -> (forward: Forward)
        ensures
            forward == routed(self@, source),
    {
        match self.routes.get(&source.value) {
            Some(hop) => match hop {
                Hop::Outside(next) => Forward::Outside(source, *next),
                Hop::Inside => Forward::Inside(source),
                Hop::ToMarket => Forward::ToMarket(source),
            },
            None => Forward::ToMarket(source),
        }
    }
}

} // verus!
