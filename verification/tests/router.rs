use fog_manager::controller::{post_forward_function_routing, register_route};
use fog_manager::ids::{BidId, NodeId};
use fog_manager::router::{Delivery, Error, FunctionRoutingStack, Packet, RouteInstall, Router};
use fog_manager::routing::{
    Hop, Node, NodeCategory, NodeSituation, NodeSituationDisk, RoutingTable,
};

const MARKET: u128 = 0x10;
const A: u128 = 0x20;
const B: u128 = 0x30;
const C: u128 = 0x40;

fn id(value: u128) -> NodeId {
    NodeId { value }
}

fn bid(value: u128) -> BidId {
    BidId { value }
}

fn neighbor(value: u128, category: NodeCategory) -> Node {
    Node { uri: format!("node-{:x}:3000", value), id: id(value), category }
}

fn router(me: u128, neighbors: Vec<Node>) -> Router {
    let disk = NodeSituationDisk { nodes: neighbors, market_url: None, my_id: id(me) };
    Router { table: RoutingTable::default(), situation: NodeSituation::from(disk) }
}

fn stack(bid_id: u128, nodes: &[u128]) -> FunctionRoutingStack {
    FunctionRoutingStack { bid_id: bid(bid_id), stack: nodes.iter().map(|n| id(*n)).collect() }
}

/// The tree market - A - B, with C a second child of the market.
fn tree() -> Vec<Router> {
    vec![
        router(MARKET, vec![neighbor(A, NodeCategory::Child), neighbor(C, NodeCategory::Child)]),
        router(A, vec![neighbor(MARKET, NodeCategory::Parent), neighbor(B, NodeCategory::Child)]),
        router(B, vec![neighbor(A, NodeCategory::Parent)]),
        router(C, vec![neighbor(MARKET, NodeCategory::Parent)]),
    ]
}

fn at(routers: &mut Vec<Router>, node: NodeId) -> &mut Router {
    routers.iter_mut().find(|r| r.situation.my_id == node).unwrap()
}

/// Installs a path from its first node on, relaying as told.
fn install(routers: &mut Vec<Router>, path: &FunctionRoutingStack) -> Result<NodeId, Error> {
    let mut here = path.stack[0];
    loop {
        match at(routers, here).register_function_route(path)? {
            RouteInstall::Winner => return Ok(here),
            RouteInstall::Relay(next) => here = next.id,
        }
    }
}

/// Follows a packet until a function takes it.
fn deliver(routers: &mut Vec<Router>, from: NodeId, bid_id: BidId) -> Result<(NodeId, usize), Error> {
    let mut here = from;
    let mut hops = 0;
    loop {
        match at(routers, here).forward(bid_id)? {
            Delivery::Function(found) => {
                assert_eq!(found, bid_id);
                return Ok((here, hops));
            }
            Delivery::Neighbor(next) => here = next.id,
            Delivery::Market(parent) => here = parent.id,
        }
        hops += 1;
        assert!(hops < 10);
    }
}

#[test]
fn the_winner_routes_inside() {
    let mut b = router(B, vec![neighbor(A, NodeCategory::Parent)]);
    let result = b.register_function_route(&stack(1, &[MARKET, A, B]));
    assert!(matches!(result, Ok(RouteInstall::Winner)));
    assert_eq!(b.table.entry(bid(1)), Some(Hop::Inside));
}

#[test]
fn another_node_routes_to_the_next_and_relays() {
    let mut a = router(A, vec![neighbor(MARKET, NodeCategory::Parent), neighbor(B, NodeCategory::Child)]);
    match a.register_function_route(&stack(1, &[MARKET, A, B])) {
        Ok(RouteInstall::Relay(next)) => {
            assert_eq!(next.id, id(B));
            assert_eq!(next.uri, "node-30:3000");
        }
        other => panic!("{:?}", other),
    }
    assert_eq!(a.table.entry(bid(1)), Some(Hop::Outside(id(B))));
}

#[test]
fn a_path_of_one_node_ends_there() {
    let mut m = router(MARKET, vec![]);
    assert!(matches!(m.register_function_route(&stack(1, &[MARKET])), Ok(RouteInstall::Winner)));
    assert_eq!(m.table.entry(bid(1)), Some(Hop::Inside));
}

#[test]
fn a_node_that_is_not_on_the_path_refuses() {
    let mut c = router(C, vec![neighbor(MARKET, NodeCategory::Parent)]);
    let result = c.register_function_route(&stack(1, &[MARKET, A, B]));
    assert!(matches!(result, Err(Error::MalformedStack)));
    assert_eq!(c.table.entry(bid(1)), None);
    assert!(matches!(c.register_function_route(&stack(1, &[])), Err(Error::MalformedStack)));
}

#[test]
fn a_next_hop_that_is_no_neighbor_is_refused() {
    let mut a = router(A, vec![neighbor(MARKET, NodeCategory::Parent)]);
    let result = a.register_function_route(&stack(1, &[MARKET, A, B]));
    assert!(matches!(result, Err(Error::UnknownNeighbor(next)) if next == id(B)));
    assert_eq!(a.table.entry(bid(1)), None);
}

#[test]
fn the_first_position_on_the_path_counts() {
    let mut a = router(A, vec![neighbor(B, NodeCategory::Child)]);
    let result = a.register_function_route(&stack(1, &[A, B, A]));
    assert!(matches!(result, Ok(RouteInstall::Relay(_))));
    assert_eq!(a.table.entry(bid(1)), Some(Hop::Outside(id(B))));
}

#[test]
fn installing_replaces_the_route_of_the_function_only() {
    let mut a = router(A, vec![neighbor(MARKET, NodeCategory::Parent), neighbor(B, NodeCategory::Child)]);
    a.register_function_route(&stack(1, &[MARKET, A, B])).unwrap();
    a.register_function_route(&stack(2, &[MARKET, A])).unwrap();
    a.register_function_route(&stack(1, &[MARKET, A])).unwrap();
    assert_eq!(a.table.entry(bid(1)), Some(Hop::Inside));
    assert_eq!(a.table.entry(bid(2)), Some(Hop::Inside));
    assert_eq!(a.table.routes.len(), 2);
}

#[test]
fn an_installed_path_leads_to_the_winner_from_every_node_on_it() {
    let mut routers = tree();
    let path = stack(7, &[MARKET, A, B]);
    assert_eq!(install(&mut routers, &path), Ok(id(B)));
    assert_eq!(deliver(&mut routers, id(MARKET), bid(7)), Ok((id(B), 2)));
    assert_eq!(deliver(&mut routers, id(A), bid(7)), Ok((id(B), 1)));
    assert_eq!(deliver(&mut routers, id(B), bid(7)), Ok((id(B), 0)));
    // Exactly one node of the path routes inside.
    let inside = [MARKET, A, B]
        .iter()
        .filter(|n| at(&mut routers, id(**n)).table.entry(bid(7)) == Some(Hop::Inside))
        .count();
    assert_eq!(inside, 1);
}

#[test]
fn a_node_off_the_path_sends_upwards_and_remembers() {
    let mut routers = tree();
    install(&mut routers, &stack(7, &[MARKET, A, B])).unwrap();
    assert_eq!(at(&mut routers, id(C)).table.entry(bid(7)), None);
    assert_eq!(deliver(&mut routers, id(C), bid(7)), Ok((id(B), 3)));
    assert_eq!(at(&mut routers, id(C)).table.entry(bid(7)), Some(Hop::ToMarket));
    // The entries of the path are untouched.
    assert_eq!(at(&mut routers, id(MARKET)).table.entry(bid(7)), Some(Hop::Outside(id(A))));
}

#[test]
fn the_market_has_no_way_up() {
    let mut routers = tree();
    let result = at(&mut routers, id(MARKET)).forward(bid(99));
    assert!(matches!(result, Err(Error::NoMarketLink)));
    // The default entry was installed all the same.
    assert_eq!(at(&mut routers, id(MARKET)).table.entry(bid(99)), Some(Hop::ToMarket));
    assert!(matches!(deliver(&mut routers, id(B), bid(99)), Err(Error::NoMarketLink)));
}

#[test]
fn forwarding_to_a_lost_neighbor_fails() {
    let mut a = router(A, vec![neighbor(MARKET, NodeCategory::Parent)]);
    a.table.install(bid(1), Hop::Outside(id(B)));
    assert!(matches!(a.forward(bid(1)), Err(Error::UnknownNeighbor(next)) if next == id(B)));
    assert_eq!(a.table.entry(bid(1)), Some(Hop::Outside(id(B))));
}

#[test]
fn forwarding_goes_where_the_table_says() {
    let mut a = router(A, vec![neighbor(MARKET, NodeCategory::Parent), neighbor(B, NodeCategory::Child)]);
    a.table.install(bid(1), Hop::Inside);
    a.table.install(bid(2), Hop::Outside(id(B)));
    a.table.install(bid(3), Hop::ToMarket);
    assert!(matches!(a.forward(bid(1)), Ok(Delivery::Function(b)) if b == bid(1)));
    assert!(matches!(a.forward(bid(2)), Ok(Delivery::Neighbor(n)) if n.id == id(B)));
    assert!(matches!(a.forward(bid(3)), Ok(Delivery::Market(n)) if n.id == id(MARKET)));
    assert!(matches!(a.forward(bid(4)), Ok(Delivery::Market(n)) if n.id == id(MARKET)));
    assert_eq!(a.table.routes.len(), 4);
}

#[test]
fn the_controller_installs_and_forwards() {
    let mut a = router(A, vec![neighbor(MARKET, NodeCategory::Parent), neighbor(B, NodeCategory::Child)]);
    let installed = register_route(&mut a, stack(1, &[MARKET, A, B]));
    assert!(matches!(installed, Ok(RouteInstall::Relay(n)) if n.id == id(B)));
    let packet = Packet { bid_id: bid(1), payload: vec![0xff, 0x00, 0x7b] };
    let delivery = post_forward_function_routing(&packet, &mut a);
    assert!(matches!(delivery, Ok(Delivery::Neighbor(n)) if n.id == id(B)));
    assert_eq!(packet.payload, vec![0xff, 0x00, 0x7b]);
    let refused = register_route(&mut a, stack(1, &[MARKET, B]));
    assert!(matches!(refused, Err(Error::MalformedStack)));
}
