use fog_manager::auction::{AuctionRepository, BidStatus, Pricing};
use fog_manager::function_life::{
    aggregate, bid, child_request, collect_children, local_proposal, BidRequest, ChildResponse,
    PlacementPolicy,
};
use fog_manager::ids::{BidId, NodeId};
use fog_manager::market::{second_price, BidProposal};
use fog_manager::routing::{Node, NodeCategory, NodeSituation, NodeSituationDisk};
use fog_manager::satisfiability::{Allocatable, ResourceTracker, Usage};
use fog_manager::sla::SLA;

const GIB: u64 = 1024 * 1024 * 1024;
const MARKET: NodeId = NodeId { value: 1 };
const A: NodeId = NodeId { value: 0xa };
const B: NodeId = NodeId { value: 0xb };
const C: NodeId = NodeId { value: 0xc };

fn request(latency_max_ms: u64, accumulated_latency_ms: u64) -> BidRequest {
    BidRequest {
        sla: SLA { latency_max_ms, ram_bytes: 2 * GIB, cpu_millicpu: 100, ..SLA::default() },
        accumulated_latency_ms,
    }
}

fn proposal(node: NodeId, price: u64, latency_ms: u64) -> BidProposal {
    BidProposal { bid_id: BidId { value: 0x100 + node.value }, node_id: node, price, latency_ms, path: vec![node] }
}

fn answered(child: NodeId, link_latency_ms: u64, proposals: Vec<BidProposal>) -> ChildResponse {
    ChildResponse { child, link_latency_ms, proposals: Some(proposals) }
}

fn silent(child: NodeId) -> ChildResponse {
    ChildResponse { child, link_latency_ms: 1, proposals: None }
}

fn fog_node(me: NodeId) -> NodeSituation {
    NodeSituation::from(NodeSituationDisk {
        nodes: vec![Node { uri: "up:1".to_string(), id: MARKET, category: NodeCategory::Parent }],
        market_url: None,
        my_id: me,
    })
}

fn market() -> NodeSituation {
    NodeSituation::from(NodeSituationDisk { nodes: vec![], market_url: None, my_id: MARKET })
}

fn cluster(free_ram: u64) -> ResourceTracker {
    let mut tracker = ResourceTracker::new();
    tracker.record_usage("n".to_string(), Usage { cpu: 0, memory: 8 * GIB - free_ram });
    tracker.record_allocatable(&"n".to_string(), Allocatable { cpu: 4000, memory: 8 * GIB });
    tracker
}

fn summary(bids: &Vec<BidProposal>) -> Vec<(NodeId, u64, u64, Vec<NodeId>)> {
    bids.iter().map(|b| (b.node_id, b.price, b.latency_ms, b.path.clone())).collect()
}

#[test]
fn the_request_to_a_child_adds_the_link() {
    let r = child_request(&request(100, 30), 12).unwrap();
    assert_eq!(r.accumulated_latency_ms, 42);
    assert_eq!(r.sla, request(100, 30).sla);
    assert_eq!(child_request(&request(100, u64::MAX - 5), 5).unwrap().accumulated_latency_ms, u64::MAX);
    assert_eq!(child_request(&request(100, u64::MAX - 5), 6), None);
}

#[test]
fn proposals_of_children_are_lifted() {
    let children = vec![answered(B, 10, vec![proposal(B, 7, 0), proposal(C, 5, 4)])];
    let bids = collect_children(A, &request(100, 20), &children);
    assert_eq!(
        summary(&bids),
        vec![(B, 7, 10, vec![A, B]), (C, 5, 14, vec![A, C])]
    );
    assert_eq!(bids[0].bid_id, BidId { value: 0x100 + B.value });
}

#[test]
fn proposals_beyond_the_latency_are_dropped() {
    let children = vec![
        answered(B, 10, vec![proposal(B, 1, 70), proposal(B, 2, 71), proposal(B, 3, 0)]),
        answered(C, 81, vec![proposal(C, 4, 0)]),
        answered(C, 80, vec![proposal(C, 5, 0)]),
    ];
    let bids = collect_children(A, &request(100, 20), &children);
    assert_eq!(
        summary(&bids),
        vec![(B, 1, 80, vec![A, B]), (B, 3, 10, vec![A, B]), (C, 5, 80, vec![A, C])]
    );
    for b in &bids {
        assert!(20 + b.latency_ms <= 100);
    }
}

#[test]
fn latencies_beyond_64_bits_are_dropped() {
    let children = vec![answered(B, u64::MAX, vec![proposal(B, 1, u64::MAX), proposal(B, 2, 1), proposal(B, 3, 0)])];
    let bids = collect_children(A, &request(u64::MAX, 0), &children);
    assert_eq!(summary(&bids), vec![(B, 3, u64::MAX, vec![A, B])]);
    assert!(collect_children(A, &request(u64::MAX, 1), &children).is_empty());
}

#[test]
fn silent_children_contribute_nothing() {
    let children = vec![silent(B), answered(C, 1, vec![proposal(C, 5, 0)]), silent(B)];
    let bids = collect_children(A, &request(100, 0), &children);
    assert_eq!(summary(&bids), vec![(C, 5, 1, vec![A, C])]);
    assert!(collect_children(A, &request(100, 0), &vec![]).is_empty());
}

#[test]
fn the_own_proposal_comes_first() {
    let mut repository = AuctionRepository::new();
    let pricing = Pricing::new(10, 0).unwrap();
    let r = request(100, 100);
    let record = repository.place_bid(&r.sla, &cluster(4 * GIB), &pricing, A, BidId { value: 9 }, 0).unwrap();
    let own = local_proposal(&record);
    assert_eq!(summary(&vec![own]), vec![(A, 10, 0, vec![A])]);
    let answer = aggregate(&r, Some(&record), vec![proposal(B, 5, 0)]);
    assert_eq!(summary(&answer.bids), vec![(A, 10, 0, vec![A]), (B, 5, 0, vec![B])]);
    assert_eq!(answer.bids[0].bid_id, BidId { value: 9 });
    // One millisecond more on the way here, and the own proposal is too far.
    let answer = aggregate(&request(100, 101), Some(&record), vec![proposal(B, 5, 0)]);
    assert_eq!(summary(&answer.bids), vec![(B, 5, 0, vec![B])]);
    let answer = aggregate(&r, None, vec![]);
    assert!(answer.bids.is_empty());
}

#[test]
fn top_down_bids_beside_the_children() {
    let mut repository = AuctionRepository::new();
    let pricing = Pricing::new(10, 0).unwrap();
    let children = vec![answered(B, 5, vec![proposal(B, 7, 0)])];
    let answer = bid(PlacementPolicy::TopDown, &fog_node(A), &mut repository, &cluster(4 * GIB),
        &pricing, &request(100, 0), &children, 1_000);
    assert_eq!(summary(&answer.bids), vec![(A, 10, 0, vec![A]), (B, 7, 5, vec![A, B])]);
    assert_eq!(repository.len(), 1);
    let record = repository.get(answer.bids[0].bid_id).unwrap();
    assert_eq!(record.status, BidStatus::Pending);
    assert_eq!(record.created_at_ms, 1_000);
    assert_eq!(record.reservation.ram_bytes, 2 * GIB);
}

#[test]
fn bottom_up_bids_only_without_children_in_reach() {
    let pricing = Pricing::new(10, 0).unwrap();
    let mut repository = AuctionRepository::new();
    let children = vec![answered(B, 5, vec![proposal(B, 7, 0)])];
    let answer = bid(PlacementPolicy::BottomUp, &fog_node(A), &mut repository, &cluster(4 * GIB),
        &pricing, &request(100, 0), &children, 0);
    assert_eq!(summary(&answer.bids), vec![(B, 7, 5, vec![A, B])]);
    assert_eq!(repository.len(), 0);

    let too_far = vec![answered(B, 500, vec![proposal(B, 7, 0)]), silent(C)];
    let answer = bid(PlacementPolicy::BottomUp, &fog_node(A), &mut repository, &cluster(4 * GIB),
        &pricing, &request(100, 0), &too_far, 0);
    assert_eq!(summary(&answer.bids), vec![(A, 10, 0, vec![A])]);
    assert_eq!(repository.len(), 1);
}

#[test]
fn the_market_does_not_bid() {
    let pricing = Pricing::new(10, 0).unwrap();
    let mut repository = AuctionRepository::new();
    for policy in [PlacementPolicy::TopDown, PlacementPolicy::BottomUp] {
        let answer = bid(policy, &market(), &mut repository, &cluster(4 * GIB), &pricing,
            &request(100, 0), &vec![], 0);
        assert!(answer.bids.is_empty());
        let children = vec![answered(A, 5, vec![proposal(A, 7, 0)])];
        let answer = bid(policy, &market(), &mut repository, &cluster(4 * GIB), &pricing,
            &request(100, 0), &children, 0);
        assert_eq!(summary(&answer.bids), vec![(A, 7, 5, vec![MARKET, A])]);
    }
    assert_eq!(repository.len(), 0);
}

#[test]
fn a_node_without_room_hands_on_its_children() {
    let pricing = Pricing::new(10, 0).unwrap();
    let mut repository = AuctionRepository::new();
    let children = vec![answered(B, 5, vec![proposal(B, 7, 0)])];
    let answer = bid(PlacementPolicy::TopDown, &fog_node(A), &mut repository, &cluster(GIB),
        &pricing, &request(100, 0), &children, 0);
    assert_eq!(summary(&answer.bids), vec![(B, 7, 5, vec![A, B])]);
    assert_eq!(repository.len(), 0);
}

#[test]
fn a_bid_that_is_too_far_is_made_and_then_dropped() {
    let pricing = Pricing::new(10, 0).unwrap();
    let mut repository = AuctionRepository::new();
    let answer = bid(PlacementPolicy::TopDown, &fog_node(A), &mut repository, &cluster(4 * GIB),
        &pricing, &request(100, 101), &vec![], 0);
    assert!(answer.bids.is_empty());
    assert_eq!(repository.len(), 1);
}

/// Market - A - B; B has 4 GiB free and A has 1 GiB; the SLA needs 2 GiB.
#[test]
fn the_child_with_room_wins_and_the_path_leads_to_it() {
    let pricing = Pricing::new(10, 100).unwrap();
    let from_market = request(100, 0);

    let to_a = child_request(&from_market, 10).unwrap();
    let to_b = child_request(&to_a, 15).unwrap();
    assert_eq!(to_b.accumulated_latency_ms, 25);

    let mut at_b = AuctionRepository::new();
    let b_answer = bid(PlacementPolicy::TopDown, &fog_node(B), &mut at_b, &cluster(4 * GIB),
        &pricing, &to_b, &vec![], 0);
    assert_eq!(b_answer.bids.len(), 1);

    let mut at_a = AuctionRepository::new();
    let a_answer = bid(PlacementPolicy::TopDown, &fog_node(A), &mut at_a, &cluster(GIB), &pricing,
        &to_a, &vec![answered(B, 15, b_answer.bids)], 0);
    assert_eq!(at_a.len(), 0);

    let mut nowhere = AuctionRepository::new();
    let all = bid(PlacementPolicy::TopDown, &market(), &mut nowhere, &ResourceTracker::new(),
        &pricing, &from_market, &vec![answered(A, 10, a_answer.bids)], 0);
    let (winner, paid) = second_price(&all.bids).unwrap();
    assert_eq!(winner.node_id, B);
    assert_eq!(winner.path, vec![MARKET, A, B]);
    assert_eq!(winner.latency_ms, 25);
    assert_eq!(paid, winner.price);
    assert_eq!(at_b.get(winner.bid_id).unwrap().status, BidStatus::Pending);
}

/// B is cheapest but too far; the next cheapest node in reach wins.
#[test]
fn a_distant_cheapest_node_is_culled() {
    let r = request(50, 0);
    let children = vec![
        answered(B, 60, vec![proposal(B, 1, 0)]),
        answered(C, 20, vec![proposal(C, 5, 0)]),
        answered(A, 50, vec![proposal(A, 9, 0)]),
    ];
    let bids = collect_children(MARKET, &r, &children);
    assert!(bids.iter().all(|b| b.node_id != B));
    let (winner, paid) = second_price(&bids).unwrap();
    assert_eq!(winner.node_id, C);
    assert_eq!(paid, 9);
}

/// Nobody has the memory: no proposals, and nothing stays reserved.
#[test]
fn an_unsatisfiable_sla_leaves_nothing_behind() {
    let pricing = Pricing::new(10, 100).unwrap();
    let mut at_b = AuctionRepository::new();
    let mut at_a = AuctionRepository::new();
    let r = request(100, 0);
    let b = bid(PlacementPolicy::TopDown, &fog_node(B), &mut at_b, &cluster(GIB), &pricing, &r, &vec![], 0);
    let a = bid(PlacementPolicy::TopDown, &fog_node(A), &mut at_a, &cluster(GIB), &pricing, &r,
        &vec![answered(B, 1, b.bids)], 0);
    assert!(a.bids.is_empty());
    assert!(second_price(&a.bids).is_none());
    at_a.expire(30_001, 30_000);
    at_b.expire(30_001, 30_000);
    assert_eq!(at_a.reserved(&"n".to_string()), (0, 0));
    assert_eq!(at_b.reserved(&"n".to_string()), (0, 0));
}
