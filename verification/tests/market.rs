use fog_manager::ids::{BidId, NodeId};
use fog_manager::market::{
    copy_proposals, no_placement, patch_nodes, put_sla, routing_stack, second_price,
    select_winner, AuctionStatus, BidDataBase, BidProposal, Error, NodesDataBase, PatchNode,
};
use fog_manager::sla::SLA;

const B: u128 = 0xb;
const C: u128 = 0xc;
const D: u128 = 0xd;

fn proposal(node: u128, price: u64) -> BidProposal {
    BidProposal {
        bid_id: BidId { value: 0x1000 + node },
        node_id: NodeId { value: node },
        price,
        latency_ms: 3,
        path: vec![NodeId { value: 1 }, NodeId { value: node }],
    }
}

fn selected(bids: &[(u128, u64)]) -> Option<(u128, u64)> {
    let bids: Vec<BidProposal> = bids.iter().map(|(n, p)| proposal(*n, *p)).collect();
    second_price(&bids).map(|(winner, paid)| (winner.node_id.value, paid))
}

#[test]
fn the_lowest_bid_wins_and_is_paid_the_second_lowest() {
    assert_eq!(selected(&[(B, 7), (C, 5), (D, 9)]), Some((C, 7)));
}

#[test]
fn the_order_of_the_bids_does_not_matter() {
    for bids in [
        [(B, 7), (C, 5), (D, 9)],
        [(B, 7), (D, 9), (C, 5)],
        [(C, 5), (B, 7), (D, 9)],
        [(C, 5), (D, 9), (B, 7)],
        [(D, 9), (B, 7), (C, 5)],
        [(D, 9), (C, 5), (B, 7)],
    ] {
        assert_eq!(selected(&bids), Some((C, 7)));
    }
}

#[test]
fn a_single_bid_is_paid_its_own_price() {
    assert_eq!(selected(&[(B, 7)]), Some((B, 7)));
    assert_eq!(selected(&[(B, 0)]), Some((B, 0)));
    assert_eq!(selected(&[(B, u64::MAX)]), Some((B, u64::MAX)));
}

#[test]
fn no_bid_no_winner() {
    assert_eq!(selected(&[]), None);
}

#[test]
fn equal_prices_go_to_the_lower_node() {
    assert_eq!(selected(&[(D, 5), (B, 5), (C, 5)]), Some((B, 5)));
    assert_eq!(selected(&[(D, 5), (C, 5)]), Some((C, 5)));
    assert_eq!(selected(&[(C, 5), (D, 5), (B, 9)]), Some((C, 5)));
    assert_eq!(selected(&[(1u128 << 100, 5), (u64::MAX as u128, 5)]), Some((u64::MAX as u128, 5)));
}

#[test]
fn equal_prices_of_one_node_go_to_the_first() {
    let mut first = proposal(B, 5);
    first.bid_id = BidId { value: 1 };
    let mut second = proposal(B, 5);
    second.bid_id = BidId { value: 2 };
    let (winner, paid) = second_price(&vec![first, second]).unwrap();
    assert_eq!(winner.bid_id, BidId { value: 1 });
    assert_eq!(paid, 5);
}

#[test]
fn the_price_paid_lies_between_the_winner_and_the_others() {
    let bids = [(B, 40), (C, 12), (D, 12), (0xe, 99), (0xf, 13)];
    let (winner, paid) = selected(&bids).unwrap();
    assert_eq!((winner, paid), (C, 12));
    for (node, price) in bids {
        if node == winner {
            assert!(paid >= price);
        } else {
            assert!(paid <= price);
        }
    }
}

#[test]
fn the_winner_is_handed_out_whole() {
    let bids = vec![proposal(B, 7), proposal(C, 5)];
    let (winner, _) = second_price(&bids).unwrap();
    assert_eq!(winner.bid_id, BidId { value: 0x1000 + C });
    assert_eq!(winner.latency_ms, 3);
    assert_eq!(winner.path, vec![NodeId { value: 1 }, NodeId { value: C }]);
}

#[test]
fn copies_are_equal() {
    let bids = vec![proposal(B, 7), proposal(C, 5)];
    let copy = copy_proposals(&bids);
    assert_eq!(copy.len(), 2);
    assert_eq!(copy[1].path, bids[1].path);
    assert_eq!(copy[0].price, 7);
    let one = bids[0].clone();
    assert_eq!(one.node_id, bids[0].node_id);
    assert_eq!(one.path, bids[0].path);
}

#[test]
fn the_routing_stack_is_the_winners_path() {
    let stack = routing_stack(&proposal(C, 5));
    assert_eq!(stack.bid_id, BidId { value: 0x1000 + C });
    assert_eq!(stack.stack, vec![NodeId { value: 1 }, NodeId { value: C }]);
}

fn auction(bids: Vec<BidProposal>) -> (BidDataBase, BidId) {
    let id = BidId { value: 77 };
    let mut db = BidDataBase::new();
    db.insert(id, SLA { ram_bytes: 5, ..SLA::default() });
    db.update_auction(&id, AuctionStatus::Active(bids));
    (db, id)
}

#[test]
fn an_auction_starts_open() {
    let mut db = BidDataBase::new();
    let id = BidId { value: 77 };
    assert!(db.get(&id).is_none());
    db.insert(id, SLA { ram_bytes: 5, ..SLA::default() });
    assert!(matches!(db.get(&id).unwrap().auction, AuctionStatus::Open));
    assert_eq!(db.get(&id).unwrap().sla.ram_bytes, 5);
    assert!(select_winner(&db, &id).is_none());
}

#[test]
fn updating_an_unknown_auction_changes_nothing() {
    let mut db = BidDataBase::new();
    db.update_auction(&BidId { value: 1 }, AuctionStatus::Open);
    assert!(db.records.is_empty());
}

#[test]
fn the_winner_is_selected_among_the_proposals_that_came_in() {
    let (db, id) = auction(vec![proposal(B, 7), proposal(C, 5), proposal(D, 9)]);
    let (winner, paid) = select_winner(&db, &id).unwrap();
    assert_eq!(winner.node_id, NodeId { value: C });
    assert_eq!(paid, 7);
    assert!(select_winner(&db, &BidId { value: 78 }).is_none());
}

#[test]
fn no_proposals_give_the_empty_answer() {
    let (mut db, id) = auction(vec![]);
    let chosen = select_winner(&db, &id);
    assert!(chosen.is_none());
    let answer = put_sla(&mut db, &id, chosen, true);
    assert!(answer.bids.is_empty());
    assert!(answer.chosen_bid.is_none());
    assert_eq!(answer.price, None);
    assert!(matches!(&db.get(&id).unwrap().auction, AuctionStatus::Active(bids) if bids.is_empty()));
}

#[test]
fn an_accepted_offer_finishes_the_auction() {
    let (mut db, id) = auction(vec![proposal(B, 7), proposal(C, 5), proposal(D, 9)]);
    let chosen = select_winner(&db, &id);
    let answer = put_sla(&mut db, &id, chosen, true);
    assert_eq!(answer.bids.len(), 3);
    assert_eq!(answer.bids[0].node_id, NodeId { value: B });
    assert_eq!(answer.bids[2].price, 9);
    assert_eq!(answer.chosen_bid.unwrap().node_id, NodeId { value: C });
    assert_eq!(answer.price, Some(7));
    let record = db.get(&id).unwrap();
    assert_eq!(record.sla.ram_bytes, 5);
    assert!(matches!(&record.auction, AuctionStatus::Finished(bid) if bid.node_id == NodeId { value: C }));
}

#[test]
fn a_refused_offer_gives_the_empty_answer() {
    let (mut db, id) = auction(vec![proposal(B, 7), proposal(C, 5)]);
    let chosen = select_winner(&db, &id);
    let answer = put_sla(&mut db, &id, chosen, false);
    assert!(answer.bids.is_empty());
    assert!(answer.chosen_bid.is_none());
    assert_eq!(answer.price, None);
    assert!(matches!(&db.get(&id).unwrap().auction, AuctionStatus::Active(bids) if bids.len() == 2));
}

#[test]
fn an_auction_is_finished_once() {
    let (mut db, id) = auction(vec![proposal(B, 7), proposal(C, 5)]);
    let chosen = select_winner(&db, &id);
    put_sla(&mut db, &id, chosen, true);
    assert!(select_winner(&db, &id).is_none());
    let again = put_sla(&mut db, &id, Some((proposal(B, 7), 7)), true);
    assert!(again.chosen_bid.is_none());
    assert!(matches!(&db.get(&id).unwrap().auction, AuctionStatus::Finished(bid) if bid.node_id == NodeId { value: C }));
    let unknown = put_sla(&mut db, &BidId { value: 5 }, Some((proposal(B, 7), 7)), true);
    assert!(unknown.chosen_bid.is_none());
    assert_eq!(db.records.len(), 1);
}

#[test]
fn a_choice_that_is_not_the_selection_places_nothing() {
    let bids = || vec![proposal(B, 7), proposal(C, 5), proposal(D, 9)];
    // Not the winner.
    let (mut db, id) = auction(bids());
    let answer = put_sla(&mut db, &id, Some((proposal(B, 7), 7)), true);
    assert!(answer.bids.is_empty() && answer.chosen_bid.is_none() && answer.price.is_none());
    assert!(matches!(&db.get(&id).unwrap().auction, AuctionStatus::Active(bids) if bids.len() == 3));
    // The winner at another price.
    for price in [5, 6, 8, 9] {
        let answer = put_sla(&mut db, &id, Some((proposal(C, 5), price)), true);
        assert!(answer.chosen_bid.is_none());
    }
    // A proposal that never came in.
    let answer = put_sla(&mut db, &id, Some((proposal(0xe, 1), 5)), true);
    assert!(answer.chosen_bid.is_none());
    // The winner with another path.
    let mut detour = proposal(C, 5);
    detour.path.push(NodeId { value: 2 });
    let answer = put_sla(&mut db, &id, Some((detour, 7)), true);
    assert!(answer.chosen_bid.is_none());
    assert!(matches!(&db.get(&id).unwrap().auction, AuctionStatus::Active(bids) if bids.len() == 3));
    // The selection itself.
    let answer = put_sla(&mut db, &id, Some((proposal(C, 5), 7)), true);
    assert_eq!(answer.chosen_bid.unwrap().node_id, NodeId { value: C });
    assert_eq!(answer.price, Some(7));
    assert_eq!(answer.bids.len(), 3);
}

#[test]
fn the_empty_answer_is_empty() {
    let answer = no_placement();
    assert!(answer.bids.is_empty() && answer.chosen_bid.is_none() && answer.price.is_none());
}

#[test]
fn the_latency_shown_is_the_time_under_way() {
    let id = NodeId { value: 4 };
    let mut db = NodesDataBase::new();
    db.insert(id, "n4:3000".to_string());
    assert_eq!(db.get(&id).unwrap().latency_ms, None);
    assert_eq!(db.observe_latency(id, 1_500, 1_000), Ok(()));
    assert_eq!(db.get(&id).unwrap().latency_ms, Some(500));
    assert_eq!(db.get(&id).unwrap().uri, "n4:3000");
    assert_eq!(db.observe_latency(id, 1_000, 1_000), Ok(()));
    assert_eq!(db.get(&id).unwrap().latency_ms, Some(0));
    assert_eq!(db.observe_latency(id, 1_000, 1_500), Ok(()));
    assert_eq!(db.get(&id).unwrap().latency_ms, Some(0));
    assert_eq!(db.observe_latency(id, i64::MAX, i64::MIN), Ok(()));
    assert_eq!(db.get(&id).unwrap().latency_ms, Some(u64::MAX));
}

#[test]
fn an_unknown_node_is_refused() {
    let mut db = NodesDataBase::new();
    let id = NodeId { value: 4 };
    assert_eq!(db.observe_latency(id, 2, 1), Err(Error::NodeIdNotFound(id)));
    assert!(db.nodes.is_empty());
    let patched = patch_nodes(id, &mut db, &PatchNode { created_at: Some(0) });
    assert_eq!(patched, Err(Error::NodeIdNotFound(id)));
}

#[test]
fn a_patch_without_a_date_changes_nothing() {
    let mut db = NodesDataBase::new();
    let id = NodeId { value: 4 };
    assert_eq!(patch_nodes(id, &mut db, &PatchNode { created_at: None }), Ok(()));
    db.insert(id, "n4:3000".to_string());
    assert_eq!(patch_nodes(id, &mut db, &PatchNode { created_at: None }), Ok(()));
    assert_eq!(db.get(&id).unwrap().latency_ms, None);
}

#[test]
fn a_patch_with_a_date_observes_the_latency_now() {
    let mut db = NodesDataBase::new();
    let id = NodeId { value: 4 };
    db.insert(id, "n4:3000".to_string());
    // Sent at the epoch: the latency is the time since then, well over fifty years.
    assert_eq!(patch_nodes(id, &mut db, &PatchNode { created_at: Some(0) }), Ok(()));
    let since_epoch = db.get(&id).unwrap().latency_ms.unwrap();
    assert!(since_epoch > 50 * 365 * 24 * 3600 * 1000);
    // Sent in the far future: it cannot have been under way.
    assert_eq!(patch_nodes(id, &mut db, &PatchNode { created_at: Some(i64::MAX) }), Ok(()));
    assert_eq!(db.get(&id).unwrap().latency_ms, Some(0));
}
