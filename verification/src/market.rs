//! The market's side of an auction: the proposals it gathers, the
//! choice of the winner and of the price the winner is paid, and what
//! the market answers to the client.

use crate::auction::Money;
use crate::ids::{BidId, NodeId};
use crate::router::FunctionRoutingStack;
use crate::sla::SLA;
use std::collections::HashMap;
use vstd::prelude::*;

verus! {

/// The offer of one node to host a function.
#[derive(Debug)]
pub struct BidProposal {
    pub bid_id: BidId,
    /// The node that made the bid.
    pub node_id: NodeId,
    pub price: Money,
    /// The latency of the path from the node that hands this proposal
    /// on to the node that made the bid, in milliseconds.
    pub latency_ms: u64,
    /// That path, from the node that hands this proposal on to the
    /// node that made the bid.
    pub path: Vec<NodeId>,
}

/// A [`BidProposal`] with its path as a sequence.
pub struct BidProposalView {
    pub bid_id: BidId,
    pub node_id: NodeId,
    pub price: Money,
    pub latency_ms: u64,
    pub path: Seq<NodeId>,
}

impl View for BidProposal {
    type V = BidProposalView;

    open spec fn view(&self) -> BidProposalView {
        BidProposalView {
            bid_id: self.bid_id,
            node_id: self.node_id,
            price: self.price,
            latency_ms: self.latency_ms,
            path: self.path@,
        }
    }
}

impl Clone for BidProposal {
    fn clone(&self) -> (proposal: BidProposal)
        ensures
            proposal@ == self@,
    {
        BidProposal {
            bid_id: self.bid_id,
            node_id: self.node_id,
            price: self.price,
            latency_ms: self.latency_ms,
            path: copy_path(&self.path),
        }
    }
}

/// A copy of a path.
pub fn copy_path(path: &Vec<NodeId>) -> (copy: Vec<NodeId>)
    ensures
        copy@ == path@,
{
    let mut copy: Vec<NodeId> = Vec::new();
    let mut i: usize = 0;
    while i < path.len()
        invariant
            i <= path.len(),
            copy@ == path@.take(i as int),
        decreases path.len() - i,
    {
        copy.push(path[i]);
        proof {
            assert(path@.take(i + 1) =~= path@.take(i as int).push(path@[i as int]));
        }
        i = i + 1;
    }
    proof {
        assert(path@.take(path@.len() as int) =~= path@);
    }
    copy
}

/// The views of a list of proposals, in order.
pub open spec fn proposal_views(bids: Seq<BidProposal>) -> Seq<BidProposalView> {
    Seq::new(bids.len(), |i: int| bids[i]@)
}

/// A copy of a list of proposals.
pub fn copy_proposals(bids: &Vec<BidProposal>) -> (copy: Vec<BidProposal>)
    ensures
        proposal_views(copy@) == proposal_views(bids@),
{
    let mut copy: Vec<BidProposal> = Vec::new();
    let mut i: usize = 0;
    while i < bids.len()
        invariant
            i <= bids.len(),
            copy@.len() == i,
            forall|j: int| 0 <= j < i ==> (#[trigger] copy@[j])@ == bids@[j]@,
        decreases bids.len() - i,
    {
        copy.push(bids[i].clone());
        i = i + 1;
    }
    proof {
        assert(proposal_views(copy@) =~= proposal_views(bids@));
    }
    copy
}

/// Whether one proposal comes before another when proposals are put in
/// order for selection: by ascending price, and at equal prices by
/// ascending identifier of the bidding node.
pub open spec fn comes_before(a: BidProposalView, b: BidProposalView) -> bool {
    a.price < b.price || (a.price == b.price && a.node_id.value < b.node_id.value)
}

/// Whether the proposal at `w` wins: no proposal comes before it, and
/// it comes before every proposal that stands earlier in the list.
pub open spec fn is_winner(bids: Seq<BidProposalView>, w: int) -> bool {
    &&& 0 <= w < bids.len()
    &&& forall|j: int| 0 <= j < bids.len() ==> !comes_before(#[trigger] bids[j], bids[w])
    &&& forall|j: int| 0 <= j < w ==> comes_before(bids[w], #[trigger] bids[j])
}

/// Whether `paid` is what the winner at `w` is paid: the lowest price
/// among the other proposals, or the winner's own price where there is
/// no other.
pub open spec fn is_second_price(bids: Seq<BidProposalView>, w: int, paid: Money) -> bool {
    if bids.len() == 1 {
        paid == bids[w].price
    } else {
        &&& exists|j: int| 0 <= j < bids.len() && j != w && (#[trigger] bids[j]).price == paid
        &&& forall|j: int| 0 <= j < bids.len() && j != w ==> paid <= (#[trigger] bids[j]).price
    }
}

/// What a second-price selection pays: never less than the winner
/// asked, never more than any other bidder asked, and exactly what the
/// winner asked where it is the only bidder.
pub proof fn lemma_second_price_bounds(bids: Seq<BidProposalView>, w: int, paid: Money)
    requires
        is_winner(bids, w),
        is_second_price(bids, w, paid),
    ensures
        paid >= bids[w].price,
        forall|j: int| 0 <= j < bids.len() && j != w ==> paid <= (#[trigger] bids[j]).price,
        bids.len() == 1 ==> paid == bids[w].price,
{
    if bids.len() != 1 {
        let j = choose|j: int| 0 <= j < bids.len() && j != w && (#[trigger] bids[j]).price == paid;
        assert(!comes_before(bids[j], bids[w]));
    }
}

/// At most one position wins.
pub proof fn lemma_winner_unique(bids: Seq<BidProposalView>, a: int, b: int)
    requires
        is_winner(bids, a),
        is_winner(bids, b),
    ensures
        a == b,
{
    if a < b {
        assert(comes_before(bids[b], bids[a]));
        assert(!comes_before(bids[b], bids[a]));
    } else if b < a {
        assert(comes_before(bids[a], bids[b]));
        assert(!comes_before(bids[a], bids[b]));
    }
}

/// The winner is paid one price.
pub proof fn lemma_second_price_unique(
    bids: Seq<BidProposalView>,
    w: int,
    paid: Money,
    other: Money,
)
    requires
        0 <= w < bids.len(),
        is_second_price(bids, w, paid),
        is_second_price(bids, w, other),
    ensures
        paid == other,
{
    if bids.len() != 1 {
        let j = choose|j: int| 0 <= j < bids.len() && j != w && (#[trigger] bids[j]).price == paid;
        let k = choose|k: int| 0 <= k < bids.len() && k != w && (#[trigger] bids[k]).price == other;
        assert(other <= bids[j].price);
        assert(paid <= bids[k].price);
    }
}

/// Whether two paths are the same.
fn same_path(a: &Vec<NodeId>, b: &Vec<NodeId>) -> (r: bool)
    ensures
        r == (a@ == b@),
{
    if a.len() != b.len() {
        return false;
    }
    let mut i: usize = 0;
    while i < a.len()
        invariant
            i <= a.len(),
            a.len() == b.len(),
            forall|j: int| 0 <= j < i ==> a@[j] == b@[j],
        decreases a.len() - i,
    {
        if a[i] != b[i] {
            return false;
        }
        i = i + 1;
    }
    assert(a@ =~= b@);
    true
}

/// Whether two proposals are the same in every field.
fn same_proposal(a: &BidProposal, b: &BidProposal) -> (r: bool)
    ensures
        r == (a@ == b@),
{
    a.bid_id == b.bid_id && a.node_id == b.node_id && a.price == b.price && a.latency_ms
        == b.latency_ms && same_path(&a.path, &b.path)
}

/// Decides [`comes_before`].
fn precedes(a: &BidProposal, b: &BidProposal) -> (r: bool)
    ensures
        r == comes_before(a@, b@),
{
    a.price < b.price || (a.price == b.price && a.node_id.value < b.node_id.value)
}

/// Second-price selection among the proposals of an auction.
///
/// With no proposal there is no winner. Otherwise the winner is the
/// proposal that comes first by ascending price, then by ascending
/// identifier of the bidding node, then by position in the list. It is
/// paid the lowest price among the other proposals, or its own price
/// where it is alone.
pub fn second_price(bids: &Vec<BidProposal>) -> (r: Option<(BidProposal, Money)>)
    ensures
        bids@.len() == 0 <==> r is None,
        r matches Some((winner, paid)) ==> exists|w: int|
            #![trigger is_winner(proposal_views(bids@), w)]
            is_winner(proposal_views(bids@), w) && winner@ == bids@[w]@ && is_second_price(
                proposal_views(bids@),
                w,
                paid,
            ),
        r matches Some((winner, paid)) ==> paid >= winner.price && (forall|j: int|
            0 <= j < bids@.len() && (#[trigger] bids@[j])@ != winner@ ==> paid <= bids@[j].price)
            && (bids@.len() == 1 ==> paid == winner.price),
{
    if bids.len() == 0 {
        return None;
    }
    let ghost views = proposal_views(bids@);
    let mut w: usize = 0;
    let mut others: Option<Money> = None;
    let mut i: usize = 1;
    while i < bids.len()
        invariant
            1 <= i <= bids.len(),
            views == proposal_views(bids@),
            is_winner(views.take(i as int), w as int),
            others is None <==> i == 1,
            others matches Some(paid) ==> is_second_price(views.take(i as int), w as int, paid),
        decreases bids.len() - i,
    {
        let ghost before = views.take(i as int);
        let ghost after = views.take(i + 1);
        let ghost old_w = w as int;
        proof {
            assert(forall|j: int| 0 <= j < i ==> before[j] == after[j]);
            assert(after[i as int] == bids@[i as int]@);
        }
        let candidate = bids[i].price;
        if precedes(&bids[i], &bids[w]) {
            let former = bids[w].price;
            others =
            match others {
                Some(paid) => if paid <= former {
                    Some(paid)
                } else {
                    Some(former)
                },
                None => Some(former),
            };
            w = i;
            proof {
                assert forall|j: int| 0 <= j < after.len() implies !comes_before(
                    #[trigger] after[j],
                    after[w as int],
                ) by {
                    if j < i {
                        assert(!comes_before(before[j], before[old_w]));
                    }
                }
                assert forall|j: int| 0 <= j < w implies comes_before(
                    after[w as int],
                    #[trigger] after[j],
                ) by {
                    assert(!comes_before(before[j], before[old_w]));
                }
                let paid = others->0;
                if i == 1 {
                    assert(after[0].price == paid);
                } else {
                    if paid == former {
                        assert(after[old_w].price == paid);
                    } else {
                        let k = choose|k: int|
                            0 <= k < before.len() && k != old_w && (#[trigger] before[k]).price
                                == paid;
                        assert(after[k].price == paid);
                    }
                }
                assert forall|j: int| 0 <= j < after.len() && j != w implies paid <= (
                #[trigger] after[j]).price by {
                    if j != old_w {
                        assert(before[j] == after[j]);
                    }
                }
            }
        } else {
            others =
            match others {
                Some(paid) => if paid <= candidate {
                    Some(paid)
                } else {
                    Some(candidate)
                },
                None => Some(candidate),
            };
            proof {
                assert forall|j: int| 0 <= j < after.len() implies !comes_before(
                    #[trigger] after[j],
                    after[w as int],
                ) by {
                    if j < i {
                        assert(!comes_before(before[j], before[old_w]));
                    }
                }
                assert forall|j: int| 0 <= j < w implies comes_before(
                    after[w as int],
                    #[trigger] after[j],
                ) by {
                    assert(comes_before(before[old_w], before[j]));
                }
                let paid = others->0;
                if paid == candidate {
                    assert(after[i as int].price == paid);
                } else {
                    let k = choose|k: int|
                        0 <= k < before.len() && k != old_w && (#[trigger] before[k]).price
                            == paid;
                    assert(after[k].price == paid);
                }
                assert forall|j: int| 0 <= j < after.len() && j != w implies paid <= (
                #[trigger] after[j]).price by {
                    if j < i {
                        assert(before[j] == after[j]);
                    }
                }
            }
        }
        i = i + 1;
    }
    proof {
        assert(views.take(bids@.len() as int) =~= views);
    }
    let winner = bids[w].clone();
    let paid = match others {
        Some(paid) => paid,
        None => winner.price,
    };
    proof {
        assert(is_winner(views, w as int));
        assert(is_second_price(views, w as int, paid));
        lemma_second_price_bounds(views, w as int, paid);
        assert forall|j: int| 0 <= j < bids@.len() && (#[trigger] bids@[j])@ != winner@ implies paid
            <= bids@[j].price by {
            assert(views[j] == bids@[j]@);
            assert(j != w);
        }
    }
    Some((winner, paid))
}

/// The state of one auction at the market.
#[derive(Debug)]
pub enum AuctionStatus {
    /// No proposals have come in yet.
    Open,
    /// The proposals that came in.
    Active(Vec<BidProposal>),
    /// The proposal that won and was accepted by its bidder.
    Finished(BidProposal),
}

/// An [`AuctionStatus`] with its proposals as views.
pub enum AuctionStatusView {
    Open,
    Active(Seq<BidProposalView>),
    Finished(BidProposalView),
}

impl View for AuctionStatus {
    type V = AuctionStatusView;

    open spec fn view(&self) -> AuctionStatusView {
        match self {
            AuctionStatus::Open => AuctionStatusView::Open,
            AuctionStatus::Active(bids) => AuctionStatusView::Active(proposal_views(bids@)),
            AuctionStatus::Finished(bid) => AuctionStatusView::Finished(bid@),
        }
    }
}

/// An SLA that was put to auction, and how its auction stands.
#[derive(Debug)]
pub struct AuctionRecord {
    pub sla: SLA,
    pub auction: AuctionStatus,
}

/// The auctions of the market, each under the value of its identifier.
#[derive(Debug)]
pub struct BidDataBase {
    pub records: HashMap<u128, AuctionRecord>,
}

/// What the market answers to the client that submitted an SLA.
#[derive(Debug)]
pub struct MarketBidProposal {
    pub bids: Vec<BidProposal>,
    pub chosen_bid: Option<BidProposal>,
    pub price: Option<Money>,
}

impl BidDataBase {
    /// A database of no auctions.
    pub fn new() -> (db: BidDataBase)
        ensures
            db.records@ == Map::<u128, AuctionRecord>::empty(),
    {
        BidDataBase { records: HashMap::new() }
    }

    /// Opens the auction of an SLA under an identifier, in place of
    /// any auction that stood there.
    pub fn insert(&mut self, id: BidId, sla: SLA)
        ensures
            final(self).records@ == old(self).records@.insert(
                id.value,
                AuctionRecord { sla, auction: AuctionStatus::Open },
            ),
    {
        self.records.insert(id.value, AuctionRecord { sla, auction: AuctionStatus::Open });
    }

    /// The auction under an identifier.
    pub fn get(&self, id: &BidId) -> (r: Option<&AuctionRecord>)
        ensures
            match r {
                Some(record) => self.records@.contains_key(id.value) && *record
                    == self.records@[id.value],
                None => !self.records@.contains_key(id.value),
            },
    {
        self.records.get(&id.value)
    }

    /// Sets how the auction under an identifier stands. The SLA stays;
    /// an identifier without an auction gets none.
    pub fn update_auction(&mut self, id: &BidId, status: AuctionStatus)
        ensures
            final(self).records@ == if old(self).records@.contains_key(id.value) {
                old(self).records@.insert(
                    id.value,
                    AuctionRecord { sla: old(self).records@[id.value].sla, auction: status },
                )
            } else {
                old(self).records@
            },
    {
        match self.records.remove(&id.value) {
            Some(record) => {
                self.records.insert(id.value, AuctionRecord { sla: record.sla, auction: status });
            },
            None => {
                assert(self.records@ =~= old(self).records@);
            },
        }
    }
}

/// The winner of an auction and what it is paid, as [`second_price`]
/// selects them among the proposals that came in. An auction that is
/// not known, or that is not at the stage where proposals have come
/// in, has no winner.
pub fn select_winner(bid_db: &BidDataBase, id: &BidId) -> (r: Option<(BidProposal, Money)>)
    ensures
        r is Some <==> bid_db.records@.contains_key(id.value) && (
        bid_db.records@[id.value].auction matches AuctionStatus::Active(bids) && bids@.len() > 0),
        r matches Some((winner, paid)) ==> (
        bid_db.records@[id.value].auction matches AuctionStatus::Active(bids) && exists|w: int|
            #![trigger is_winner(proposal_views(bids@), w)]
            is_winner(proposal_views(bids@), w) && winner@ == bids@[w]@ && is_second_price(
                proposal_views(bids@),
                w,
                paid,
            )),
{
    match bid_db.get(id) {
        Some(record) => match &record.auction {
            AuctionStatus::Active(bids) => second_price(bids),
            _ => None,
        },
        None => None,
    }
}

/// The answer that tells the client that no function was placed.
pub fn no_placement() -> (answer: MarketBidProposal)
    ensures
        answer.bids@.len() == 0,
        answer.chosen_bid is None,
        answer.price is None,
{
    MarketBidProposal { bids: Vec::new(), chosen_bid: None, price: None }
}

/// Whether an auction ends with a placement: its proposals have come
/// in, `chosen` is the winner among them together with the price it is
/// paid, as second-price selection gives them, and the winner took the
/// offer.
pub open spec fn placement_made(
    records: Map<u128, AuctionRecord>,
    id: BidId,
    chosen: Option<(BidProposal, Money)>,
    offer_taken: bool,
) -> bool {
    &&& offer_taken
    &&& records.contains_key(id.value)
    &&& chosen matches Some((winner, paid))
    &&& records[id.value].auction matches AuctionStatus::Active(bids)
    &&& exists|w: int|
        #![trigger is_winner(proposal_views(bids@), w)]
        is_winner(proposal_views(bids@), w) && winner@ == bids@[w]@ && is_second_price(
            proposal_views(bids@),
            w,
            paid,
        )
}

/// Concludes the auction of an SLA and makes the market's answer.
///
/// `chosen` is the winner and its price as they were selected, and
/// `offer_taken` says whether the winner accepted. The selection is
/// made again on the proposals that the auction holds, and `chosen`
/// counts only where it is that selection. Where a placement was made,
/// the auction is recorded as finished with the winner, and the answer
/// lists the proposals that came in, the winner and the price it is
/// paid. In every other case the database stays as it is and the
/// answer is the empty one.
pub fn put_sla(
    bid_db: &mut BidDataBase,
    id: &BidId,
    chosen: Option<(BidProposal, Money)>,
    offer_taken: bool,
) -> (answer: MarketBidProposal)
    ensures
        placement_made(old(bid_db).records@, *id, chosen, offer_taken) ==> {
            let record = old(bid_db).records@[id.value];
            let (winner, paid) = chosen->0;
            &&& final(bid_db).records@.dom() == old(bid_db).records@.dom()
            &&& forall|key: u128|
                key != id.value && old(bid_db).records@.contains_key(key) ==> #[trigger] final(
                    bid_db
                ).records@[key] == old(bid_db).records@[key]
            &&& final(bid_db).records@[id.value].sla == record.sla
            &&& final(bid_db).records@[id.value].auction@ == AuctionStatusView::Finished(winner@)
            &&& AuctionStatusView::Active(proposal_views(answer.bids@)) == record.auction@
            &&& answer.chosen_bid matches Some(bid) && bid@ == winner@
            &&& answer.price == Some(paid)
        },
        !placement_made(old(bid_db).records@, *id, chosen, offer_taken) ==> {
            &&& final(bid_db).records@ == old(bid_db).records@
            &&& answer.bids@.len() == 0
            &&& answer.chosen_bid is None
            &&& answer.price is None
        },
{
    let (winner, paid) = match chosen {
        Some(pair) => pair,
        None => {
            return no_placement();
        },
    };
    if !offer_taken {
        return no_placement();
    }
    let selected = select_winner(bid_db, id);
    let agrees = match &selected {
        Some((best, price)) => same_proposal(best, &winner) && *price == paid,
        None => false,
    };
    proof {
        let records = bid_db.records@;
        if records.contains_key(id.value) {
            match records[id.value].auction {
                AuctionStatus::Active(bids) => {
                    let views = proposal_views(bids@);
                    if placement_made(records, *id, chosen, offer_taken) {
                        let mine = choose|w: int|
                            #![trigger is_winner(views, w)]
                            is_winner(views, w) && winner@ == bids@[w]@ && is_second_price(
                                views,
                                w,
                                paid,
                            );
                        let (best, price) = selected->0;
                        let theirs = choose|w: int|
                            #![trigger is_winner(views, w)]
                            is_winner(views, w) && best@ == bids@[w]@ && is_second_price(
                                views,
                                w,
                                price,
                            );
                        lemma_winner_unique(views, mine, theirs);
                        lemma_second_price_unique(views, mine, paid, price);
                        assert(agrees);
                    }
                    if agrees {
                        let (best, price) = selected->0;
                        let theirs = choose|w: int|
                            #![trigger is_winner(views, w)]
                            is_winner(views, w) && best@ == bids@[w]@ && is_second_price(
                                views,
                                w,
                                price,
                            );
                        assert(is_winner(views, theirs) && winner@ == bids@[theirs]@
                            && is_second_price(views, theirs, paid));
                        assert(placement_made(records, *id, chosen, offer_taken));
                    }
                },
                _ => {},
            }
        }
    }
    if !agrees {
        return no_placement();
    }
    match bid_db.records.remove(&id.value) {
        Some(record) => {
            let sla = record.sla;
            match record.auction {
                AuctionStatus::Active(bids) => {
                    bid_db.records.insert(
                        id.value,
                        AuctionRecord { sla, auction: AuctionStatus::Finished(winner.clone()) },
                    );
                    proof {
                        assert(bid_db.records@.dom() =~= old(bid_db).records@.dom());
                    }
                    MarketBidProposal { bids, chosen_bid: Some(winner), price: Some(paid) }
                },
                _ => no_placement(),
            }
        },
        None => no_placement(),
    }
}

/// The path to install for a winner: from the market down to the node
/// that made the winning bid, as the proposal carries it.
pub fn routing_stack(winner: &BidProposal) -> (stack: FunctionRoutingStack)
    ensures
        stack.bid_id == winner.bid_id,
        stack.stack@ == winner.path@,
{
    FunctionRoutingStack { bid_id: winner.bid_id, stack: copy_path(&winner.path) }
}

/// What the market knows of a node.
#[derive(Debug)]
pub struct NodeRecord {
    /// Where the node is reached.
    pub uri: String,
    /// The latency last observed towards the node, in milliseconds.
    pub latency_ms: Option<u64>,
}

/// The nodes that the market knows, each under the value of its
/// identifier.
#[derive(Debug)]
pub struct NodesDataBase {
    pub nodes: HashMap<u128, NodeRecord>,
}

/// A partial update of what the market knows of a node.
#[derive(Debug, Clone, Copy, PartialEq, Eq, Structural)]
pub struct PatchNode {
    /// When the node sent the update, in milliseconds since the epoch.
    pub created_at: Option<i64>,
}

/// Why the market could not answer.
#[derive(Debug, Clone, Copy, PartialEq, Eq, Structural)]
pub enum Error {
    /// The market knows no node of that identifier.
    NodeIdNotFound(NodeId),
}

/// The latency that an update shows which was sent at `created_at_ms`
/// and has arrived at `now_ms`: the time it was under way, and zero
/// where the clocks say that it arrived before it was sent.
pub open spec fn latency_shown(now_ms: i64, created_at_ms: i64) -> u64 {
    if now_ms >= created_at_ms {
        (now_ms - created_at_ms) as u64
    } else {
        0
    }
}

/// The nodes after a latency has been observed towards a known node.
pub open spec fn latency_observed(
    nodes: Map<u128, NodeRecord>,
    id: NodeId,
    now_ms: i64,
    created_at_ms: i64,
) -> Map<u128, NodeRecord> {
    nodes.insert(
        id.value,
        NodeRecord {
            uri: nodes[id.value].uri,
            latency_ms: Some(latency_shown(now_ms, created_at_ms)),
        },
    )
}

/// Reads the clock with `chrono::Utc::now` and gives the instant in
/// milliseconds since the epoch, as `timestamp_millis` counts them.
/// Nothing is known of the value. The call aborts the process where
/// the system's clock stands before the epoch.
#[verifier::external_body]
fn utc_now_millis() -> (now_ms: i64) {
    chrono::Utc::now().timestamp_millis()
}

impl NodesDataBase {
    /// A database of no nodes.
    pub fn new() -> (db: NodesDataBase)
        ensures
            db.nodes@ == Map::<u128, NodeRecord>::empty(),
    {
        NodesDataBase { nodes: HashMap::new() }
    }

    /// Makes a node known under its identifier, with no latency
    /// observed yet, in place of what was known of it.
    pub fn insert(&mut self, id: NodeId, uri: String)
        ensures
            final(self).nodes@ == old(self).nodes@.insert(
                id.value,
                NodeRecord { uri, latency_ms: None },
            ),
    {
        self.nodes.insert(id.value, NodeRecord { uri, latency_ms: None });
    }

    /// What is known of a node.
    pub fn get(&self, id: &NodeId) -> (r: Option<&NodeRecord>)
        ensures
            match r {
                Some(record) => self.nodes@.contains_key(id.value) && *record
                    == self.nodes@[id.value],
                None => !self.nodes@.contains_key(id.value),
            },
    {
        self.nodes.get(&id.value)
    }

    /// Records the latency that an update shows which a node sent at
    /// `created_at_ms` and which arrived at `now_ms`. A node that is
    /// not known is refused, and nothing changes.
    pub fn observe_latency(&mut self, id: NodeId, now_ms: i64, created_at_ms: i64) -> (r: Result<
        (),
        Error,
    >)
        ensures
            old(self).nodes@.contains_key(id.value) ==> r is Ok && final(self).nodes@
                == latency_observed(old(self).nodes@, id, now_ms, created_at_ms),
            !old(self).nodes@.contains_key(id.value) ==> r == Err::<(), Error>(
                Error::NodeIdNotFound(id),
            ) && final(self).nodes@ == old(self).nodes@,
    {
        match self.nodes.remove(&id.value) {
            Some(record) => {
                let latency: u64 = if now_ms >= created_at_ms {
                    (now_ms as i128 - created_at_ms as i128) as u64
                } else {
                    0
                };
                self.nodes.insert(
                    id.value,
                    NodeRecord { uri: record.uri, latency_ms: Some(latency) },
                );
                assert(self.nodes@ =~= latency_observed(
                    old(self).nodes@,
                    id,
                    now_ms,
                    created_at_ms,
                ));
                Ok(())
            },
            None => {
                assert(self.nodes@ =~= old(self).nodes@);
                Err(Error::NodeIdNotFound(id))
            },
        }
    }
}

/// Applies a partial update to what the market knows of a node.
///
/// An update that says when it was sent has the latency towards the
/// node observed, as [`NodesDataBase::observe_latency`] does with the
/// instant at which this function reads the clock: whatever that
/// instant is, a known node gets the latency it shows and an unknown
/// node is refused. An update that says nothing changes nothing.
pub fn patch_nodes(id: NodeId, nodes_db: &mut NodesDataBase, payload: &PatchNode) -> (r: Result<
    (),
    Error,
>)
    ensures
        payload.created_at is None ==> r is Ok && final(nodes_db).nodes@ == old(nodes_db).nodes@,
        payload.created_at matches Some(created_at_ms) ==> {
            if old(nodes_db).nodes@.contains_key(id.value) {
                r is Ok && exists|now_ms: i64|
                    final(nodes_db).nodes@ == #[trigger] latency_observed(
                        old(nodes_db).nodes@,
                        id,
                        now_ms,
                        created_at_ms,
                    )
            } else {
                r == Err::<(), Error>(Error::NodeIdNotFound(id)) && final(nodes_db).nodes@ == old(
                    nodes_db
                ).nodes@
            }
        },
{
    match payload.created_at {
        Some(created_at_ms) => {
            let now_ms = utc_now_millis();
            nodes_db.observe_latency(id, now_ms, created_at_ms)
        },
        None => Ok(()),
    }
}

} // verus!
