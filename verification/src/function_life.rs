//! How a node answers a call for bids: its own bid, the proposals of
//! its children, and the latency that each proposal may not exceed.

use crate::auction;
use crate::auction::{bid_placed, AuctionRepository, BidRecord, Pricing};
use crate::faas;
use crate::ids::NodeId;
use crate::market::{proposal_views, BidProposal, BidProposalView};
use crate::routing::NodeSituation;
use crate::satisfiability::ResourceTracker;
use crate::sla::SLA;
use vstd::prelude::*;

verus! {

/// How long a child may take to answer a call for bids unless
/// configured otherwise, in milliseconds.
pub const BID_DEADLINE_MS: u64 = 1_000;

/// A call for bids as it reaches a node.
#[derive(Debug, Clone, Copy, PartialEq, Eq, Structural)]
pub struct BidRequest {
    pub sla: SLA,
    /// The latency of the path from the market to this node, in
    /// milliseconds.
    pub accumulated_latency_ms: u64,
}

/// What a node answers to a call for bids.
#[derive(Debug)]
pub struct BidProposals {
    pub bids: Vec<BidProposal>,
}

/// What came of the call for bids that was handed to one child.
#[derive(Debug)]
pub struct ChildResponse {
    pub child: NodeId,
    /// The measured latency of the link to the child, in milliseconds.
    pub link_latency_ms: u64,
    /// What the child answered, or `None` where it failed or did not
    /// answer in time.
    pub proposals: Option<Vec<BidProposal>>,
}

/// When a node bids itself.
#[derive(Debug, Clone, Copy, PartialEq, Eq, Structural)]
pub enum PlacementPolicy {
    /// The node always bids, beside its children.
    TopDown,
    /// The node bids only where no proposal of its children is within
    /// the latency that the SLA allows.
    BottomUp,
}

/// What can go wrong in the life of a function.
#[derive(Debug)]
pub enum Error {
    Auction(auction::Error),
    FaaS(faas::Error),
}

/// Whether a proposal at the given latency from this node is within
/// what the SLA allows, counted from the market.
pub open spec fn admissible(request: BidRequest, latency_ms: int) -> bool {
    request.accumulated_latency_ms + latency_ms <= request.sla.latency_max_ms
}

/// The proposal that a node makes of its own bid: it is at no distance
/// from the node, and its path is the node alone.
pub open spec fn local_view(record: BidRecord) -> BidProposalView {
    BidProposalView {
        bid_id: record.id,
        node_id: record.node_id,
        price: record.price,
        latency_ms: 0,
        path: seq![record.node_id],
    }
}

/// A proposal of a child as its parent hands it on: the link's latency
/// is added, and the parent is put in front of the path.
pub open spec fn lifted(me: NodeId, link_latency_ms: u64, proposal: BidProposalView) -> BidProposalView {
    BidProposalView {
        bid_id: proposal.bid_id,
        node_id: proposal.node_id,
        price: proposal.price,
        latency_ms: (proposal.latency_ms + link_latency_ms) as u64,
        path: seq![me] + proposal.path,
    }
}

/// The proposals of one child that stay within the latency, lifted and
/// in the child's order.
pub open spec fn admitted_from_child(
    me: NodeId,
    request: BidRequest,
    link_latency_ms: u64,
    proposals: Seq<BidProposalView>,
) -> Seq<BidProposalView>
    decreases proposals.len(),
{
    if proposals.len() == 0 {
        Seq::empty()
    } else {
        let front = admitted_from_child(me, request, link_latency_ms, proposals.drop_last());
        if admissible(request, proposals.last().latency_ms + link_latency_ms) {
            front.push(lifted(me, link_latency_ms, proposals.last()))
        } else {
            front
        }
    }
}

/// What one child contributes: nothing where it gave no answer.
pub open spec fn child_share(me: NodeId, request: BidRequest, response: ChildResponse) -> Seq<
    BidProposalView,
> {
    match response.proposals {
        Some(proposals) => admitted_from_child(
            me,
            request,
            response.link_latency_ms,
            proposal_views(proposals@),
        ),
        None => Seq::empty(),
    }
}

/// The proposals of all children that stay within the latency, child
/// after child.
pub open spec fn admitted_from_children(
    me: NodeId,
    request: BidRequest,
    children: Seq<ChildResponse>,
) -> Seq<BidProposalView>
    decreases children.len(),
{
    if children.len() == 0 {
        Seq::empty()
    } else {
        admitted_from_children(me, request, children.drop_last()) + child_share(
            me,
            request,
            children.last(),
        )
    }
}

/// The node's own proposal, where it made a bid and is itself within
/// the latency.
pub open spec fn admitted_local(request: BidRequest, local: Option<BidRecord>) -> Seq<
    BidProposalView,
> {
    match local {
        Some(record) => if admissible(request, 0) {
            seq![local_view(record)]
        } else {
            Seq::empty()
        },
        None => Seq::empty(),
    }
}

/// Whether a node bids itself: the market never does; under the
/// top-down policy every other node does; under the bottom-up policy a
/// node does where its children contribute nothing.
pub open spec fn bids_locally(
    policy: PlacementPolicy,
    is_market: bool,
    from_children: Seq<BidProposalView>,
) -> bool {
    !is_market && (policy == PlacementPolicy::TopDown || from_children.len() == 0)
}

/// Every proposal is within the latency that the SLA allows.
pub open spec fn all_within_latency(request: BidRequest, bids: Seq<BidProposalView>) -> bool {
    forall|i: int|
        0 <= i < bids.len() ==> request.accumulated_latency_ms + (#[trigger] bids[i]).latency_ms
            <= request.sla.latency_max_ms
}

/// Every proposal's path starts at the node.
pub open spec fn all_start_at(me: NodeId, bids: Seq<BidProposalView>) -> bool {
    forall|i: int| 0 <= i < bids.len() ==> (#[trigger] bids[i]).path.len() > 0 && bids[i].path[0] == me
}

/// No proposal that a child contributes exceeds the latency that the
/// SLA allows, and each has this node at the start of its path.
pub proof fn lemma_child_within_latency(
    me: NodeId,
    request: BidRequest,
    link_latency_ms: u64,
    proposals: Seq<BidProposalView>,
)
    ensures
        all_within_latency(request, admitted_from_child(me, request, link_latency_ms, proposals)),
        all_start_at(me, admitted_from_child(me, request, link_latency_ms, proposals)),
        admitted_from_child(me, request, link_latency_ms, proposals).len() <= proposals.len(),
    decreases proposals.len(),
{
    if proposals.len() > 0 {
        lemma_child_within_latency(me, request, link_latency_ms, proposals.drop_last());
    }
}

/// No proposal that the children contribute exceeds the latency that
/// the SLA allows, and each has this node at the start of its path.
pub proof fn lemma_children_within_latency(
    me: NodeId,
    request: BidRequest,
    children: Seq<ChildResponse>,
)
    ensures
        all_within_latency(request, admitted_from_children(me, request, children)),
        all_start_at(me, admitted_from_children(me, request, children)),
    decreases children.len(),
{
    if children.len() > 0 {
        lemma_children_within_latency(me, request, children.drop_last());
        match children.last().proposals {
            Some(proposals) => {
                lemma_child_within_latency(
                    me,
                    request,
                    children.last().link_latency_ms,
                    proposal_views(proposals@),
                );
            },
            None => {},
        }
    }
}

/// The call for bids that a node hands to a child: the same SLA, and
/// the latency of the link added to what has accumulated. `None` where
/// the sum exceeds 64 bits, which no SLA allows: such a child is not
/// asked.
pub fn child_request(request: &BidRequest, link_latency_ms: u64) -> (r: Option<BidRequest>)
    ensures
        r == if request.accumulated_latency_ms + link_latency_ms <= u64::MAX {
            Some(
                BidRequest {
                    sla: request.sla,
                    accumulated_latency_ms: (request.accumulated_latency_ms
                        + link_latency_ms) as u64,
                },
            )
        } else {
            None
        },
{
    if link_latency_ms <= u64::MAX - request.accumulated_latency_ms {
        Some(
            BidRequest {
                sla: request.sla,
                accumulated_latency_ms: request.accumulated_latency_ms + link_latency_ms,
            },
        )
    } else {
        None
    }
}

/// The proposal that a node makes of its own bid.
pub fn local_proposal(record: &BidRecord) -> (proposal: BidProposal)
    ensures
        proposal@ == local_view(*record),
{
    let mut path: Vec<NodeId> = Vec::new();
    path.push(record.node_id);
    proof {
        assert(path@ =~= seq![record.node_id]);
    }
    BidProposal {
        bid_id: record.id,
        node_id: record.node_id,
        price: record.price,
        latency_ms: 0,
        path,
    }
}

/// Whether a latency from this node is within what the SLA allows.
fn is_admissible(request: &BidRequest, latency_ms: u128) -> (b: bool)
    requires
        latency_ms <= 2 * u64::MAX,
    ensures
        b == admissible(*request, latency_ms as int),
{
    request.accumulated_latency_ms as u128 + latency_ms <= request.sla.latency_max_ms as u128
}

/// Lifts a proposal of a child, as [`lifted`] says.
fn lift(me: NodeId, link_latency_ms: u64, proposal: &BidProposal) -> (r: BidProposal)
    requires
        proposal.latency_ms + link_latency_ms <= u64::MAX,
    ensures
        r@ == lifted(me, link_latency_ms, proposal@),
{
    let mut path: Vec<NodeId> = Vec::new();
    path.push(me);
    let mut i: usize = 0;
    while i < proposal.path.len()
        invariant
            i <= proposal.path.len(),
            path@ == seq![me] + proposal.path@.take(i as int),
        decreases proposal.path.len() - i,
    {
        path.push(proposal.path[i]);
        proof {
            assert(proposal.path@.take(i + 1) =~= proposal.path@.take(i as int).push(
                proposal.path@[i as int],
            ));
            assert(path@ =~= seq![me] + proposal.path@.take(i + 1));
        }
        i = i + 1;
    }
    proof {
        assert(proposal.path@.take(proposal.path@.len() as int) =~= proposal.path@);
    }
    BidProposal {
        bid_id: proposal.bid_id,
        node_id: proposal.node_id,
        price: proposal.price,
        latency_ms: proposal.latency_ms + link_latency_ms,
        path,
    }
}

/// Gathers what the children contribute: of every child that
/// answered, the proposals that stay within the latency of the SLA once
/// the link to the child is counted, each lifted to this node.
pub fn collect_children(me: NodeId, request: &BidRequest, children: &Vec<ChildResponse>) -> (bids:
    Vec<BidProposal>)
    ensures
        proposal_views(bids@) == admitted_from_children(me, *request, children@),
        all_within_latency(*request, proposal_views(bids@)),
        all_start_at(me, proposal_views(bids@)),
{
    let mut bids: Vec<BidProposal> = Vec::new();
    let mut c: usize = 0;
    proof {
        assert(children@.take(0) =~= Seq::<ChildResponse>::empty());
        assert(proposal_views(bids@) =~= Seq::<BidProposalView>::empty());
    }
    while c < children.len()
        invariant
            c <= children.len(),
            proposal_views(bids@) == admitted_from_children(me, *request, children@.take(c as int)),
        decreases children.len() - c,
    {
        proof {
            assert(children@.take(c + 1).drop_last() =~= children@.take(c as int));
            assert(children@.take(c + 1).last() == children@[c as int]);
        }
        let response = &children[c];
        match &response.proposals {
            Some(proposals) => {
                let ghost before = proposal_views(bids@);
                let ghost theirs = proposal_views(proposals@);
                let mut k: usize = 0;
                proof {
                    assert(theirs.take(0) =~= Seq::<BidProposalView>::empty());
                    assert(before + Seq::<BidProposalView>::empty() =~= before);
                }
                while k < proposals.len()
                    invariant
                        k <= proposals.len(),
                        theirs == proposal_views(proposals@),
                        proposal_views(bids@) == before + admitted_from_child(
                            me,
                            *request,
                            response.link_latency_ms,
                            theirs.take(k as int),
                        ),
                    decreases proposals.len() - k,
                {
                    proof {
                        assert(theirs.take(k + 1).drop_last() =~= theirs.take(k as int));
                        assert(theirs.take(k + 1).last() == proposals@[k as int]@);
                    }
                    let proposal = &proposals[k];
                    let latency: u128 = proposal.latency_ms as u128
                        + response.link_latency_ms as u128;
                    if is_admissible(request, latency) {
                        let ghost held = proposal_views(bids@);
                        let raised = lift(me, response.link_latency_ms, proposal);
                        bids.push(raised);
                        proof {
                            assert(proposal_views(bids@) =~= held.push(raised@));
                            assert(held.push(raised@) =~= before + admitted_from_child(
                                me,
                                *request,
                                response.link_latency_ms,
                                theirs.take(k + 1),
                            ));
                        }
                    }
                    k = k + 1;
                }
                proof {
                    assert(theirs.take(proposals@.len() as int) =~= theirs);
                }
            },
            None => {
                proof {
                    assert(proposal_views(bids@) + Seq::<BidProposalView>::empty()
                        =~= proposal_views(bids@));
                }
            },
        }
        c = c + 1;
    }
    proof {
        assert(children@.take(children@.len() as int) =~= children@);
        lemma_children_within_latency(me, *request, children@);
    }
    bids
}

/// Puts a node's answer together: its own proposal first, where it bid
/// and is itself within the latency of the SLA, then what its children
/// contribute.
pub fn aggregate(request: &BidRequest, local: Option<&BidRecord>, from_children: Vec<BidProposal>) -> (answer:
    BidProposals)
    ensures
        proposal_views(answer.bids@) == admitted_local(
            *request,
            match local {
                Some(record) => Some(*record),
                None => None,
            },
        ) + proposal_views(from_children@),
{
    let own = match local {
        Some(record) => if request.accumulated_latency_ms <= request.sla.latency_max_ms {
            Some(local_proposal(record))
        } else {
            None
        },
        None => None,
    };
    match own {
        Some(proposal) => {
            let mut bids: Vec<BidProposal> = Vec::new();
            bids.push(proposal);
            let mut from_children = from_children;
            let ghost theirs = proposal_views(from_children@);
            let ghost mine = proposal_views(bids@);
            bids.append(&mut from_children);
            proof {
                assert(proposal_views(bids@) =~= mine + theirs);
                assert(mine =~= seq![local_view(*local->0)]);
            }
            BidProposals { bids }
        },
        None => {
            proof {
                assert(Seq::<BidProposalView>::empty() + proposal_views(from_children@)
                    =~= proposal_views(from_children@));
            }
            BidProposals { bids: from_children }
        },
    }
}

/// Answers a call for bids at this node, once its children have been
/// asked.
///
/// What the children contribute is gathered first. The node then bids
/// itself where its policy says so, under an identifier drawn at
/// random, and records that bid; no other bid is touched. The answer
/// holds the node's own proposal, where it made one and is itself
/// within the latency of the SLA, followed by the proposals of the
/// children. No proposal of the answer exceeds the latency that the
/// SLA allows, and the path of each starts at this node.
pub fn bid(
    policy: PlacementPolicy,
    situation: &NodeSituation,
    repository: &mut AuctionRepository,
    tracker: &ResourceTracker,
    pricing: &Pricing,
    request: &BidRequest,
    children: &Vec<ChildResponse>,
    now_ms: u64,
) -> (answer: BidProposals)
    requires
        old(repository).wf(),
    ensures
        final(repository).wf(),
        ({
            let me = situation.my_id;
            let from_children = admitted_from_children(me, *request, children@);
            if bids_locally(policy, situation.is_market, from_children) {
                exists|id: crate::ids::BidId|
                    {
                        let local = #[trigger] bid_placed(
                            old(repository)@,
                            tracker.entries(),
                            *pricing,
                            request.sla,
                            me,
                            id,
                            now_ms,
                        );
                        &&& id.value != 0
                        &&& final(repository)@ == match local {
                            Some(record) => old(repository)@.push(record),
                            None => old(repository)@,
                        }
                        &&& proposal_views(answer.bids@) == admitted_local(*request, local)
                            + from_children
                    }
            } else {
                final(repository)@ == old(repository)@ && proposal_views(answer.bids@)
                    == from_children
            }
        }),
        all_within_latency(*request, proposal_views(answer.bids@)),
        all_start_at(situation.my_id, proposal_views(answer.bids@)),
{
    let me = situation.my_id;
    let from_children = collect_children(me, request, children);
    let local_wanted = !situation.is_market && (match policy {
        PlacementPolicy::TopDown => true,
        PlacementPolicy::BottomUp => from_children.len() == 0,
    });
    if local_wanted {
        let local = repository.bid_on(&request.sla, tracker, pricing, me, now_ms);
        let ghost theirs = proposal_views(from_children@);
        let answer = aggregate(request, local.as_ref(), from_children);
        proof {
            let mine = admitted_local(*request, local);
            assert(proposal_views(answer.bids@) == mine + theirs);
            assert forall|i: int| 0 <= i < (mine + theirs).len() implies request.accumulated_latency_ms
                + (#[trigger] (mine + theirs)[i]).latency_ms <= request.sla.latency_max_ms && (
            mine + theirs)[i].path.len() > 0 && (mine + theirs)[i].path[0] == me by {
                if i >= mine.len() {
                    assert((mine + theirs)[i] == theirs[i - mine.len()]);
                } else {
                    let id = choose|id: crate::ids::BidId|
                        local == #[trigger] bid_placed(
                            old(repository)@,
                            tracker.entries(),
                            *pricing,
                            request.sla,
                            me,
                            id,
                            now_ms,
                        );
                    assert(local->0.node_id == me);
                }
            }
        }
        answer
    } else {
        let answer = aggregate(request, None, from_children);
        answer
    }
}

} // verus!
