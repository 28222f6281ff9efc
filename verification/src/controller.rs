//! The entry points that the node's interface calls.

use crate::auction;
use crate::auction::AuctionRepository;
use crate::faas;
use crate::function_life;
use crate::ids::BidId;
use crate::router::{delivery_decided, Delivery, FunctionRoutingStack, Packet, RouteInstall, Router};
use crate::router;
use crate::routing::{routed, Hop};
use crate::satisfiability::ResourceTracker;
use crate::sla::SLA;
use vstd::prelude::*;

verus! {

/// What the interface reports when a call fails.
#[derive(Debug)]
pub enum ControllerError {
    OpenFaaS(faas::Error),
    Auction(auction::Error),
    Function(function_life::Error),
}

impl From<faas::Error> for ControllerError {
    fn from(e: faas::Error) -> (r: ControllerError) {
        ControllerError::OpenFaaS(e)
    }
}

impl vstd::std_specs::convert::FromSpecImpl<faas::Error> for ControllerError {
    open spec fn obeys_from_spec() -> bool {
        true
    }

    open spec fn from_spec(e: faas::Error) -> ControllerError {
        ControllerError::OpenFaaS(e)
    }
}

impl From<auction::Error> for ControllerError {
    fn from(e: auction::Error) -> (r: ControllerError) {
        ControllerError::Auction(e)
    }
}

impl vstd::std_specs::convert::FromSpecImpl<auction::Error> for ControllerError {
    open spec fn obeys_from_spec() -> bool {
        true
    }

    open spec fn from_spec(e: auction::Error) -> ControllerError {
        ControllerError::Auction(e)
    }
}

impl From<function_life::Error> for ControllerError {
    fn from(e: function_life::Error) -> (r: ControllerError) {
        ControllerError::Function(e)
    }
}

impl vstd::std_specs::convert::FromSpecImpl<function_life::Error> for ControllerError {
    open spec fn obeys_from_spec() -> bool {
        true
    }

    open spec fn from_spec(e: function_life::Error) -> ControllerError {
        ControllerError::Function(e)
    }
}

/// Installs the route of a function at this node, as
/// [`Router::register_function_route`] does.
pub fn register_route(router: &mut Router, stack: FunctionRoutingStack) -> (r: Result<
    RouteInstall,
    router::Error,
>)
    ensures
        final(router).situation == old(router).situation,
        match router::route_decided(
            stack.stack@,
            old(router).situation.my_id,
            old(router).situation.neighbors(),
        ) {
            Ok(hop) => final(router).table@ == old(router).table@.insert(stack.bid_id.value, hop)
                && match hop {
                Hop::Outside(next) => r == Ok::<RouteInstall, router::Error>(
                    RouteInstall::Relay(old(router).situation.neighbors()[next.value]),
                ),
                _ => r == Ok::<RouteInstall, router::Error>(RouteInstall::Winner),
            },
            Err(e) => final(router).table@ == old(router).table@ && r == Err::<
                RouteInstall,
                router::Error,
            >(e),
        },
{
    router.register_function_route(&stack)
}

/// Decides who receives a packet, as [`Router::forward`] does for the
/// packet's function. The payload is not looked at.
pub fn post_forward_function_routing(packet: &Packet, router: &mut Router) -> (r: Result<
    Delivery,
    router::Error,
>)
    ensures
        final(router).situation == old(router).situation,
        final(router).table@ == if old(router).table@.contains_key(packet.bid_id.value) {
            old(router).table@
        } else {
            old(router).table@.insert(packet.bid_id.value, Hop::ToMarket)
        },
        r == delivery_decided(
            routed(old(router).table@, packet.bid_id),
            old(router).situation.neighbors(),
            old(router).situation.to_market,
        ),
{
    router.forward(packet.bid_id)
}

/// Answers the acceptance of a bid, as
/// [`AuctionRepository::provision_from_bid`] does, and reports a
/// failure as an error of the auction.
pub fn provision_from_bid(
    repository: &mut AuctionRepository,
    id: BidId,
    tracker: &ResourceTracker,
) -> (r: Result<SLA, ControllerError>)
    requires
        old(repository).wf(),
        tracker.wf(),
    ensures
        final(repository).wf(),
        !auction::awaits_answer(old(repository)@, id) ==> (r matches Err(
            ControllerError::Auction(auction::Error::UnknownOrStaleBid),
        )) && final(repository)@ == old(repository)@,
        auction::awaits_answer(old(repository)@, id) ==> {
            let i = auction::bid_index(old(repository)@, id);
            let record = old(repository)@[i];
            if auction::within_capacity(
                tracker.entries(),
                old(repository)@,
                record.reservation.node@,
            ) {
                r == Ok::<SLA, ControllerError>(record.sla) && final(repository)@ == old(
                    repository
                )@.update(i, auction::with_status(record, auction::BidStatus::Accepted))
            } else {
                (r matches Err(ControllerError::Auction(auction::Error::Overcommitted)))
                    && final(repository)@ == old(repository)@.update(
                    i,
                    auction::with_status(record, auction::BidStatus::Cancelled),
                )
            }
        },
{
    match repository.provision_from_bid(id, tracker) {
        Ok(sla) => Ok(sla),
        Err(e) => Err(ControllerError::from(e)),
    }
}

} // verus!
