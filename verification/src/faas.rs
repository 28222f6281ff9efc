//! The node's side of the function backend: what it has been asked to
//! run, and how the backend can fail.

use crate::ids::BidId;
use crate::sla::SLA;
use std::collections::HashMap;
use vstd::prelude::*;

verus! {

/// Why the backend did not deploy or remove a function.
#[derive(Debug)]
pub enum Error {
    Unreachable,
    Timeout,
    /// The backend refused, for the reason it gave.
    Rejected(String),
}

/// A function that runs on this node.
#[derive(Debug)]
pub struct ProvisionedFunction {
    /// The name under which the backend runs it.
    pub name: String,
    /// What was agreed for it.
    pub sla: SLA,
}

impl Clone for ProvisionedFunction {
    fn clone(&self) -> (function: ProvisionedFunction)
        ensures
            function == *self,
    {
        ProvisionedFunction { name: self.name.clone(), sla: self.sla }
    }
}

/// The functions provisioned on this node, each under the value of the
/// identifier of the bid it came from.
#[derive(Debug)]
pub struct ProvisionedRepository {
    pub functions: HashMap<u128, ProvisionedFunction>,
}

/// What to ask of the backend for a bid.
#[derive(Debug)]
pub enum Deployment {
    /// The bid's function already runs: nothing is deployed again.
    Existing(ProvisionedFunction),
    /// The function is to be deployed.
    Create,
}

impl View for ProvisionedRepository {
    type V = Map<u128, ProvisionedFunction>;

    open spec fn view(&self) -> Map<u128, ProvisionedFunction> {
        self.functions@
    }
}

impl ProvisionedRepository {
    /// A repository of no functions.
    pub fn new() -> (repository: ProvisionedRepository)
        ensures
            repository@ == Map::<u128, ProvisionedFunction>::empty(),
    {
        ProvisionedRepository { functions: HashMap::new() }
    }

    /// The function of a bid, if it is provisioned here.
    pub fn get(&self, bid_id: BidId) -> (r: Option<&ProvisionedFunction>)
        ensures
            match r {
                Some(function) => self@.contains_key(bid_id.value) && *function
                    == self@[bid_id.value],
                None => !self@.contains_key(bid_id.value),
            },
    {
        self.functions.get(&bid_id.value)
    }

    /// Decides a deployment: a bid whose function is recorded gets that
    /// function back, so that deploying twice under one bid yields one
    /// function; any other bid is to be deployed.
    pub fn plan(&self, bid_id: BidId) -> (deployment: Deployment)
        ensures
            deployment == if self@.contains_key(bid_id.value) {
                Deployment::Existing(self@[bid_id.value])
            } else {
                Deployment::Create
            },
    {
        match self.functions.get(&bid_id.value) {
            Some(function) => Deployment::Existing(function.clone()),
            None => Deployment::Create,
        }
    }

    /// Records the function that the backend deployed for a bid.
    pub fn record(&mut self, bid_id: BidId, function: ProvisionedFunction)
        ensures
            final(self)@ == old(self)@.insert(bid_id.value, function),
    {
        self.functions.insert(bid_id.value, function);
    }

    /// Forgets the function of a bid, once the backend has removed it.
    /// Returns what was recorded.
    pub fn remove(&mut self, bid_id: BidId) -> (removed: Option<ProvisionedFunction>)
        ensures
            final(self)@ == old(self)@.remove(bid_id.value),
            removed == if old(self)@.contains_key(bid_id.value) {
                Some(old(self)@[bid_id.value])
            } else {
                None
            },
    {
        self.functions.remove(&bid_id.value)
    }
}

} // verus!
