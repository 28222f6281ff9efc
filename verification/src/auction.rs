//! The bids of this node: pricing an SLA against the cluster's free
//! resources, holding the reservation of every open bid, and leading
//! each bid through its life.

use crate::faas;
use crate::faas::{ProvisionedFunction, ProvisionedRepository};
use crate::ids::{BidId, NodeId};
use crate::satisfiability::{fits, has_name, index_of, metrics_fit, Metrics, ResourceTracker, TrackedNode};
use crate::sla::SLA;
use vstd::prelude::*;

verus! {

/// An amount of money, in the smallest unit that prices are quoted in.
pub type Money = u64;

/// Utilization is counted in parts of this many.
pub const FULL: u64 = 1_000_000;

/// How long a bid waits for an answer unless configured otherwise, in
/// milliseconds.
pub const BID_TTL_MS: u64 = 30_000;

/// Where a bid stands.
#[derive(Clone, Copy, Debug, PartialEq, Eq, Structural)]
pub enum BidStatus {
    /// Made and not yet answered; its resources are reserved.
    Pending,
    /// Accepted by the market; its resources stay allocated.
    Accepted,
    /// Lost, failed or timed out; its resources are free again.
    Cancelled,
    /// No longer in force; its resources are free again.
    Expired,
}

/// Resources of one cluster node that a bid has set aside.
#[derive(Debug)]
pub struct ResourceReservation {
    pub node: String,
    pub cpu_millicpu: u64,
    pub ram_bytes: u64,
}

impl Clone for ResourceReservation {
    fn clone(&self) -> (reservation: ResourceReservation)
        ensures
            reservation == *self,
    {
        ResourceReservation {
            node: self.node.clone(),
            cpu_millicpu: self.cpu_millicpu,
            ram_bytes: self.ram_bytes,
        }
    }
}

/// A bid of this node.
#[derive(Debug)]
pub struct BidRecord {
    pub id: BidId,
    pub sla: SLA,
    pub price: Money,
    pub node_id: NodeId,
    pub reservation: ResourceReservation,
    pub status: BidStatus,
    /// When the bid was made, in milliseconds.
    pub created_at_ms: u64,
}

impl Clone for BidRecord {
    fn clone(&self) -> (record: BidRecord)
        ensures
            record == *self,
    {
        BidRecord {
            id: self.id,
            sla: self.sla,
            price: self.price,
            node_id: self.node_id,
            reservation: self.reservation.clone(),
            status: self.status,
            created_at_ms: self.created_at_ms,
        }
    }
}

/// Why a bid could not be provisioned.
#[derive(Debug)]
pub enum Error {
    /// No bid of that identifier is waiting for an answer.
    UnknownOrStaleBid,
    /// The backend did not deploy the function.
    DeployFailed(faas::Error),
    /// The reserved resources are no longer there.
    Overcommitted,
}

/// A bid holds its resources while it is pending or accepted.
pub open spec fn holds_reservation(status: BidStatus) -> bool {
    status == BidStatus::Pending || status == BidStatus::Accepted
}

/// The record with another status and nothing else changed.
pub open spec fn with_status(record: BidRecord, status: BidStatus) -> BidRecord {
    BidRecord {
        id: record.id,
        sla: record.sla,
        price: record.price,
        node_id: record.node_id,
        reservation: record.reservation,
        status,
        created_at_ms: record.created_at_ms,
    }
}

/// The millicpu that one record holds on a cluster node.
pub open spec fn held_cpu(record: BidRecord, node: Seq<char>) -> nat {
    if holds_reservation(record.status) && record.reservation.node@ == node {
        record.reservation.cpu_millicpu as nat
    } else {
        0
    }
}

/// The bytes that one record holds on a cluster node.
pub open spec fn held_memory(record: BidRecord, node: Seq<char>) -> nat {
    if holds_reservation(record.status) && record.reservation.node@ == node {
        record.reservation.ram_bytes as nat
    } else {
        0
    }
}

/// The millicpu that the records hold on a cluster node, all together.
pub open spec fn reserved_cpu(records: Seq<BidRecord>, node: Seq<char>) -> nat
    decreases records.len(),
{
    if records.len() == 0 {
        0
    } else {
        reserved_cpu(records.drop_last(), node) + held_cpu(records.last(), node)
    }
}

/// The bytes that the records hold on a cluster node, all together.
pub open spec fn reserved_memory(records: Seq<BidRecord>, node: Seq<char>) -> nat
    decreases records.len(),
{
    if records.len() == 0 {
        0
    } else {
        reserved_memory(records.drop_last(), node) + held_memory(records.last(), node)
    }
}

/// Whether some record carries the identifier.
pub open spec fn has_bid(records: Seq<BidRecord>, id: BidId) -> bool {
    exists|i: int| 0 <= i < records.len() && (#[trigger] records[i]).id == id
}

/// The position of a record that carries the identifier.
pub open spec fn bid_index(records: Seq<BidRecord>, id: BidId) -> int {
    choose|i: int| 0 <= i < records.len() && (#[trigger] records[i]).id == id
}

/// No two records carry the same identifier.
pub open spec fn distinct_ids(records: Seq<BidRecord>) -> bool {
    forall|i: int, j: int|
        0 <= i < records.len() && 0 <= j < records.len() && (#[trigger] records[i]).id == (
        #[trigger] records[j]).id ==> i == j
}

/// How prices are made: a base, and a share of `alpha` that grows with
/// the utilization of the node that would host the function.
#[derive(Debug, Clone, Copy)]
pub struct Pricing {
    base: Money,
    alpha: Money,
}

impl Pricing {
    #[verifier::type_invariant]
    spec fn bounded(self) -> bool {
        self.base + self.alpha <= u64::MAX
    }

    /// The price at no utilization.
    pub closed spec fn base(self) -> nat {
        self.base as nat
    }

    /// What full utilization adds to the base.
    pub closed spec fn alpha(self) -> nat {
        self.alpha as nat
    }

    /// Pricing with the given parameters, unless the highest price
    /// they can give, `base + alpha`, exceeds 64 bits.
    pub fn new(base: Money, alpha: Money) -> (r: Option<Pricing>)
        ensures
            match r {
                Some(pricing) => pricing.base() == base && pricing.alpha() == alpha,
                None => base + alpha > u64::MAX,
            },
    {
        if alpha <= u64::MAX - base {
            Some(Pricing { base, alpha })
        } else {
            None
        }
    }
}

/// How much of a resource is used, in parts of [`FULL`], rounded down.
/// A node that can allocate nothing counts as fully used.
pub open spec fn utilization(used: nat, allocatable: nat) -> nat {
    if allocatable == 0 {
        FULL as nat
    } else {
        (used * (FULL as nat) / allocatable) as nat
    }
}

/// The utilization of a node once it hosts the SLA on top of what it
/// uses and what is reserved on it: the higher of processor and memory.
pub open spec fn utilization_after(
    metrics: Metrics,
    reserved_cpu: nat,
    reserved_memory: nat,
    sla: SLA,
) -> nat {
    let cpu = utilization(
        (metrics.usage->0.cpu + reserved_cpu + sla.cpu_millicpu) as nat,
        metrics.allocatable->0.cpu as nat,
    );
    let memory = utilization(
        (metrics.usage->0.memory + reserved_memory + sla.ram_bytes) as nat,
        metrics.allocatable->0.memory as nat,
    );
    if cpu >= memory {
        cpu
    } else {
        memory
    }
}

/// The price of a bid at a given utilization.
pub open spec fn price_at(pricing: Pricing, utilization: nat) -> nat {
    (pricing.base() + pricing.alpha() * utilization / (FULL as nat)) as nat
}

/// The price at which a tracked node would host the SLA, or `None`
/// where it has no room for it beside what it uses and what the
/// records hold on it.
pub open spec fn offer_at(
    entries: Seq<TrackedNode>,
    records: Seq<BidRecord>,
    pricing: Pricing,
    sla: SLA,
    i: int,
) -> Option<nat> {
    let cpu = reserved_cpu(records, entries[i].name@);
    let memory = reserved_memory(records, entries[i].name@);
    if fits(entries[i].metrics, cpu, memory, sla) {
        Some(price_at(pricing, utilization_after(entries[i].metrics, cpu, memory, sla)))
    } else {
        None
    }
}

/// The best offer among the first `upto` tracked nodes: the position
/// and price of the node with the lowest price, the first of them
/// where several share it.
pub open spec fn best_offer(
    entries: Seq<TrackedNode>,
    records: Seq<BidRecord>,
    pricing: Pricing,
    sla: SLA,
    upto: int,
) -> Option<(int, nat)>
    decreases upto,
{
    if upto <= 0 {
        None
    } else {
        let before = best_offer(entries, records, pricing, sla, upto - 1);
        match offer_at(entries, records, pricing, sla, upto - 1) {
            None => before,
            Some(price) => match before {
                Some((_, lowest)) => if lowest <= price {
                    before
                } else {
                    Some((upto - 1, price))
                },
                None => Some((upto - 1, price)),
            },
        }
    }
}

/// The bid that a node makes for an SLA under a given identifier and at
/// a given time, or `None` where it makes none: the identifier is
/// already taken, or no tracked node has room. The bid is pending, is
/// priced at the best offer, and reserves the SLA's processor and
/// memory on the node of that offer.
pub open spec fn bid_placed(
    records: Seq<BidRecord>,
    entries: Seq<TrackedNode>,
    pricing: Pricing,
    sla: SLA,
    me: NodeId,
    id: BidId,
    now_ms: u64,
) -> Option<BidRecord> {
    if has_bid(records, id) {
        None
    } else {
        match best_offer(entries, records, pricing, sla, entries.len() as int) {
            None => None,
            Some((i, price)) => Some(
                BidRecord {
                    id,
                    sla,
                    price: price as u64,
                    node_id: me,
                    reservation: ResourceReservation {
                        node: entries[i].name,
                        cpu_millicpu: sla.cpu_millicpu,
                        ram_bytes: sla.ram_bytes,
                    },
                    status: BidStatus::Pending,
                    created_at_ms: now_ms,
                },
            ),
        }
    }
}

/// Whether what a cluster node uses and what the records hold on it
/// is within what the node can allocate. A node that is not tracked,
/// or whose usage or allocatable resources are unknown, has room for
/// nothing.
pub open spec fn within_capacity(
    entries: Seq<TrackedNode>,
    records: Seq<BidRecord>,
    node: Seq<char>,
) -> bool {
    &&& has_name(entries, node)
    &&& entries[index_of(entries, node)].metrics.usage matches Some(usage)
    &&& entries[index_of(entries, node)].metrics.allocatable matches Some(allocatable)
    &&& usage.cpu + reserved_cpu(records, node) <= allocatable.cpu
    &&& usage.memory + reserved_memory(records, node) <= allocatable.memory
}

/// Whether the bid of that identifier is pending.
pub open spec fn awaits_answer(records: Seq<BidRecord>, id: BidId) -> bool {
    has_bid(records, id) && records[bid_index(records, id)].status == BidStatus::Pending
}

/// Whether the bid of that identifier is accepted.
pub open spec fn is_accepted(records: Seq<BidRecord>, id: BidId) -> bool {
    has_bid(records, id) && records[bid_index(records, id)].status == BidStatus::Accepted
}

/// Whether a record is pending and older than the time to live.
pub open spec fn stale(record: BidRecord, now_ms: u64, ttl_ms: u64) -> bool {
    record.status == BidStatus::Pending && now_ms - record.created_at_ms > ttl_ms
}

/// The bids of this node, in the order in which they were made.
#[derive(Debug)]
pub struct AuctionRepository {
    records: Vec<BidRecord>,
}

impl View for AuctionRepository {
    type V = Seq<BidRecord>;

    closed spec fn view(&self) -> Seq<BidRecord> {
        self.records@
    }
}

proof fn lemma_reserved_step(records: Seq<BidRecord>, node: Seq<char>, i: int)
    requires
        0 <= i < records.len(),
    ensures
        reserved_cpu(records.take(i + 1), node) == reserved_cpu(records.take(i), node) + held_cpu(
            records[i],
            node,
        ),
        reserved_memory(records.take(i + 1), node) == reserved_memory(records.take(i), node)
            + held_memory(records[i], node),
{
    assert(records.take(i + 1).drop_last() =~= records.take(i));
    assert(records.take(i + 1).last() == records[i]);
}

/// A record that holds a reservation is part of what is reserved on
/// its cluster node.
pub proof fn lemma_reservation_counted(records: Seq<BidRecord>, i: int)
    requires
        0 <= i < records.len(),
        holds_reservation(records[i].status),
    ensures
        reserved_cpu(records, records[i].reservation.node@)
            >= records[i].reservation.cpu_millicpu,
        reserved_memory(records, records[i].reservation.node@) >= records[i].reservation.ram_bytes,
    decreases records.len(),
{
    if i < records.len() - 1 {
        assert(records.drop_last()[i] == records[i]);
        lemma_reservation_counted(records.drop_last(), i);
    }
}

/// A change of status moves what is reserved on every cluster node by
/// exactly what the record held before and holds after. So a
/// record that is cancelled or expires gives back what it held, and
/// nothing else moves.
pub proof fn lemma_status_change(
    records: Seq<BidRecord>,
    i: int,
    status: BidStatus,
    node: Seq<char>,
)
    requires
        0 <= i < records.len(),
    ensures
        reserved_cpu(records.update(i, with_status(records[i], status)), node) + held_cpu(
            records[i],
            node,
        ) == reserved_cpu(records, node) + held_cpu(with_status(records[i], status), node),
        reserved_memory(records.update(i, with_status(records[i], status)), node) + held_memory(
            records[i],
            node,
        ) == reserved_memory(records, node) + held_memory(
            with_status(records[i], status),
            node,
        ),
    decreases records.len(),
{
    let after = records.update(i, with_status(records[i], status));
    if i == records.len() - 1 {
        assert(after.drop_last() =~= records.drop_last());
    } else {
        assert(after.drop_last() =~= records.drop_last().update(
            i,
            with_status(records.drop_last()[i], status),
        ));
        lemma_status_change(records.drop_last(), i, status, node);
    }
}

/// Once a record that held a reservation is cancelled or expires, the
/// reservation is gone: what is reserved on its cluster node drops by
/// exactly what the record held, and the record holds nothing any more.
pub proof fn lemma_reservation_released(records: Seq<BidRecord>, i: int, status: BidStatus)
    requires
        0 <= i < records.len(),
        holds_reservation(records[i].status),
        !holds_reservation(status),
    ensures
        ({
            let node = records[i].reservation.node@;
            let after = records.update(i, with_status(records[i], status));
            &&& reserved_cpu(after, node) == reserved_cpu(records, node)
                - records[i].reservation.cpu_millicpu
            &&& reserved_memory(after, node) == reserved_memory(records, node)
                - records[i].reservation.ram_bytes
            &&& held_cpu(after[i], node) == 0
            &&& held_memory(after[i], node) == 0
        }),
{
    lemma_status_change(records, i, status, records[i].reservation.node@);
}

/// A reservation counts as used where bids are made: while a record
/// holds a reservation on a cluster node, that node offers to host an
/// SLA only if it can allocate what it uses, what the record holds and
/// what the SLA demands, all together.
pub proof fn lemma_reservation_is_used(
    entries: Seq<TrackedNode>,
    records: Seq<BidRecord>,
    pricing: Pricing,
    sla: SLA,
    i: int,
    k: int,
)
    requires
        0 <= i < entries.len(),
        0 <= k < records.len(),
        holds_reservation(records[k].status),
        records[k].reservation.node@ == entries[i].name@,
        offer_at(entries, records, pricing, sla, i) is Some,
    ensures
        entries[i].metrics.usage->0.cpu + records[k].reservation.cpu_millicpu + sla.cpu_millicpu
            <= entries[i].metrics.allocatable->0.cpu,
        entries[i].metrics.usage->0.memory + records[k].reservation.ram_bytes + sla.ram_bytes
            <= entries[i].metrics.allocatable->0.memory,
{
    lemma_reservation_counted(records, k);
}

/// A new record adds what it holds to what is reserved.
pub proof fn lemma_record_added(records: Seq<BidRecord>, record: BidRecord, node: Seq<char>)
    ensures
        reserved_cpu(records.push(record), node) == reserved_cpu(records, node) + held_cpu(
            record,
            node,
        ),
        reserved_memory(records.push(record), node) == reserved_memory(records, node)
            + held_memory(record, node),
{
    assert(records.push(record).drop_last() =~= records);
}

/// What the best offer is: the price of a node that has room, no
/// higher than the price of any other node that has room, and at the
/// first position among the nodes of that price. There is none
/// exactly when no node has room.
pub proof fn lemma_best_offer(
    entries: Seq<TrackedNode>,
    records: Seq<BidRecord>,
    pricing: Pricing,
    sla: SLA,
    upto: int,
)
    requires
        0 <= upto <= entries.len(),
    ensures
        match best_offer(entries, records, pricing, sla, upto) {
            Some((i, price)) => {
                &&& 0 <= i < upto
                &&& offer_at(entries, records, pricing, sla, i) == Some(price)
                &&& forall|j: int|
                    0 <= j < upto ==> (#[trigger] offer_at(entries, records, pricing, sla, j)
                        matches Some(other) ==> price <= other && (other == price ==> i <= j))
            },
            None => forall|j: int|
                0 <= j < upto ==> #[trigger] offer_at(entries, records, pricing, sla, j) is None,
        },
    decreases upto,
{
    if upto > 0 {
        lemma_best_offer(entries, records, pricing, sla, upto - 1);
    }
}

/// A higher utilization never gives a lower price.
pub proof fn lemma_price_grows(pricing: Pricing, lower: nat, higher: nat)
    requires
        lower <= higher,
    ensures
        price_at(pricing, lower) <= price_at(pricing, higher),
{
    let alpha = pricing.alpha();
    assert(alpha * lower <= alpha * higher) by (nonlinear_arith)
        requires
            lower <= higher,
    ;
    assert(alpha * lower / (FULL as nat) <= alpha * higher / (FULL as nat)) by (nonlinear_arith)
        requires
            alpha * lower <= alpha * higher,
    ;
}

/// Decides [`utilization`] of a resource that is not used beyond what
/// can be allocated.
fn utilization_of(used: u64, allocatable: u64) -> (u: u64)
    requires
        used <= allocatable,
    ensures
        u == utilization(used as nat, allocatable as nat),
        u <= FULL,
{
    if allocatable == 0 {
        FULL
    } else {
        assert(used * FULL <= allocatable * FULL) by (nonlinear_arith)
            requires
                used <= allocatable,
        ;
        assert((used * FULL) / (allocatable as int) <= FULL) by (nonlinear_arith)
            requires
                used * FULL <= allocatable * FULL,
                allocatable > 0,
        ;
        let scaled: u128 = used as u128 * FULL as u128;
        (scaled / allocatable as u128) as u64
    }
}

/// Decides [`offer_at`] for one node, given what is reserved on it.
fn offer(
    pricing: &Pricing,
    metrics: &Metrics,
    reserved_cpu: u128,
    reserved_memory: u128,
    sla: &SLA,
) -> (r: Option<Money>)
    ensures
        match r {
            Some(price) => fits(*metrics, reserved_cpu as nat, reserved_memory as nat, *sla)
                && price == price_at(
                *pricing,
                utilization_after(*metrics, reserved_cpu as nat, reserved_memory as nat, *sla),
            ),
            None => !fits(*metrics, reserved_cpu as nat, reserved_memory as nat, *sla),
        },
{
    if reserved_cpu > u64::MAX as u128 || reserved_memory > u64::MAX as u128 {
        return None;
    }
    let held_cpu = reserved_cpu as u64;
    let held_memory = reserved_memory as u64;
    if !metrics_fit(metrics, held_cpu, held_memory, sla) {
        return None;
    }
    match (metrics.usage, metrics.allocatable) {
        (Some(usage), Some(allocatable)) => {
            let cpu = utilization_of(usage.cpu + held_cpu + sla.cpu_millicpu, allocatable.cpu);
            let memory = utilization_of(
                usage.memory + held_memory + sla.ram_bytes,
                allocatable.memory,
            );
            let highest = if cpu >= memory {
                cpu
            } else {
                memory
            };
            proof {
                use_type_invariant(pricing);
                let alpha = pricing.alpha as nat;
                let u = highest as nat;
                assert(alpha * u <= alpha * (FULL as nat)) by (nonlinear_arith)
                    requires
                        u <= FULL as nat,
                ;
                assert(alpha * u / (FULL as nat) <= alpha) by (nonlinear_arith)
                    requires
                        alpha * u <= alpha * (FULL as nat),
                ;
                assert(alpha * u <= 0xffff_ffff_ffff_ffff * 1_000_000) by (nonlinear_arith)
                    requires
                        alpha <= 0xffff_ffff_ffff_ffff,
                        u <= 1_000_000,
                ;
            }
            let share: u128 = pricing.alpha as u128 * highest as u128 / FULL as u128;
            Some(pricing.base + share as u64)
        },
        _ => None,
    }
}

impl AuctionRepository {
    /// No identifier is recorded twice.
    pub open spec fn wf(&self) -> bool {
        distinct_ids(self@)
    }

    /// A repository of no bids.
    pub fn new() -> (repository: AuctionRepository)
        ensures
            repository.wf(),
            repository@ == Seq::<BidRecord>::empty(),
    {
        AuctionRepository { records: Vec::new() }
    }

    /// How many bids are recorded.
    pub fn len(&self) -> (n: usize)
        ensures
            n == self@.len(),
    {
        self.records.len()
    }

    /// The position of the bid with the given identifier.
    pub fn find(&self, id: BidId) -> (r: Option<usize>)
        requires
            self.wf(),
        ensures
            match r {
                Some(i) => has_bid(self@, id) && i == bid_index(self@, id) && i < self@.len()
                    && self@[i as int].id == id,
                None => !has_bid(self@, id),
            },
    {
        let mut i: usize = 0;
        while i < self.records.len()
            invariant
                self.wf(),
                i <= self.records.len(),
                forall|j: int| 0 <= j < i ==> (#[trigger] self.records@[j]).id != id,
            decreases self.records.len() - i,
        {
            if self.records[i].id == id {
                assert(self@[i as int].id == id);
                return Some(i);
            }
            i = i + 1;
        }
        None
    }

    /// The bid with the given identifier.
    pub fn get(&self, id: BidId) -> (r: Option<&BidRecord>)
        requires
            self.wf(),
        ensures
            match r {
                Some(record) => has_bid(self@, id) && *record == self@[bid_index(self@, id)],
                None => !has_bid(self@, id),
            },
    {
        match self.find(id) {
            Some(i) => Some(&self.records[i]),
            None => None,
        }
    }

    /// What the bids hold on a cluster node: millicpu and bytes.
    pub fn reserved(&self, node: &String) -> (r: (u128, u128))
        ensures
            r.0 == reserved_cpu(self@, node@),
            r.1 == reserved_memory(self@, node@),
            r.0 <= self@.len() * 0xffff_ffff_ffff_ffff,
            r.1 <= self@.len() * 0xffff_ffff_ffff_ffff,
    {
        let mut cpu: u128 = 0;
        let mut memory: u128 = 0;
        let mut i: usize = 0;
        proof {
            assert(self.records@.take(0) =~= Seq::<BidRecord>::empty());
        }
        while i < self.records.len()
            invariant
                i <= self.records.len(),
                cpu == reserved_cpu(self.records@.take(i as int), node@),
                memory == reserved_memory(self.records@.take(i as int), node@),
                cpu <= i * 0xffff_ffff_ffff_ffff,
                memory <= i * 0xffff_ffff_ffff_ffff,
            decreases self.records.len() - i,
        {
            proof {
                lemma_reserved_step(self.records@, node@, i as int);
            }
            let record = &self.records[i];
            let holds = match record.status {
                BidStatus::Pending => true,
                BidStatus::Accepted => true,
                _ => false,
            };
            if holds && record.reservation.node == *node {
                cpu = cpu + record.reservation.cpu_millicpu as u128;
                memory = memory + record.reservation.ram_bytes as u128;
            }
            i = i + 1;
        }
        proof {
            assert(self.records@.take(self.records@.len() as int) =~= self.records@);
        }
        (cpu, memory)
    }

    /// Replaces the status of the record at a position.
    fn set_status(&mut self, i: usize, status: BidStatus)
        requires
            old(self).wf(),
            i < old(self)@.len(),
        ensures
            final(self).wf(),
            final(self)@ == old(self)@.update(i as int, with_status(old(self)@[i as int], status)),
    {
        let record = &self.records[i];
        let changed = BidRecord {
            id: record.id,
            sla: record.sla,
            price: record.price,
            node_id: record.node_id,
            reservation: record.reservation.clone(),
            status,
            created_at_ms: record.created_at_ms,
        };
        self.records.set(i, changed);
        proof {
            let before = old(self)@;
            let after = self@;
            assert forall|a: int, b: int|
                0 <= a < after.len() && 0 <= b < after.len() && (#[trigger] after[a]).id == (
                #[trigger] after[b]).id implies a == b by {
                assert(after[a].id == before[a].id);
                assert(after[b].id == before[b].id);
            }
        }
    }

    /// Whether what a cluster node uses and what the bids hold on it is
    /// within what the node can allocate.
    fn node_within_capacity(&self, tracker: &ResourceTracker, node: &String) -> (b: bool)
        requires
            tracker.wf(),
        ensures
            b == within_capacity(tracker.entries(), self@, node@),
    {
        match tracker.find(node) {
            Some(i) => {
                let metrics = tracker.node(i).metrics;
                let (cpu, memory) = self.reserved(node);
                let count = self.records.len();
                match (metrics.usage, metrics.allocatable) {
                    (Some(usage), Some(allocatable)) => {
                        assert(self@.len() * 0xffff_ffff_ffff_ffff <= 0xffff_ffff_ffff_ffff
                            * 0xffff_ffff_ffff_ffff) by (nonlinear_arith)
                            requires
                                self@.len() == count,
                                count <= 0xffff_ffff_ffff_ffff,
                        ;
                        usage.cpu as u128 + cpu <= allocatable.cpu as u128 && usage.memory as u128
                            + memory <= allocatable.memory as u128
                    },
                    _ => false,
                }
            },
            None => false,
        }
    }

    /// Makes the bid for an SLA under a given identifier, as
    /// [`bid_placed`] says, and records it. Nothing is recorded where
    /// no bid is made.
    pub fn place_bid(
        &mut self,
        sla: &SLA,
        tracker: &ResourceTracker,
        pricing: &Pricing,
        me: NodeId,
        id: BidId,
        now_ms: u64,
    ) -> (r: Option<BidRecord>)
        requires
            old(self).wf(),
        ensures
            final(self).wf(),
            r == bid_placed(old(self)@, tracker.entries(), *pricing, *sla, me, id, now_ms),
            final(self)@ == match r {
                Some(record) => old(self)@.push(record),
                None => old(self)@,
            },
    {
        if self.find(id).is_some() {
            return None;
        }
        let mut best: Option<(usize, Money)> = None;
        let mut i: usize = 0;
        while i < tracker.len()
            invariant
                i <= tracker.entries().len(),
                match best {
                    Some((at, price)) => best_offer(tracker.entries(), self@, *pricing, *sla, i as int)
                        == Some((at as int, price as nat)) && at < i,
                    None => best_offer(tracker.entries(), self@, *pricing, *sla, i as int) is None,
                },
            decreases tracker.entries().len() - i,
        {
            let node = tracker.node(i);
            let (cpu, memory) = self.reserved(&node.name);
            match offer(pricing, &node.metrics, cpu, memory, sla) {
                Some(price) => {
                    match best {
                        Some((_, lowest)) => {
                            if lowest > price {
                                best = Some((i, price));
                            }
                        },
                        None => {
                            best = Some((i, price));
                        },
                    }
                },
                None => {},
            }
            i = i + 1;
        }
        match best {
            Some((at, price)) => {
                let record = BidRecord {
                    id,
                    sla: *sla,
                    price,
                    node_id: me,
                    reservation: ResourceReservation {
                        node: tracker.node(at).name.clone(),
                        cpu_millicpu: sla.cpu_millicpu,
                        ram_bytes: sla.ram_bytes,
                    },
                    status: BidStatus::Pending,
                    created_at_ms: now_ms,
                };
                let answer = record.clone();
                self.records.push(record);
                proof {
                    let before = old(self)@;
                    let after = self@;
                    assert forall|a: int, b: int|
                        0 <= a < after.len() && 0 <= b < after.len() && (#[trigger] after[a]).id
                            == (#[trigger] after[b]).id implies a == b by {
                        if a < before.len() {
                            assert(after[a] == before[a]);
                        }
                        if b < before.len() {
                            assert(after[b] == before[b]);
                        }
                    }
                }
                Some(answer)
            },
            None => None,
        }
    }

    /// Decides locally whether this node bids for an SLA, and makes the
    /// bid: [`Self::place_bid`] under an identifier drawn at random,
    /// which is never the all-zero one.
    pub fn bid_on(
        &mut self,
        sla: &SLA,
        tracker: &ResourceTracker,
        pricing: &Pricing,
        me: NodeId,
        now_ms: u64,
    ) -> (r: Option<BidRecord>)
        requires
            old(self).wf(),
        ensures
            final(self).wf(),
            exists|id: BidId|
                id.value != 0 && r == #[trigger] bid_placed(
                    old(self)@,
                    tracker.entries(),
                    *pricing,
                    *sla,
                    me,
                    id,
                    now_ms,
                ),
            final(self)@ == match r {
                Some(record) => old(self)@.push(record),
                None => old(self)@,
            },
    {
        let id = BidId::generate();
        self.place_bid(sla, tracker, pricing, me, id, now_ms)
    }

    /// Answers the acceptance of a bid by the market.
    ///
    /// Only a pending bid can be accepted: for any other identifier
    /// nothing changes. The reservation is then checked against the
    /// cluster as it is now. Where the bid's cluster node still has
    /// room for all that is held on it, the bid becomes accepted and
    /// the SLA to deploy comes back. Where it has not, the bid is
    /// cancelled, which frees its reservation.
    pub fn provision_from_bid(&mut self, id: BidId, tracker: &ResourceTracker) -> (r: Result<
        SLA,
        Error,
    >)
        requires
            old(self).wf(),
            tracker.wf(),
        ensures
            final(self).wf(),
            !awaits_answer(old(self)@, id) ==> (r matches Err(Error::UnknownOrStaleBid))
                && final(self)@ == old(self)@,
            awaits_answer(old(self)@, id) ==> {
                let i = bid_index(old(self)@, id);
                let record = old(self)@[i];
                if within_capacity(tracker.entries(), old(self)@, record.reservation.node@) {
                    r == Ok::<SLA, Error>(record.sla) && final(self)@ == old(self)@.update(
                        i,
                        with_status(record, BidStatus::Accepted),
                    )
                } else {
                    (r matches Err(Error::Overcommitted)) && final(self)@ == old(self)@.update(
                        i,
                        with_status(record, BidStatus::Cancelled),
                    )
                }
            },
    {
        let i = match self.find(id) {
            Some(i) => i,
            None => {
                return Err(Error::UnknownOrStaleBid);
            },
        };
        match self.records[i].status {
            BidStatus::Pending => {},
            _ => {
                return Err(Error::UnknownOrStaleBid);
            },
        }
        let sla = self.records[i].sla;
        let fits_still = self.node_within_capacity(tracker, &self.records[i].reservation.node);
        if fits_still {
            self.set_status(i, BidStatus::Accepted);
            Ok(sla)
        } else {
            self.set_status(i, BidStatus::Cancelled);
            Err(Error::Overcommitted)
        }
    }

    /// Takes note of what the backend answered to the deployment of an
    /// accepted bid.
    ///
    /// A deployed function is recorded as provisioned under the bid's
    /// identifier, with the bid's SLA, and the bid stays accepted. A
    /// failed deployment cancels the bid, which frees its reservation,
    /// and comes back as the error. For an identifier that is not an
    /// accepted bid nothing changes.
    pub fn conclude_provision(
        &mut self,
        provisioned: &mut ProvisionedRepository,
        id: BidId,
        outcome: Result<String, faas::Error>,
    ) -> (r: Result<(), Error>)
        requires
            old(self).wf(),
        ensures
            final(self).wf(),
            !is_accepted(old(self)@, id) ==> (r matches Err(Error::UnknownOrStaleBid))
                && final(self)@ == old(self)@ && final(provisioned)@ == old(provisioned)@,
            is_accepted(old(self)@, id) ==> {
                let i = bid_index(old(self)@, id);
                let record = old(self)@[i];
                match outcome {
                    Ok(name) => {
                        &&& r is Ok
                        &&& final(self)@ == old(self)@
                        &&& final(provisioned)@ == old(provisioned)@.insert(
                            id.value,
                            ProvisionedFunction { name, sla: record.sla },
                        )
                    },
                    Err(e) => {
                        &&& r == Err::<(), Error>(Error::DeployFailed(e))
                        &&& final(self)@ == old(self)@.update(
                            i,
                            with_status(record, BidStatus::Cancelled),
                        )
                        &&& final(provisioned)@ == old(provisioned)@
                    },
                }
            },
    {
        let i = match self.find(id) {
            Some(i) => i,
            None => {
                return Err(Error::UnknownOrStaleBid);
            },
        };
        match self.records[i].status {
            BidStatus::Accepted => {},
            _ => {
                return Err(Error::UnknownOrStaleBid);
            },
        }
        match outcome {
            Ok(name) => {
                let sla = self.records[i].sla;
                provisioned.record(id, ProvisionedFunction { name, sla });
                Ok(())
            },
            Err(e) => {
                self.set_status(i, BidStatus::Cancelled);
                Err(Error::DeployFailed(e))
            },
        }
    }

    /// Cancels a pending bid, which frees its reservation. Returns
    /// whether there was such a bid; nothing changes if there was not.
    pub fn cancel(&mut self, id: BidId) -> (cancelled: bool)
        requires
            old(self).wf(),
        ensures
            final(self).wf(),
            cancelled == awaits_answer(old(self)@, id),
            final(self)@ == if cancelled {
                old(self)@.update(
                    bid_index(old(self)@, id),
                    with_status(old(self)@[bid_index(old(self)@, id)], BidStatus::Cancelled),
                )
            } else {
                old(self)@
            },
    {
        match self.find(id) {
            Some(i) => match self.records[i].status {
                BidStatus::Pending => {
                    self.set_status(i, BidStatus::Cancelled);
                    true
                },
                _ => false,
            },
            None => false,
        }
    }

    /// Cancels every pending bid that is older than the time to live,
    /// which frees its reservation. No other bid changes.
    pub fn expire(&mut self, now_ms: u64, ttl_ms: u64)
        requires
            old(self).wf(),
        ensures
            final(self).wf(),
            final(self)@.len() == old(self)@.len(),
            forall|i: int|
                0 <= i < old(self)@.len() ==> #[trigger] final(self)@[i] == if stale(
                    old(self)@[i],
                    now_ms,
                    ttl_ms,
                ) {
                    with_status(old(self)@[i], BidStatus::Cancelled)
                } else {
                    old(self)@[i]
                },
            forall|i: int|
                0 <= i < final(self)@.len() ==> !stale(#[trigger] final(self)@[i], now_ms, ttl_ms),
    {
        let mut i: usize = 0;
        while i < self.records.len()
            invariant
                self.wf(),
                self@.len() == old(self)@.len(),
                i <= self@.len(),
                forall|j: int|
                    0 <= j < i ==> #[trigger] self@[j] == if stale(old(self)@[j], now_ms, ttl_ms) {
                        with_status(old(self)@[j], BidStatus::Cancelled)
                    } else {
                        old(self)@[j]
                    },
                forall|j: int| i <= j < self@.len() ==> #[trigger] self@[j] == old(self)@[j],
            decreases self@.len() - i,
        {
            let record = &self.records[i];
            let pending = match record.status {
                BidStatus::Pending => true,
                _ => false,
            };
            if pending && now_ms > record.created_at_ms && now_ms - record.created_at_ms > ttl_ms {
                self.set_status(i, BidStatus::Cancelled);
            }
            i = i + 1;
        }
    }
}

} // verus!
