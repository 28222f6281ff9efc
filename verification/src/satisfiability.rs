//! Resource telemetry of the cluster and the affordability of an SLA.
//!
//! The cluster adapter hands over two lists as it received them: the
//! usage that the metrics service reports for each node, and the nodes
//! with what each can allocate. This module parses the quantities,
//! joins the two lists by node name and decides whether some node can
//! still take the resources that an SLA demands.

use crate::quantity::{parse_quantity, parsed_quantity, Dimension};
use crate::sla::SLA;
use vstd::prelude::*;

verus! {

/// What can go wrong while the cluster's resources are read.
#[derive(Debug)]
pub enum Error {
    /// The cluster adapter could not be reached; the text is its message.
    Kube(String),
    /// The cluster's answer lacks the named key.
    MissingKey(&'static str),
    /// The text is not a quantity; it is carried unchanged.
    QuantityParsing(String),
}

/// An [`Error`] with its texts as character sequences.
pub enum ErrorView {
    Kube(Seq<char>),
    MissingKey(&'static str),
    QuantityParsing(Seq<char>),
}

impl View for Error {
    type V = ErrorView;

    open spec fn view(&self) -> ErrorView {
        match self {
            Error::Kube(message) => ErrorView::Kube(message@),
            Error::MissingKey(key) => ErrorView::MissingKey(*key),
            Error::QuantityParsing(text) => ErrorView::QuantityParsing(text@),
        }
    }
}

/// What a node can allocate: millicpu and bytes.
#[derive(Clone, Copy, Debug, PartialEq, Eq, Structural)]
pub struct Allocatable {
    pub cpu: u64,
    pub memory: u64,
}

/// What a node currently uses: millicpu and bytes.
#[derive(Clone, Copy, Debug, PartialEq, Eq, Structural)]
pub struct Usage {
    pub cpu: u64,
    pub memory: u64,
}

/// What is known of one node. Usage comes first; what the node can
/// allocate is added once the node list has been read.
#[derive(Clone, Copy, Debug, PartialEq, Eq, Structural)]
pub struct Metrics {
    pub usage: Option<Usage>,
    pub allocatable: Option<Allocatable>,
}

/// One node of the metrics service's answer, quantities still as text.
#[derive(Debug)]
pub struct NodeMetricsReport {
    pub name: Option<String>,
    pub cpu: String,
    pub memory: String,
}

/// One named quantity of a node's status.
#[derive(Debug)]
pub struct ResourceEntry {
    pub key: String,
    pub quantity: String,
}

/// The status of a node, as far as it is read here.
#[derive(Debug)]
pub struct NodeStatusReport {
    pub allocatable: Option<Vec<ResourceEntry>>,
}

/// One node of the cluster's node list.
#[derive(Debug)]
pub struct NodeReport {
    pub name: Option<String>,
    pub status: Option<NodeStatusReport>,
}

/// A node of the cluster with what is known of it.
#[derive(Debug)]
pub struct TrackedNode {
    pub name: String,
    pub metrics: Metrics,
}

/// Whether a node with these metrics, of which `reserved_cpu` millicpu
/// and `reserved_memory` bytes are promised to open bids, can take the
/// demand of `sla` on top: allocatable minus used minus reserved minus
/// demanded is not negative, for processor and for memory.
pub open spec fn fits(metrics: Metrics, reserved_cpu: nat, reserved_memory: nat, sla: SLA) -> bool {
    &&& metrics.usage matches Some(usage)
    &&& metrics.allocatable matches Some(allocatable)
    &&& usage.cpu + reserved_cpu + sla.cpu_millicpu <= allocatable.cpu
    &&& usage.memory + reserved_memory + sla.ram_bytes <= allocatable.memory
}

/// Whether some entry carries the name.
pub open spec fn has_name(entries: Seq<TrackedNode>, name: Seq<char>) -> bool {
    exists|i: int| 0 <= i < entries.len() && (#[trigger] entries[i]).name@ == name
}

/// The position of an entry that carries the name.
pub open spec fn index_of(entries: Seq<TrackedNode>, name: Seq<char>) -> int {
    choose|i: int| 0 <= i < entries.len() && (#[trigger] entries[i]).name@ == name
}

/// No two entries carry the same name.
pub open spec fn distinct_names(entries: Seq<TrackedNode>) -> bool {
    forall|i: int, j: int|
        0 <= i < entries.len() && 0 <= j < entries.len() && (#[trigger] entries[i]).name@ == (
        #[trigger] entries[j]).name@ ==> i == j
}

/// The entries after usage has been reported under a name: a known
/// name keeps its place and has its metrics replaced by the usage
/// alone; a new name is added at the end.
pub open spec fn with_usage(entries: Seq<TrackedNode>, name: String, usage: Usage) -> Seq<
    TrackedNode,
> {
    let metrics = Metrics { usage: Some(usage), allocatable: None };
    if has_name(entries, name@) {
        let i = index_of(entries, name@);
        entries.update(i, TrackedNode { name: entries[i].name, metrics })
    } else {
        entries.push(TrackedNode { name, metrics })
    }
}

/// The entries after a known name has been given what it can allocate.
pub open spec fn with_allocatable(
    entries: Seq<TrackedNode>,
    name: Seq<char>,
    allocatable: Allocatable,
) -> Seq<TrackedNode> {
    let i = index_of(entries, name);
    entries.update(
        i,
        TrackedNode {
            name: entries[i].name,
            metrics: Metrics { usage: entries[i].metrics.usage, allocatable: Some(allocatable) },
        },
    )
}

/// Whether some entry can take the demand of the SLA.
pub open spec fn can_host(entries: Seq<TrackedNode>, sla: SLA) -> bool {
    exists|i: int| 0 <= i < entries.len() && fits((#[trigger] entries[i]).metrics, 0, 0, sla)
}

/// The usage that one report of the metrics service states. A report
/// without a name fails first, then a processor quantity that cannot
/// be read, then a memory quantity.
pub open spec fn reported_usage(report: NodeMetricsReport) -> Result<Usage, ErrorView> {
    if report.name is None {
        Err(ErrorView::MissingKey("metadata:name"))
    } else if parsed_quantity(report.cpu@, Dimension::Cpu) is None {
        Err(ErrorView::QuantityParsing(report.cpu@))
    } else if parsed_quantity(report.memory@, Dimension::Memory) is None {
        Err(ErrorView::QuantityParsing(report.memory@))
    } else {
        Ok(
            Usage {
                cpu: parsed_quantity(report.cpu@, Dimension::Cpu)->0,
                memory: parsed_quantity(report.memory@, Dimension::Memory)->0,
            },
        )
    }
}

/// The quantity text of the first entry with the given key.
pub open spec fn entry_quantity(entries: Seq<ResourceEntry>, key: Seq<char>) -> Option<Seq<char>>
    decreases entries.len(),
{
    if entries.len() == 0 {
        None
    } else if entries[0].key@ == key {
        Some(entries[0].quantity@)
    } else {
        entry_quantity(entries.skip(1), key)
    }
}

/// What one node of the node list can allocate, given the names that
/// usage was reported for. The checks fail in this order: no status, no
/// allocatable resources, no name, no `cpu` entry, no `memory` entry, a
/// processor quantity that cannot be read, a memory quantity that
/// cannot be read, a name that no usage was reported for.
pub open spec fn reported_allocatable(node: NodeReport, known: Seq<TrackedNode>) -> Result<
    Allocatable,
    ErrorView,
> {
    if node.status is None {
        Err(ErrorView::MissingKey("node_status"))
    } else if node.status->0.allocatable is None {
        Err(ErrorView::MissingKey("allocatable"))
    } else if node.name is None {
        Err(ErrorView::MissingKey("metadata:name"))
    } else {
        let entries = node.status->0.allocatable->0@;
        let cpu = entry_quantity(entries, "cpu"@);
        let memory = entry_quantity(entries, "memory"@);
        if cpu is None {
            Err(ErrorView::MissingKey("cpu"))
        } else if memory is None {
            Err(ErrorView::MissingKey("memory"))
        } else if parsed_quantity(cpu->0, Dimension::Cpu) is None {
            Err(ErrorView::QuantityParsing(cpu->0))
        } else if parsed_quantity(memory->0, Dimension::Memory) is None {
            Err(ErrorView::QuantityParsing(memory->0))
        } else if !has_name(known, node.name->0@) {
            Err(ErrorView::MissingKey("metadata:name"))
        } else {
            Ok(
                Allocatable {
                    cpu: parsed_quantity(cpu->0, Dimension::Cpu)->0,
                    memory: parsed_quantity(memory->0, Dimension::Memory)->0,
                },
            )
        }
    }
}

/// The entries that a list of usage reports leaves, read in order, or
/// the failure of the first report that fails.
pub open spec fn usage_collected(reports: Seq<NodeMetricsReport>) -> Result<
    Seq<TrackedNode>,
    ErrorView,
>
    decreases reports.len(),
{
    if reports.len() == 0 {
        Ok(Seq::empty())
    } else {
        match usage_collected(reports.drop_last()) {
            Err(e) => Err(e),
            Ok(entries) => match reported_usage(reports.last()) {
                Err(e) => Err(e),
                Ok(usage) => Ok(with_usage(entries, reports.last().name->0, usage)),
            },
        }
    }
}

/// The entries after a node list has been read in order on top of
/// `entries`, or the failure of the first node that fails.
pub open spec fn allocatable_collected(entries: Seq<TrackedNode>, nodes: Seq<NodeReport>) -> Result<
    Seq<TrackedNode>,
    ErrorView,
>
    decreases nodes.len(),
{
    if nodes.len() == 0 {
        Ok(entries)
    } else {
        match allocatable_collected(entries, nodes.drop_last()) {
            Err(e) => Err(e),
            Ok(joined) => match reported_allocatable(nodes.last(), joined) {
                Err(e) => Err(e),
                Ok(allocatable) => Ok(with_allocatable(joined, nodes.last().name->0@, allocatable)),
            },
        }
    }
}

/// What the two lists of the cluster adapter amount to.
pub open spec fn cluster_state(reports: Seq<NodeMetricsReport>, nodes: Seq<NodeReport>) -> Result<
    Seq<TrackedNode>,
    ErrorView,
> {
    match usage_collected(reports) {
        Err(e) => Err(e),
        Ok(entries) => allocatable_collected(entries, nodes),
    }
}

/// The nodes of the cluster, each under its name, in the order in
/// which their names were first reported.
#[derive(Debug)]
pub struct ResourceTracker {
    nodes: Vec<TrackedNode>,
}

impl ResourceTracker {
    /// The tracked nodes, in order.
    pub closed spec fn entries(&self) -> Seq<TrackedNode> {
        self.nodes@
    }

    /// No name is tracked twice.
    pub open spec fn wf(&self) -> bool {
        distinct_names(self.entries())
    }

    /// A tracker of no nodes.
    pub fn new() -> (tracker: ResourceTracker)
        ensures
            tracker.wf(),
            tracker.entries() == Seq::<TrackedNode>::empty(),
    {
        ResourceTracker { nodes: Vec::new() }
    }

    /// How many nodes are tracked.
    pub fn len(&self) -> (n: usize)
        ensures
            n == self.entries().len(),
    {
        self.nodes.len()
    }

    /// The node at a position.
    pub fn node(&self, i: usize) -> (node: &TrackedNode)
        requires
            i < self.entries().len(),
        ensures
            *node == self.entries()[i as int],
    {
        &self.nodes[i]
    }

    /// The position of the node with the given name.
    pub fn find(&self, name: &String) -> (r: Option<usize>)
        requires
            self.wf(),
        ensures
            match r {
                Some(i) => has_name(self.entries(), name@) && i == index_of(
                    self.entries(),
                    name@,
                ) && i < self.entries().len() && self.entries()[i as int].name@ == name@,
                None => !has_name(self.entries(), name@),
            },
    {
        let mut i: usize = 0;
        while i < self.nodes.len()
            invariant
                self.wf(),
                i <= self.nodes.len(),
                forall|j: int| 0 <= j < i ==> (#[trigger] self.nodes@[j]).name@ != name@,
            decreases self.nodes.len() - i,
        {
            if self.nodes[i].name == *name {
                assert(self.entries()[i as int].name@ == name@);
                return Some(i);
            }
            i = i + 1;
        }
        None
    }

    /// Records the usage reported under a name, as [`with_usage`] says.
    pub fn record_usage(&mut self, name: String, usage: Usage)
        requires
            old(self).wf(),
        ensures
            final(self).wf(),
            final(self).entries() == with_usage(old(self).entries(), name, usage),
    {
        let metrics = Metrics { usage: Some(usage), allocatable: None };
        proof {
            lemma_with_usage_distinct(self.entries(), name, usage);
        }
        match self.find(&name) {
            Some(i) => {
                let kept = self.nodes[i].name.clone();
                self.nodes.set(i, TrackedNode { name: kept, metrics });
            },
            None => {
                self.nodes.push(TrackedNode { name, metrics });
            },
        }
    }

    /// Records what the node of a known name can allocate, as
    /// [`with_allocatable`] says. Returns whether the name is known;
    /// nothing changes if it is not.
    pub fn record_allocatable(&mut self, name: &String, allocatable: Allocatable) -> (known: bool)
        requires
            old(self).wf(),
        ensures
            final(self).wf(),
            known == has_name(old(self).entries(), name@),
            known ==> final(self).entries() == with_allocatable(
                old(self).entries(),
                name@,
                allocatable,
            ),
            !known ==> final(self).entries() == old(self).entries(),
    {
        match self.find(name) {
            Some(i) => {
                let kept = self.nodes[i].name.clone();
                let usage = self.nodes[i].metrics.usage;
                self.nodes.set(
                    i,
                    TrackedNode {
                        name: kept,
                        metrics: Metrics { usage, allocatable: Some(allocatable) },
                    },
                );
                true
            },
            None => false,
        }
    }

    /// What is still free on the node of the given name: millicpu and
    /// bytes, each what the node can allocate less what it uses, and
    /// zero where it uses more than it can allocate. `None` for a name
    /// that is not tracked or whose usage or allocatable resources
    /// are not known.
    pub fn available(&self, name: &String) -> (r: Option<(u64, u64)>)
        requires
            self.wf(),
        ensures
            match r {
                Some((cpu, memory)) => {
                    &&& has_name(self.entries(), name@)
                    &&& self.entries()[index_of(self.entries(), name@)].metrics.usage matches Some(
                        usage,
                    )
                    &&& self.entries()[index_of(
                        self.entries(),
                        name@,
                    )].metrics.allocatable matches Some(allocatable)
                    &&& cpu == if usage.cpu <= allocatable.cpu {
                        allocatable.cpu - usage.cpu
                    } else {
                        0
                    }
                    &&& memory == if usage.memory <= allocatable.memory {
                        allocatable.memory - usage.memory
                    } else {
                        0
                    }
                },
                None => !has_name(self.entries(), name@) || self.entries()[index_of(
                    self.entries(),
                    name@,
                )].metrics.usage is None || self.entries()[index_of(
                    self.entries(),
                    name@,
                )].metrics.allocatable is None,
            },
    {
        match self.find(name) {
            Some(i) => {
                let metrics = self.nodes[i].metrics;
                match (metrics.usage, metrics.allocatable) {
                    (Some(usage), Some(allocatable)) => {
                        let cpu = if usage.cpu <= allocatable.cpu {
                            allocatable.cpu - usage.cpu
                        } else {
                            0
                        };
                        let memory = if usage.memory <= allocatable.memory {
                            allocatable.memory - usage.memory
                        } else {
                            0
                        };
                        Some((cpu, memory))
                    },
                    _ => None,
                }
            },
            None => None,
        }
    }

    /// Whether some tracked node can take the demand of the SLA.
    pub fn can_host(&self, sla: &SLA) -> (b: bool)
        ensures
            b == can_host(self.entries(), *sla),
    {
        let mut i: usize = 0;
        while i < self.nodes.len()
            invariant
                i <= self.nodes.len(),
                forall|j: int| 0 <= j < i ==> !fits((#[trigger] self.nodes@[j]).metrics, 0, 0, *sla),
            decreases self.nodes.len() - i,
        {
            if metrics_fit(&self.nodes[i].metrics, 0, 0, sla) {
                return true;
            }
            i = i + 1;
        }
        false
    }
}

/// Decides [`fits`].
pub fn metrics_fit(metrics: &Metrics, reserved_cpu: u64, reserved_memory: u64, sla: &SLA) -> (b:
    bool)
    ensures
        b == fits(*metrics, reserved_cpu as nat, reserved_memory as nat, *sla),
{
    match (metrics.usage, metrics.allocatable) {
        (Some(usage), Some(allocatable)) => {
            let cpu: u128 = usage.cpu as u128 + reserved_cpu as u128 + sla.cpu_millicpu as u128;
            let memory: u128 = usage.memory as u128 + reserved_memory as u128
                + sla.ram_bytes as u128;
            cpu <= allocatable.cpu as u128 && memory <= allocatable.memory as u128
        },
        _ => false,
    }
}

/// The quantity text of the first entry with the given key.
fn lookup<'a>(entries: &'a Vec<ResourceEntry>, key: &str) -> (r: Option<&'a String>)
    ensures
        match r {
            Some(quantity) => entry_quantity(entries@, key@) == Some(quantity@),
            None => entry_quantity(entries@, key@) is None,
        },
{
    let wanted = key.to_owned();
    let mut i: usize = 0;
    proof {
        assert(entries@.skip(0) =~= entries@);
    }
    while i < entries.len()
        invariant
            i <= entries.len(),
            wanted@ == key@,
            entry_quantity(entries@, key@) == entry_quantity(entries@.skip(i as int), key@),
        decreases entries.len() - i,
    {
        proof {
            assert(entries@.skip(i as int)[0] == entries@[i as int]);
            assert(entries@.skip(i as int).skip(1) =~= entries@.skip(i + 1));
        }
        if entries[i].key == wanted {
            return Some(&entries[i].quantity);
        }
        i = i + 1;
    }
    None
}

/// Reads one report of the metrics service: the node's name and usage.
fn read_usage(report: &NodeMetricsReport) -> (r: Result<(String, Usage), Error>)
    ensures
        match r {
            Ok((name, usage)) => reported_usage(*report) == Ok::<Usage, ErrorView>(usage)
                && report.name == Some(name),
            Err(e) => reported_usage(*report) == Err::<Usage, ErrorView>(e@),
        },
{
    let name = match &report.name {
        Some(name) => name.clone(),
        None => {
            return Err(Error::MissingKey("metadata:name"));
        },
    };
    let cpu = match parse_quantity(report.cpu.as_str(), Dimension::Cpu) {
        Ok(cpu) => cpu,
        Err(e) => {
            return Err(e);
        },
    };
    let memory = match parse_quantity(report.memory.as_str(), Dimension::Memory) {
        Ok(memory) => memory,
        Err(e) => {
            return Err(e);
        },
    };
    Ok((name, Usage { cpu, memory }))
}

/// Reads what one node of the node list can allocate.
fn read_allocatable(node: &NodeReport, tracker: &ResourceTracker) -> (r: Result<
    Allocatable,
    Error,
>)
    requires
        tracker.wf(),
    ensures
        match r {
            Ok(allocatable) => reported_allocatable(*node, tracker.entries()) == Ok::<
                Allocatable,
                ErrorView,
            >(allocatable),
            Err(e) => reported_allocatable(*node, tracker.entries()) == Err::<
                Allocatable,
                ErrorView,
            >(e@),
        },
{
    let status = match &node.status {
        Some(status) => status,
        None => {
            return Err(Error::MissingKey("node_status"));
        },
    };
    let entries = match &status.allocatable {
        Some(entries) => entries,
        None => {
            return Err(Error::MissingKey("allocatable"));
        },
    };
    let name = match &node.name {
        Some(name) => name,
        None => {
            return Err(Error::MissingKey("metadata:name"));
        },
    };
    let cpu_text = match lookup(entries, "cpu") {
        Some(text) => text,
        None => {
            return Err(Error::MissingKey("cpu"));
        },
    };
    let memory_text = match lookup(entries, "memory") {
        Some(text) => text,
        None => {
            return Err(Error::MissingKey("memory"));
        },
    };
    let cpu = match parse_quantity(cpu_text.as_str(), Dimension::Cpu) {
        Ok(cpu) => cpu,
        Err(e) => {
            return Err(e);
        },
    };
    let memory = match parse_quantity(memory_text.as_str(), Dimension::Memory) {
        Ok(memory) => memory,
        Err(e) => {
            return Err(e);
        },
    };
    if tracker.find(name).is_none() {
        return Err(Error::MissingKey("metadata:name"));
    }
    Ok(Allocatable { cpu, memory })
}

proof fn lemma_with_usage_distinct(entries: Seq<TrackedNode>, name: String, usage: Usage)
    requires
        distinct_names(entries),
    ensures
        distinct_names(with_usage(entries, name, usage)),
{
    let after = with_usage(entries, name, usage);
    if has_name(entries, name@) {
        let i = index_of(entries, name@);
        assert forall|a: int, b: int|
            0 <= a < after.len() && 0 <= b < after.len() && (#[trigger] after[a]).name@ == (
            #[trigger] after[b]).name@ implies a == b by {
            assert(after[a].name@ == entries[a].name@);
            assert(after[b].name@ == entries[b].name@);
        }
    } else {
        assert forall|a: int, b: int|
            0 <= a < after.len() && 0 <= b < after.len() && (#[trigger] after[a]).name@ == (
            #[trigger] after[b]).name@ implies a == b by {
            if a < entries.len() {
                assert(after[a].name@ == entries[a].name@);
            }
            if b < entries.len() {
                assert(after[b].name@ == entries[b].name@);
            }
        }
    }
}

proof fn lemma_usage_failure_stays(reports: Seq<NodeMetricsReport>, i: int)
    requires
        0 <= i <= reports.len(),
        usage_collected(reports.take(i)) is Err,
    ensures
        usage_collected(reports) == usage_collected(reports.take(i)),
    decreases reports.len(),
{
    if i == reports.len() {
        assert(reports.take(i) =~= reports);
    } else {
        assert(reports.drop_last().take(i) =~= reports.take(i));
        lemma_usage_failure_stays(reports.drop_last(), i);
    }
}

proof fn lemma_allocatable_failure_stays(entries: Seq<TrackedNode>, nodes: Seq<NodeReport>, i: int)
    requires
        0 <= i <= nodes.len(),
        allocatable_collected(entries, nodes.take(i)) is Err,
    ensures
        allocatable_collected(entries, nodes) == allocatable_collected(entries, nodes.take(i)),
    decreases nodes.len(),
{
    if i == nodes.len() {
        assert(nodes.take(i) =~= nodes);
    } else {
        assert(nodes.drop_last().take(i) =~= nodes.take(i));
        lemma_allocatable_failure_stays(entries, nodes.drop_last(), i);
    }
}

/// Joins the two lists of the cluster adapter into a tracker, reading
/// every usage report and then every node in order. The first report
/// or node that fails decides the error.
pub fn track(reports: &Vec<NodeMetricsReport>, nodes: &Vec<NodeReport>) -> (r: Result<
    ResourceTracker,
    Error,
>)
    ensures
        match r {
            Ok(tracker) => tracker.wf() && cluster_state(reports@, nodes@) == Ok::<
                Seq<TrackedNode>,
                ErrorView,
            >(tracker.entries()),
            Err(e) => cluster_state(reports@, nodes@) == Err::<Seq<TrackedNode>, ErrorView>(e@),
        },
{
    let mut tracker = ResourceTracker::new();
    let mut i: usize = 0;
    proof {
        assert(reports@.take(0) =~= Seq::<NodeMetricsReport>::empty());
    }
    while i < reports.len()
        invariant
            i <= reports.len(),
            tracker.wf(),
            usage_collected(reports@.take(i as int)) == Ok::<Seq<TrackedNode>, ErrorView>(
                tracker.entries(),
            ),
        decreases reports.len() - i,
    {
        proof {
            assert(reports@.take(i + 1).drop_last() =~= reports@.take(i as int));
            assert(reports@.take(i + 1).last() == reports@[i as int]);
        }
        match read_usage(&reports[i]) {
            Ok((name, usage)) => {
                tracker.record_usage(name, usage);
            },
            Err(e) => {
                proof {
                    lemma_usage_failure_stays(reports@, i + 1);
                }
                return Err(e);
            },
        }
        i = i + 1;
    }
    proof {
        assert(reports@.take(reports@.len() as int) =~= reports@);
        assert(nodes@.take(0) =~= Seq::<NodeReport>::empty());
    }
    let ghost usage_entries = tracker.entries();
    let mut k: usize = 0;
    while k < nodes.len()
        invariant
            k <= nodes.len(),
            tracker.wf(),
            usage_collected(reports@) == Ok::<Seq<TrackedNode>, ErrorView>(usage_entries),
            allocatable_collected(usage_entries, nodes@.take(k as int)) == Ok::<
                Seq<TrackedNode>,
                ErrorView,
            >(tracker.entries()),
        decreases nodes.len() - k,
    {
        proof {
            assert(nodes@.take(k + 1).drop_last() =~= nodes@.take(k as int));
            assert(nodes@.take(k + 1).last() == nodes@[k as int]);
        }
        match read_allocatable(&nodes[k], &tracker) {
            Ok(allocatable) => {
                match &nodes[k].name {
                    Some(name) => {
                        tracker.record_allocatable(name, allocatable);
                    },
                    None => {},
                }
            },
            Err(e) => {
                proof {
                    lemma_allocatable_failure_stays(usage_entries, nodes@, k + 1);
                }
                return Err(e);
            },
        }
        k = k + 1;
    }
    proof {
        assert(nodes@.take(nodes@.len() as int) =~= nodes@);
    }
    Ok(tracker)
}

/// Whether the cluster can still take the demand of an SLA: the two
/// lists of the cluster adapter are joined as [`track`] does, and the
/// answer is whether some node has both its usage and its allocatable
/// resources known and room for the SLA's processor and memory.
pub fn is_satisfiable(sla: &SLA, reports: &Vec<NodeMetricsReport>, nodes: &Vec<NodeReport>) -> (r:
    Result<bool, Error>)
    ensures
        match r {
            Ok(b) => cluster_state(reports@, nodes@) matches Ok(entries) && b == can_host(
                entries,
                *sla,
            ),
            Err(e) => cluster_state(reports@, nodes@) == Err::<Seq<TrackedNode>, ErrorView>(e@),
        },
{
    match track(reports, nodes) {
        Ok(tracker) => Ok(tracker.can_host(sla)),
        Err(e) => Err(e),
    }
}

} // verus!
