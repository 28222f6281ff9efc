//! How nodes join the tree: a node registers with its parent, and the
//! parent records it as a child.

use crate::ids::NodeId;
use crate::routing::{Node, NodeCategory, NodeSituation};
use vstd::prelude::*;
use vstd::string::*;

verus! {

/// What a node sends to register itself.
#[derive(Debug)]
pub struct RegisterNode {
    pub node_id: NodeId,
    pub ip: String,
    pub port: u16,
}

/// The character of a decimal digit.
pub open spec fn digit_char(digit: nat) -> char {
    if digit == 0 {
        '0'
    } else if digit == 1 {
        '1'
    } else if digit == 2 {
        '2'
    } else if digit == 3 {
        '3'
    } else if digit == 4 {
        '4'
    } else if digit == 5 {
        '5'
    } else if digit == 6 {
        '6'
    } else if digit == 7 {
        '7'
    } else if digit == 8 {
        '8'
    } else {
        '9'
    }
}

/// A number in decimal, without leading zeros.
pub open spec fn decimal(n: nat) -> Seq<char>
    decreases n,
{
    if n < 10 {
        seq![digit_char(n)]
    } else {
        decimal(n / 10).push(digit_char(n % 10))
    }
}

/// Where a node is reached: its address, a colon, and its port in
/// decimal.
pub open spec fn address(ip: Seq<char>, port: u16) -> Seq<char> {
    ip + seq![':'] + decimal(port as nat)
}

/// The neighbours after a child has registered: the child stands under
/// its identifier, in place of any neighbour that stood there.
pub open spec fn child_registered(neighbors: Map<u128, Node>, child: Node) -> Map<u128, Node> {
    neighbors.insert(child.id.value, child)
}

/// The text of one decimal digit.
fn digit_text(digit: u16) -> (text: &'static str)
    requires
        digit < 10,
    ensures
        text@ == seq![digit_char(digit as nat)],
{
    proof {
        reveal_strlit("0");
        reveal_strlit("1");
        reveal_strlit("2");
        reveal_strlit("3");
        reveal_strlit("4");
        reveal_strlit("5");
        reveal_strlit("6");
        reveal_strlit("7");
        reveal_strlit("8");
        reveal_strlit("9");
    }
    let text = if digit == 0 {
        "0"
    } else if digit == 1 {
        "1"
    } else if digit == 2 {
        "2"
    } else if digit == 3 {
        "3"
    } else if digit == 4 {
        "4"
    } else if digit == 5 {
        "5"
    } else if digit == 6 {
        "6"
    } else if digit == 7 {
        "7"
    } else if digit == 8 {
        "8"
    } else {
        "9"
    };
    assert(text@ =~= seq![digit_char(digit as nat)]);
    text
}

/// Writes a number in decimal.
pub fn decimal_text(n: u16) -> (text: String)
    ensures
        text@ == decimal(n as nat),
    decreases n,
{
    if n < 10 {
        String::from_str(digit_text(n))
    } else {
        let front = decimal_text(n / 10);
        let last = digit_text(n % 10);
        let text = front.concat(last);
        assert(text@ =~= decimal((n / 10) as nat).push(digit_char((n % 10) as nat)));
        text
    }
}

/// Writes where a node is reached, as [`address`] says.
pub fn address_text(ip: &str, port: u16) -> (text: String)
    ensures
        text@ == address(ip@, port),
{
    proof {
        reveal_strlit(":");
    }
    let port_text = decimal_text(port);
    let text = String::from_str(ip).concat(":").concat(port_text.as_str());
    assert(":"@ =~= seq![':']);
    text
}

/// Records a node that registers as a child of this one: it becomes a
/// neighbour of the category child, reached at the address and port it
/// gave, as [`child_registered`] says. Nothing else of the situation
/// changes.
pub fn register_child_node(situation: &mut NodeSituation, registration: RegisterNode)
    ensures
        ({
            let child = final(situation).neighbors()[registration.node_id.value];
            &&& child.id == registration.node_id
            &&& child.category == NodeCategory::Child
            &&& child.uri@ == address(registration.ip@, registration.port)
            &&& final(situation).neighbors() == child_registered(
                old(situation).neighbors(),
                child,
            )
        }),
        final(situation).to_market == old(situation).to_market,
        final(situation).is_market == old(situation).is_market,
        final(situation).market_url == old(situation).market_url,
        final(situation).my_id == old(situation).my_id,
        final(situation).public_ip == old(situation).public_ip,
        final(situation).public_port == old(situation).public_port,
{
    let child = Node {
        uri: address_text(registration.ip.as_str(), registration.port),
        id: registration.node_id,
        category: NodeCategory::Child,
    };
    situation.nodes.insert(registration.node_id.value, child);
}

/// With whom a node registers when it starts.
#[derive(Debug)]
pub enum RegistrationTarget {
    /// With its parent, reached here.
    Parent(String),
    /// With the market, at this address, for a node that has no parent
    /// yet.
    Market(String),
    /// With nobody: the node is the root of the tree.
    Nobody,
}

/// Decides with whom a node registers when it starts: with its parent
/// where it has one, else with the market whose address it was given,
/// else with nobody.
pub fn registration_target(situation: &NodeSituation) -> (target: RegistrationTarget)
    ensures
        match target {
            RegistrationTarget::Parent(uri) => situation.to_market matches Some(parent)
                && uri == parent.uri,
            RegistrationTarget::Market(url) => situation.to_market is None
                && situation.market_url == Some(url),
            RegistrationTarget::Nobody => situation.to_market is None
                && situation.market_url is None,
        },
{
    match &situation.to_market {
        Some(parent) => RegistrationTarget::Parent(parent.uri.clone()),
        None => match &situation.market_url {
            Some(url) => RegistrationTarget::Market(url.clone()),
            None => RegistrationTarget::Nobody,
        },
    }
}

/// What this node sends to register itself: its identifier and the
/// address and port at which it is reached.
pub fn registration(situation: &NodeSituation) -> (payload: RegisterNode)
    ensures
        payload.node_id == situation.my_id,
        payload.ip == situation.public_ip,
        payload.port == situation.public_port,
{
    RegisterNode {
        node_id: situation.my_id,
        ip: situation.public_ip.clone(),
        port: situation.public_port,
    }
}

} // verus!
