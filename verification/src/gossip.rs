use vstd::prelude::*;

use crate::fanout::Fanout;
use crate::message::MessageView;
use crate::node::Node;

verus! {

/// Seconds between the end of one round of gossip and the start of the next.
pub const GOSSIP_INTERVAL_SECS: u64 = 5;

/// What happened to the gossip loop of a node.
#[derive(Clone, Copy, Debug, PartialEq, Eq, Structural)]
pub enum GossipEvent {
    /// The loop starts.
    Started,
    /// A round ended; `aborted` tells whether one of its sends failed.
    RoundEnded { aborted: bool },
    /// The pause between two rounds is over.
    Woke,
}

/// What the gossip loop does next.
pub enum GossipAction {
    /// Run this round of gossip.
    Round(Fanout),
    /// Pause for this many seconds.
    Sleep { secs: u64 },
    /// Stop gossiping: a send failed.
    Stop,
}

/// The gossip loop of `node`: it gossips, pauses for [`GOSSIP_INTERVAL_SECS`]
/// seconds, and starts again, until a round fails.
///
/// Each round sends the node's handshake to every peer once.
pub fn gossip_at_interval(node: &Node, event: GossipEvent) -> (action: GossipAction)
    ensures
        match event {
            GossipEvent::Started | GossipEvent::Woke => {
                &&& action matches GossipAction::Round(plan)
                &&& plan@.message == node.handshake()
                &&& plan@.message == (MessageView::Handshake { id: node@.id })
                &&& plan@.targets.len() == node@.peers.len()
                &&& plan@.targets.to_multiset() == node@.peers.to_multiset()
                &&& plan@.delivered == 0
                &&& !plan@.failed
            },
            GossipEvent::RoundEnded { aborted } => if aborted {
                action is Stop
            } else {
                action matches GossipAction::Sleep { secs } && secs == GOSSIP_INTERVAL_SECS && secs == 5
            },
        },
{
    match event {
        GossipEvent::Started | GossipEvent::Woke => GossipAction::Round(node.gossip_message()),
        GossipEvent::RoundEnded { aborted } => if aborted {
            GossipAction::Stop
        } else {
            GossipAction::Sleep { secs: GOSSIP_INTERVAL_SECS }
        },
    }
}

} // verus!
