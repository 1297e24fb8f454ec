use vstd::prelude::*;

use crate::address::{contains_addr, copy_addrs, PeerAddr};
use crate::fanout::{Fanout, FanoutState};
use crate::message::{Message, MessageView};
use crate::node_id::{is_v4_uuid_text, new_node_id};
use crate::sampling::{choose_multiple_peers, lemma_full_submultiset_is_whole};

verus! {

/// The peer list after `addr` is added: unchanged when `addr` is already in it,
/// else `addr` appended at the end.
pub open spec fn with_peer(peers: Seq<PeerAddr>, addr: PeerAddr) -> Seq<PeerAddr> {
    if peers.contains(addr) {
        peers
    } else {
        peers.push(addr)
    }
}

/// The mathematical state of a [`Node`].
pub struct NodeView {
    pub id: Seq<char>,
    pub peers: Seq<PeerAddr>,
    pub broadcast_addr: PeerAddr,
}

/// What a node does with a message that arrived from the network.
#[derive(Debug)]
pub enum Inbound {
    /// A handshake came in: its sender's address is among the peers.
    PeerRegistered(PeerAddr),
    /// A text message came in: hand it on to the reader of the node's messages.
    Forward(Message),
    /// The bytes did not hold a message: nothing changes.
    Ignored,
}

/// The mathematical value of an [`Inbound`].
pub enum InboundView {
    PeerRegistered(PeerAddr),
    Forward(MessageView),
    Ignored,
}

impl View for Inbound {
    type V = InboundView;

    open spec fn view(&self) -> InboundView {
        match self {
            Inbound::PeerRegistered(addr) => InboundView::PeerRegistered(*addr),
            Inbound::Forward(m) => InboundView::Forward(m@),
            Inbound::Ignored => InboundView::Ignored,
        }
    }
}

/// The value of what arrived: the message's view, or `None`.
pub open spec fn parsed_view(parsed: Option<Message>) -> Option<MessageView> {
    match parsed {
        Some(m) => Some(m@),
        None => None,
    }
}

/// What a node does with `parsed`, the message that arrived from `from` (`None`
/// when the bytes held no message).
pub open spec fn inbound_of(from: PeerAddr, parsed: Option<MessageView>) -> InboundView {
    match parsed {
        Some(MessageView::Handshake { .. }) => InboundView::PeerRegistered(from),
        Some(MessageView::Text { from: sender, content }) => InboundView::Forward(
            MessageView::Text { from: sender, content },
        ),
        None => InboundView::Ignored,
    }
}

/// The peer list after `parsed` arrived from `from`: a handshake adds its sender.
pub open spec fn peers_after_inbound(peers: Seq<PeerAddr>, from: PeerAddr, parsed: Option<MessageView>) -> Seq<PeerAddr> {
    match parsed {
        Some(MessageView::Handshake { .. }) => with_peer(peers, from),
        _ => peers,
    }
}

/// A node and the peers it knows of, each at most once, in the order in which they
/// were added.
pub struct Node {
    id: String,
    peers: Vec<PeerAddr>,
    broadcast_addr: PeerAddr,
}

impl View for Node {
    type V = NodeView;

    closed spec fn view(&self) -> NodeView {
        NodeView { id: self.id@, peers: self.peers@, broadcast_addr: self.broadcast_addr }
    }
}

impl Node {
    #[verifier::type_invariant]
    closed spec fn inv(self) -> bool {
        self.peers@.no_duplicates()
    }

    /// The handshake that announces this node.
    pub open spec fn handshake(&self) -> MessageView {
        MessageView::Handshake { id: self@.id }
    }

    /// A node that listens on `broadcast_addr`, with a fresh random identifier and no peers.
    pub fn new(broadcast_addr: PeerAddr) -> (node: Node)
        ensures
            is_v4_uuid_text(node@.id),
            node@.peers == Seq::<PeerAddr>::empty(),
            node@.broadcast_addr == broadcast_addr,
    {
        let id = new_node_id();
        Node { id, peers: Vec::new(), broadcast_addr }
    }

    /// The node's identifier, the text of a random version 4 UUID.
    pub fn id(&self) -> (id: &String)
        ensures
            id@ == self@.id,
    {
        &self.id
    }

    /// The address on which the node listens for messages.
    pub fn broadcast_addr(&self) -> (addr: PeerAddr)
        ensures
            addr == self@.broadcast_addr,
    {
        self.broadcast_addr
    }

    /// Adds `addr` to the peers unless it is already there.
    pub fn add_peer(&mut self, addr: PeerAddr)
        ensures
            final(self)@ == (NodeView { peers: with_peer(old(self)@.peers, addr), ..old(self)@ }),
            final(self)@.peers.no_duplicates(),
    {
        proof {
            use_type_invariant(&*self);
            lemma_with_peer_no_duplicates(self@.peers, addr);
        }
        if !contains_addr(&self.peers, addr) {
            let mut peers: Vec<PeerAddr> = Vec::new();
            std::mem::swap(&mut peers, &mut self.peers);
            peers.push(addr);
            self.peers = peers;
        }
    }

    /// The peers, in the order in which they were added; none occurs twice.
    pub fn get_peers(&self) -> (peers: Vec<PeerAddr>)
        ensures
            peers@ == self@.peers,
            peers@.no_duplicates(),
    {
        proof {
            use_type_invariant(self);
        }
        copy_addrs(&self.peers)
    }

    /// The handshake that announces this node.
    pub fn handshake_message(&self) -> (message: Message)
        ensures
            message@ == self.handshake(),
            message@ == (MessageView::Handshake { id: self@.id }),
    {
        Message::Handshake { id: self.id.clone() }
    }

    /// The plan for sending `msg` to the single peer at `addr`.
    pub fn send_message(&self, msg: &Message, addr: &PeerAddr) -> (plan: Fanout)
        ensures
            plan@ == FanoutState::start(msg@, seq![*addr]),
            plan@.message == msg@,
            plan@.targets == seq![*addr],
            plan@.delivered == 0,
            !plan@.failed,
    {
        let mut targets: Vec<PeerAddr> = Vec::new();
        targets.push(*addr);
        assert(targets@ =~= seq![*addr]);
        Fanout::new(msg.clone(), targets)
    }

    /// The plan for sending `msg` to every peer, in the order of the peer list.
    pub fn broadcast_message(&self, msg: &Message) -> (plan: Fanout)
        ensures
            plan@ == FanoutState::start(msg@, self@.peers),
            plan@.message == msg@,
            plan@.targets == self@.peers,
            plan@.delivered == 0,
            !plan@.failed,
    {
        Fanout::new(msg.clone(), copy_addrs(&self.peers))
    }

    /// The plan for one round of gossip: this node's handshake, sent to every peer
    /// once, in an order chosen at random.
    pub fn gossip_message(&self) -> (plan: Fanout)
        ensures
            plan@.message == self.handshake(),
            plan@.message == (MessageView::Handshake { id: self@.id }),
            plan@.targets.len() == self@.peers.len(),
            plan@.targets.to_multiset() == self@.peers.to_multiset(),
            plan@.targets.no_duplicates(),
            forall|p: PeerAddr| plan@.targets.contains(p) <==> self@.peers.contains(p),
            plan@.delivered == 0,
            !plan@.failed,
    {
        proof {
            use_type_invariant(self);
        }
        let sample_size = self.peers.len();
        let chosen = choose_multiple_peers(&self.peers, sample_size);
        proof {
            lemma_full_submultiset_is_whole(chosen@, self@.peers);
            lemma_same_multiset_same_members(chosen@, self@.peers);
        }
        Fanout::new(self.handshake_message(), chosen)
    }

    /// What the node does with what arrived from the peer at `from`: `parsed` is
    /// the message the bytes held, or `None` when they held none.
    ///
    /// A handshake adds `from` to the peers; a text is handed on; anything else is ignored.
    pub fn recieve_message(&mut self, from: PeerAddr, parsed: Option<Message>) -> (outcome: Inbound)
        ensures
            final(self)@ == (NodeView {
                peers: peers_after_inbound(old(self)@.peers, from, parsed_view(parsed)),
                ..old(self)@
            }),
            outcome@ == inbound_of(from, parsed_view(parsed)),
            final(self)@.peers.no_duplicates(),
            final(self)@.id == old(self)@.id,
            final(self)@.broadcast_addr == old(self)@.broadcast_addr,
            parsed is Some && parsed->0 is Handshake ==> {
                &&& final(self)@.peers == with_peer(old(self)@.peers, from)
                &&& outcome == Inbound::PeerRegistered(from)
            },
            parsed is Some && parsed->0 is Text ==> {
                &&& final(self)@.peers == old(self)@.peers
                &&& outcome matches Inbound::Forward(f) && f@ == parsed->0@
            },
            parsed is None ==> final(self)@.peers == old(self)@.peers && outcome is Ignored,
    {
        proof {
            use_type_invariant(&*self);
        }
        match parsed {
            Some(msg) => match msg {
                Message::Handshake { .. } => {
                    self.add_peer(from);
                    Inbound::PeerRegistered(from)
                },
                Message::Text { .. } => Inbound::Forward(msg),
            },
            None => Inbound::Ignored,
        }
    }

    /// The plan for a line that the user typed: a text message from this node with
    /// the line as its content, sent to every peer in the order of the peer list.
    pub fn handle_user_input(&self, line: String) -> (plan: Fanout)
        ensures
            plan@ == FanoutState::start(
                MessageView::Text { from: self@.id, content: line@ },
                self@.peers,
            ),
            plan@.message == (MessageView::Text { from: self@.id, content: line@ }),
            plan@.targets == self@.peers,
            plan@.delivered == 0,
            !plan@.failed,
    {
        let msg = Message::Text { from: self.id.clone(), content: line };
        Fanout::new(msg, copy_addrs(&self.peers))
    }
}

/// What arrived is seen as the message it is: its view, or nothing.
pub proof fn lemma_parsed_view_is_the_message(parsed: Option<Message>)
    ensures
        parsed matches Some(m) ==> parsed_view(parsed) == Some(m@),
        parsed is None ==> parsed_view(parsed) is None,
{
}

/// A handshake registers its sender and a text is handed on exactly as it came;
/// a text or nothing leaves the peers as they are, and a handshake adds its sender
/// as [`with_peer`] does.
pub proof fn lemma_inbound_outcomes(peers: Seq<PeerAddr>, from: PeerAddr, parsed: Option<MessageView>)
    ensures
        parsed is Some && parsed->0 is Handshake ==> inbound_of(from, parsed)
            == InboundView::PeerRegistered(from) && peers_after_inbound(peers, from, parsed)
            == with_peer(peers, from),
        parsed is Some && parsed->0 is Text ==> inbound_of(from, parsed) == InboundView::Forward(parsed->0)
            && peers_after_inbound(peers, from, parsed) == peers,
        parsed is None ==> inbound_of(from, parsed) == InboundView::Ignored && peers_after_inbound(
            peers,
            from,
            parsed,
        ) == peers,
{
}

/// Adding a peer keeps the peer list free of duplicates.
pub proof fn lemma_with_peer_no_duplicates(peers: Seq<PeerAddr>, addr: PeerAddr)
    requires
        peers.no_duplicates(),
    ensures
        with_peer(peers, addr).no_duplicates(),
{
}

/// After a peer is added it is among the peers, every peer that was there is still
/// there at the same place, and nothing else is added.
pub proof fn lemma_with_peer_contains(peers: Seq<PeerAddr>, addr: PeerAddr)
    ensures
        with_peer(peers, addr).contains(addr),
        with_peer(peers, addr).take(peers.len() as int) == peers,
        with_peer(peers, addr).len() <= peers.len() + 1,
        peers.contains(addr) ==> with_peer(peers, addr).len() == peers.len(),
        !peers.contains(addr) ==> with_peer(peers, addr).len() == peers.len() + 1,
        forall|p: PeerAddr| #[trigger] with_peer(peers, addr).contains(p) ==> p == addr || peers.contains(p),
{
    if !peers.contains(addr) {
        assert(peers.push(addr)[peers.len() as int] == addr);
    }
    assert(with_peer(peers, addr).take(peers.len() as int) =~= peers);
}

/// Adding the same peer twice leaves the same peer list as adding it once.
pub proof fn lemma_with_peer_idempotent(peers: Seq<PeerAddr>, addr: PeerAddr)
    ensures
        with_peer(with_peer(peers, addr), addr) == with_peer(peers, addr),
{
    lemma_with_peer_contains(peers, addr);
}

/// Two sequences with the same multiset of elements, one free of duplicates, have
/// the same members and the other is free of duplicates too.
proof fn lemma_same_multiset_same_members(a: Seq<PeerAddr>, b: Seq<PeerAddr>)
    requires
        a.to_multiset() == b.to_multiset(),
        b.no_duplicates(),
    ensures
        a.no_duplicates(),
        forall|p: PeerAddr| a.contains(p) <==> b.contains(p),
{
    broadcast use vstd::seq_lib::group_to_multiset_ensures;

    b.lemma_multiset_has_no_duplicates();
    a.lemma_multiset_has_no_duplicates_conv();
    assert forall|p: PeerAddr| a.contains(p) <==> b.contains(p) by {
        assert(a.contains(p) <==> a.to_multiset().count(p) > 0);
        assert(b.contains(p) <==> b.to_multiset().count(p) > 0);
    }
}

/// The peer list after the addresses in `adds` are added one after another, the
/// first one first, each by [`with_peer`] (as [`Node::add_peer`] does, and
/// [`Node::recieve_message`] does for the sender of a handshake).
pub open spec fn peers_after_adds(peers: Seq<PeerAddr>, adds: Seq<PeerAddr>) -> Seq<PeerAddr>
    decreases adds.len(),
{
    if adds.len() == 0 {
        peers
    } else {
        with_peer(peers_after_adds(peers, adds.drop_last()), adds.last())
    }
}

/// The position at which `x` first occurs in `s` (`s.len()` when it does not).
pub open spec fn first_index(s: Seq<PeerAddr>, x: PeerAddr) -> int
    decreases s.len(),
{
    if s.len() == 0 {
        0
    } else if s[0] == x {
        0
    } else {
        1 + first_index(s.drop_first(), x)
    }
}

/// A message as it arrives: the address of the connection it came on, and what
/// its bytes held (`None` when they held no message).
pub struct Arrival {
    pub from: PeerAddr,
    pub parsed: Option<MessageView>,
}

/// The peer list after the `arrivals`, handled one after another, the first one first.
pub open spec fn peers_after_arrivals(peers: Seq<PeerAddr>, arrivals: Seq<Arrival>) -> Seq<PeerAddr>
    decreases arrivals.len(),
{
    if arrivals.len() == 0 {
        peers
    } else {
        let last = arrivals.last();
        peers_after_inbound(peers_after_arrivals(peers, arrivals.drop_last()), last.from, last.parsed)
    }
}

/// The messages that the node hands on while it handles the `arrivals`, in order.
pub open spec fn forwarded(arrivals: Seq<Arrival>) -> Seq<MessageView>
    decreases arrivals.len(),
{
    if arrivals.len() == 0 {
        Seq::empty()
    } else {
        let last = arrivals.last();
        match inbound_of(last.from, last.parsed) {
            InboundView::Forward(m) => forwarded(arrivals.drop_last()).push(m),
            _ => forwarded(arrivals.drop_last()),
        }
    }
}

/// The text messages among the `arrivals`, in order.
pub open spec fn texts(arrivals: Seq<Arrival>) -> Seq<MessageView>
    decreases arrivals.len(),
{
    if arrivals.len() == 0 {
        Seq::empty()
    } else {
        match arrivals.last().parsed {
            Some(MessageView::Text { from, content }) => texts(arrivals.drop_last()).push(
                MessageView::Text { from, content },
            ),
            _ => texts(arrivals.drop_last()),
        }
    }
}

/// The senders of the handshakes among the `arrivals`, in order, repeats included.
pub open spec fn handshake_senders(arrivals: Seq<Arrival>) -> Seq<PeerAddr>
    decreases arrivals.len(),
{
    if arrivals.len() == 0 {
        Seq::empty()
    } else {
        match arrivals.last().parsed {
            Some(MessageView::Handshake { .. }) => handshake_senders(arrivals.drop_last()).push(
                arrivals.last().from,
            ),
            _ => handshake_senders(arrivals.drop_last()),
        }
    }
}

/// No series of additions removes or moves a peer: the old list stays in front,
/// and every added address is in the list afterwards.
pub proof fn lemma_adds_keep_peers(peers: Seq<PeerAddr>, adds: Seq<PeerAddr>)
    ensures
        peers_after_adds(peers, adds).len() >= peers.len(),
        peers_after_adds(peers, adds).take(peers.len() as int) == peers,
        forall|x: PeerAddr| #[trigger] peers.contains(x) ==> peers_after_adds(peers, adds).contains(x),
        forall|x: PeerAddr| #[trigger] adds.contains(x) ==> peers_after_adds(peers, adds).contains(x),
    decreases adds.len(),
{
    if adds.len() > 0 {
        let prev = peers_after_adds(peers, adds.drop_last());
        lemma_adds_keep_peers(peers, adds.drop_last());
        lemma_with_peer_contains(prev, adds.last());
        let r = peers_after_adds(peers, adds);
        assert(r.take(prev.len() as int) == prev);
        assert(r.take(peers.len() as int) =~= prev.take(peers.len() as int));
        assert forall|x: PeerAddr| #[trigger] peers.contains(x) implies r.contains(x) by {
            assert(prev.contains(x));
            let i = choose|i: int| 0 <= i < prev.len() && prev[i] == x;
            assert(r[i] == r.take(prev.len() as int)[i]);
        }
        assert forall|x: PeerAddr| #[trigger] adds.contains(x) implies r.contains(x) by {
            let i = choose|i: int| 0 <= i < adds.len() && adds[i] == x;
            if i < adds.len() - 1 {
                assert(adds.drop_last()[i] == x);
                assert(adds.drop_last().contains(x));
                assert(prev.contains(x));
                let k = choose|k: int| 0 <= k < prev.len() && prev[k] == x;
                assert(r[k] == r.take(prev.len() as int)[k]);
            }
        }
    }
}

proof fn lemma_first_index_push(s: Seq<PeerAddr>, q: PeerAddr, x: PeerAddr)
    ensures
        s.contains(x) ==> first_index(s.push(q), x) == first_index(s, x) && first_index(s, x) < s.len(),
        !s.contains(x) ==> first_index(s.push(x), x) == s.len(),
    decreases s.len(),
{
    if s.len() > 0 {
        assert(s.push(q).drop_first() =~= s.drop_first().push(q));
        assert(s.push(x).drop_first() =~= s.drop_first().push(x));
        lemma_first_index_push(s.drop_first(), q, x);
        if s[0] != x {
            if s.contains(x) {
                let i = choose|i: int| 0 <= i < s.len() && s[i] == x;
                assert(s.drop_first()[i - 1] == x);
            }
            if s.drop_first().contains(x) {
                let i = choose|i: int| 0 <= i < s.drop_first().len() && s.drop_first()[i] == x;
                assert(s[i + 1] == x);
            }
        }
    }
}

/// A series of additions keeps the peer list free of duplicates and appends, after
/// the old list, exactly the added addresses that were not yet peers, each once, in
/// the order in which they were first added.
pub proof fn lemma_adds_append_new_in_first_seen_order(peers: Seq<PeerAddr>, adds: Seq<PeerAddr>)
    requires
        peers.no_duplicates(),
    ensures
        ({
            let r = peers_after_adds(peers, adds);
            let added = r.skip(peers.len() as int);
            &&& r.no_duplicates()
            &&& r == peers + added
            &&& forall|x: PeerAddr| #[trigger] added.contains(x) <==> adds.contains(x) && !peers.contains(x)
            &&& forall|i: int, j: int|
                0 <= i < j < added.len() ==> first_index(adds, #[trigger] added[i]) < first_index(
                    adds,
                    #[trigger] added[j],
                )
        }),
    decreases adds.len(),
{
    lemma_adds_keep_peers(peers, adds);
    let r = peers_after_adds(peers, adds);
    let added = r.skip(peers.len() as int);
    assert(r =~= r.take(peers.len() as int) + added);
    if adds.len() == 0 {
        assert(added =~= Seq::<PeerAddr>::empty());
    } else {
        let a0 = adds.drop_last();
        let q = adds.last();
        assert(adds =~= a0.push(q));
        lemma_adds_append_new_in_first_seen_order(peers, a0);
        lemma_adds_keep_peers(peers, a0);
        let prev = peers_after_adds(peers, a0);
        let added0 = prev.skip(peers.len() as int);
        lemma_with_peer_no_duplicates(prev, q);
        assert forall|x: PeerAddr| #[trigger] adds.contains(x) <==> a0.contains(x) || x == q by {
            if adds.contains(x) && x != q {
                let i = choose|i: int| 0 <= i < adds.len() && adds[i] == x;
                assert(a0[i] == x);
            }
            if a0.contains(x) {
                let i = choose|i: int| 0 <= i < a0.len() && a0[i] == x;
                assert(adds[i] == x);
            }
            if x == q {
                assert(adds[adds.len() - 1] == x);
            }
        }
        assert forall|x: PeerAddr| #[trigger] prev.contains(x) <==> peers.contains(x) || added0.contains(x) by {
            if prev.contains(x) {
                let i = choose|i: int| 0 <= i < prev.len() && prev[i] == x;
                if i < peers.len() {
                    assert(peers[i] == x);
                } else {
                    assert(added0[i - peers.len()] == x);
                }
            }
            if peers.contains(x) {
                let i = choose|i: int| 0 <= i < peers.len() && peers[i] == x;
                assert(prev[i] == x);
            }
            if added0.contains(x) {
                let i = choose|i: int| 0 <= i < added0.len() && added0[i] == x;
                assert(prev[i + peers.len()] == x);
            }
        }
        if prev.contains(q) {
            assert(r == prev);
            assert(added =~= added0);
            assert forall|i: int, j: int|
                0 <= i < j < added.len() implies first_index(adds, #[trigger] added[i]) < first_index(
                adds,
                #[trigger] added[j],
            ) by {
                assert(added0.contains(added[i]));
                assert(added0.contains(added[j]));
                lemma_first_index_push(a0, q, added[i]);
                lemma_first_index_push(a0, q, added[j]);
            }
        } else {
            assert(r == prev.push(q));
            assert(added =~= added0.push(q));
            assert(!a0.contains(q));
            assert forall|x: PeerAddr| #[trigger] added.contains(x) <==> adds.contains(x) && !peers.contains(x) by {
                if added.contains(x) && x != q {
                    let i = choose|i: int| 0 <= i < added.len() && added[i] == x;
                    assert(added0[i] == x);
                }
                if added0.contains(x) {
                    let i = choose|i: int| 0 <= i < added0.len() && added0[i] == x;
                    assert(added[i] == x);
                }
                if x == q {
                    assert(added[added.len() - 1] == x);
                }
            }
            assert forall|i: int, j: int|
                0 <= i < j < added.len() implies first_index(adds, #[trigger] added[i]) < first_index(
                adds,
                #[trigger] added[j],
            ) by {
                assert(added[i] == added0[i]);
                assert(added0.contains(added[i]));
                lemma_first_index_push(a0, q, added[i]);
                if j < added.len() - 1 {
                    assert(added[j] == added0[j]);
                    assert(added0.contains(added[j]));
                    lemma_first_index_push(a0, q, added[j]);
                } else {
                    lemma_first_index_push(a0, q, q);
                }
            }
        }
    }
}

/// Handling a series of arrivals adds the handshake senders as a series of
/// additions would, and hands on exactly the text messages, in the order they came.
pub proof fn lemma_arrivals(peers: Seq<PeerAddr>, arrivals: Seq<Arrival>)
    ensures
        peers_after_arrivals(peers, arrivals) == peers_after_adds(peers, handshake_senders(arrivals)),
        forwarded(arrivals) == texts(arrivals),
    decreases arrivals.len(),
{
    if arrivals.len() > 0 {
        lemma_arrivals(peers, arrivals.drop_last());
        let senders = handshake_senders(arrivals);
        let prev_senders = handshake_senders(arrivals.drop_last());
        match arrivals.last().parsed {
            Some(MessageView::Handshake { .. }) => {
                assert(senders.drop_last() =~= prev_senders);
            },
            _ => {},
        }
    }
}

/// Over any series of arrivals, the node hands on exactly the text messages, in
/// the order they came; its peer list stays free of duplicates, keeps the old peers
/// in front, and gains the senders of the handshakes that were not yet peers, each
/// once, in the order in which their first handshake came.
pub proof fn lemma_arrivals_register_senders_in_first_seen_order(
    peers: Seq<PeerAddr>,
    arrivals: Seq<Arrival>,
)
    requires
        peers.no_duplicates(),
    ensures
        forwarded(arrivals) == texts(arrivals),
        ({
            let senders = handshake_senders(arrivals);
            let r = peers_after_arrivals(peers, arrivals);
            let added = r.skip(peers.len() as int);
            &&& r.no_duplicates()
            &&& r == peers + added
            &&& forall|x: PeerAddr| #[trigger] added.contains(x) <==> senders.contains(x) && !peers.contains(x)
            &&& forall|i: int, j: int|
                0 <= i < j < added.len() ==> first_index(senders, #[trigger] added[i]) < first_index(
                    senders,
                    #[trigger] added[j],
                )
        }),
{
    lemma_arrivals(peers, arrivals);
    lemma_adds_append_new_in_first_seen_order(peers, handshake_senders(arrivals));
}

/// A peer, once known, is a target of every later gossip round: whatever peers are
/// added after it, a round whose targets have the multiset of the peer list then
/// (as [`Node::gossip_message`] and [`crate::gossip::gossip_at_interval`] promise)
/// sends to it.
pub proof fn lemma_known_peer_in_later_rounds(
    peers: Seq<PeerAddr>,
    later_adds: Seq<PeerAddr>,
    p: PeerAddr,
    round_targets: Seq<PeerAddr>,
)
    requires
        peers.contains(p),
        round_targets.to_multiset() == peers_after_adds(peers, later_adds).to_multiset(),
    ensures
        round_targets.contains(p),
{
    broadcast use vstd::seq_lib::group_to_multiset_ensures;

    lemma_adds_keep_peers(peers, later_adds);
    let r = peers_after_adds(peers, later_adds);
    assert(r.contains(p));
    assert(r.to_multiset().count(p) > 0);
    assert(round_targets.to_multiset().count(p) > 0);
}

} // verus!
