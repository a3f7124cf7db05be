//! The nodes of the decision tree: each decision proposes a block of client
//! commands that extends the block of an earlier decision.
use crate::ordering::{spec_next_seq, Digest, NodeId, SeqNo};
use crate::view::View;
use crate::vote_table::VoteKey;
use vstd::prelude::*;
use vstd::view::View as _;

verus! {

/// The header of a message: who sent it, to whom, and the digest of its content.
#[derive(Clone, Copy, Debug, PartialEq, Eq, Structural)]
pub struct Header {
    pub from: NodeId,
    pub to: NodeId,
    pub digest: Digest,
}

/// A message together with the header it was received with.
#[derive(Clone, Debug)]
pub struct StoredMessage<M> {
    pub header: Header,
    pub message: M,
}

impl<M> StoredMessage<M> {
    pub fn new(header: Header, message: M) -> (s: StoredMessage<M>)
        ensures
            s.header == header,
            s.message == message,
    {
        StoredMessage { header, message }
    }

    pub fn header(&self) -> (h: &Header)
        ensures
            *h == self.header,
    {
        &self.header
    }

    pub fn message(&self) -> (m: &M)
        ensures
            *m == self.message,
    {
        &self.message
    }

    pub fn into_inner(self) -> (r: (Header, M))
        ensures
            r.0 == self.header,
            r.1 == self.message,
    {
        (self.header, self.message)
    }
}

impl<M: Clone> StoredMessage<M> {
    /// A copy of this message: the same header, with the content cloned.
    pub fn duplicate(&self) -> (s: StoredMessage<M>)
        ensures
            s.header == self.header,
            cloned(self.message, s.message),
    {
        StoredMessage { header: self.header, message: self.message.clone() }
    }
}

/// A client request as the protocols see it: it belongs to a session of its
/// client and has a sequence number in that session. Implemented by the
/// requests a protocol orders.
pub trait SessionBased {
    /// The sequence number of the request in its session.
    spec fn spec_sequence_number(&self) -> SeqNo;

    /// The session the request belongs to.
    spec fn spec_session_number(&self) -> SeqNo;

    fn sequence_number(&self) -> (s: SeqNo)
        ensures
            s == self.spec_sequence_number(),
    ;

    fn session_number(&self) -> (s: SeqNo)
        ensures
            s == self.spec_session_number(),
    ;
}

/// What identifies a client request that a decision ordered: the digest and
/// sender of the message that carried it, and its sequence number and session.
#[derive(Clone, Copy, Debug, PartialEq, Eq, Structural)]
pub struct ClientRqInfo {
    pub digest: Digest,
    pub sender: NodeId,
    pub seq_no: SeqNo,
    pub session: SeqNo,
}

impl ClientRqInfo {
    pub fn new(digest: Digest, sender: NodeId, seq_no: SeqNo, session: SeqNo) -> (i: ClientRqInfo)
        ensures
            i == (ClientRqInfo { digest, sender, seq_no, session }),
    {
        ClientRqInfo { digest, sender, seq_no, session }
    }
}

/// The information identifying the client request a stored command carries.
pub open spec fn rq_info_of<D: SessionBased>(c: StoredMessage<D>) -> ClientRqInfo {
    ClientRqInfo {
        digest: c.header.digest,
        sender: c.header.from,
        seq_no: c.message.spec_sequence_number(),
        session: c.message.spec_session_number(),
    }
}

/// The request information of each command, in order.
pub open spec fn rq_infos_of<D: SessionBased>(commands: Seq<StoredMessage<D>>) -> Seq<ClientRqInfo> {
    Seq::new(commands.len(), |i: int| rq_info_of(commands[i]))
}

/// The request information of each command, in order.
pub fn client_rq_infos<D: SessionBased>(commands: &Vec<StoredMessage<D>>) -> (r: Vec<ClientRqInfo>)
    ensures
        r@ == rq_infos_of(commands@),
{
    let mut out: Vec<ClientRqInfo> = Vec::new();
    let mut i: usize = 0;
    while i < commands.len()
        invariant
            0 <= i <= commands.len(),
            out@ == rq_infos_of(commands@).take(i as int),
        decreases commands.len() - i,
    {
        let c = &commands[i];
        let info = ClientRqInfo::new(c.header.digest, c.header.from, c.message.sequence_number(), c.message.session_number());
        proof {
            assert(rq_infos_of(commands@).take(i + 1) =~= rq_infos_of(commands@).take(i as int).push(info));
        }
        out.push(info);
        i = i + 1;
    }
    proof {
        assert(rq_infos_of(commands@).take(commands@.len() as int) =~= rq_infos_of(commands@));
    }
    out
}

/// A decision that the protocol has completed: the client commands it
/// ordered, under its sequence number, the information identifying the client
/// request of each command, and the digest of their block.
#[derive(Debug)]
pub struct ProtocolConsensusDecision<D> {
    pub seq: SeqNo,
    pub client_commands: Vec<StoredMessage<D>>,
    pub client_rq_infos: Vec<ClientRqInfo>,
    pub batch_digest: Digest,
}

impl<D: SessionBased> ProtocolConsensusDecision<D> {
    /// The decision of `seq` on the commands of the block `batch_digest`, with
    /// the request information of each command.
    pub fn new(seq: SeqNo, client_commands: Vec<StoredMessage<D>>, batch_digest: Digest) -> (d:
        ProtocolConsensusDecision<D>)
        ensures
            d.seq == seq,
            d.client_commands == client_commands,
            d.client_rq_infos@ == rq_infos_of(client_commands@),
            d.batch_digest == batch_digest,
    {
        let client_rq_infos = client_rq_infos(&client_commands);
        ProtocolConsensusDecision { seq, client_commands, client_rq_infos, batch_digest }
    }
}

impl<D> ProtocolConsensusDecision<D> {

    pub fn sequence_number(&self) -> (s: SeqNo)
        ensures
            s == self.seq,
    {
        self.seq
    }
}

/// The decision node header: what a vote or a quorum certificate refers to.
#[derive(Clone, Copy, Debug, PartialEq, Eq, Structural, Hash)]
pub struct DecisionNodeHeader {
    pub view_no: SeqNo,
    pub previous_block: Option<Digest>,
    pub current_block_digest: Digest,
    pub contained_client_commands: usize,
}

/// A block of client commands proposed for a decision.
#[derive(Clone, Debug)]
pub struct DecisionNode<D> {
    pub decision_header: DecisionNodeHeader,
    pub client_commands: Vec<StoredMessage<D>>,
}

/// Whether a node whose previous block is `previous` extends from the node `prev_node`.
pub open spec fn spec_extends_from(previous: Option<Digest>, prev_node: DecisionNodeHeader) -> bool {
    match previous {
        Some(digest) => digest == prev_node.current_block_digest,
        None => true,
    }
}

/// The header of the node that follows `previous`.
pub open spec fn spec_header_from_previous(
    digest: Digest,
    previous: DecisionNodeHeader,
    contained_commands: usize,
) -> DecisionNodeHeader {
    DecisionNodeHeader {
        view_no: spec_next_seq(previous.view_no),
        previous_block: Some(previous.current_block_digest),
        current_block_digest: digest,
        contained_client_commands: contained_commands,
    }
}

/// The header of a root node of the given view.
pub open spec fn spec_root_header(
    view_seq: SeqNo,
    digest: Digest,
    contained_commands: usize,
) -> DecisionNodeHeader {
    DecisionNodeHeader {
        view_no: view_seq,
        previous_block: None,
        current_block_digest: digest,
        contained_client_commands: contained_commands,
    }
}

impl DecisionNodeHeader {
    pub fn initialize_header_from_previous(
        digest: Digest,
        previous: &DecisionNodeHeader,
        contained_commands: usize,
    ) -> (h: DecisionNodeHeader)
        ensures
            h == spec_header_from_previous(digest, *previous, contained_commands),
    {
        DecisionNodeHeader {
            view_no: previous.view_no.next(),
            previous_block: Some(previous.current_block_digest),
            current_block_digest: digest,
            contained_client_commands: contained_commands,
        }
    }

    pub fn initialize_root_node(view: &View, digest: Digest, contained_commands: usize) -> (h:
        DecisionNodeHeader)
        ensures
            h == spec_root_header(view.spec_seq(), digest, contained_commands),
    {
        DecisionNodeHeader {
            view_no: view.sequence_number(),
            previous_block: None,
            current_block_digest: digest,
            contained_client_commands: contained_commands,
        }
    }

    pub fn view_no(&self) -> (s: SeqNo)
        ensures
            s == self.view_no,
    {
        self.view_no
    }

    pub fn sequence_number(&self) -> (s: SeqNo)
        ensures
            s == self.view_no,
    {
        self.view_no
    }

    pub fn previous_block(&self) -> (p: Option<Digest>)
        ensures
            p == self.previous_block,
    {
        self.previous_block
    }

    pub fn current_block_digest(&self) -> (d: Digest)
        ensures
            d == self.current_block_digest,
    {
        self.current_block_digest
    }

    pub fn contained_client_commands(&self) -> (n: usize)
        ensures
            n == self.contained_client_commands,
    {
        self.contained_client_commands
    }
}

impl VoteKey for DecisionNodeHeader {
    type V = DecisionNodeHeader;

    open spec fn key_view(&self) -> DecisionNodeHeader {
        *self
    }

    open spec fn view_rank(v: DecisionNodeHeader) -> nat {
        v.view_no.0 as nat
    }

    fn key_eq(&self, other: &Self) -> (r: bool) {
        *self == *other
    }

    fn key_clone(&self) -> (r: Self) {
        *self
    }

    fn rank(&self) -> (r: u64) {
        self.view_no.0 as u64
    }
}

impl<D> DecisionNode<D> {
    #[must_use]
    pub fn create_leaf(
        previous_node: &DecisionNodeHeader,
        digest: Digest,
        client_commands: Vec<StoredMessage<D>>,
    ) -> (node: DecisionNode<D>)
        ensures
            node.decision_header == spec_header_from_previous(
                digest,
                *previous_node,
                client_commands.len(),
            ),
            node.client_commands == client_commands,
    {
        let n = client_commands.len();
        DecisionNode {
            decision_header: DecisionNodeHeader::initialize_header_from_previous(
                digest,
                previous_node,
                n,
            ),
            client_commands,
        }
    }

    #[must_use]
    pub fn create_root_leaf(
        view: &View,
        digest: Digest,
        client_commands: Vec<StoredMessage<D>>,
    ) -> (node: DecisionNode<D>)
        ensures
            node.decision_header == spec_root_header(view.spec_seq(), digest, client_commands.len()),
            node.client_commands == client_commands,
    {
        let n = client_commands.len();
        DecisionNode {
            decision_header: DecisionNodeHeader::initialize_root_node(view, digest, n),
            client_commands,
        }
    }

    pub fn decision_header(&self) -> (h: &DecisionNodeHeader)
        ensures
            *h == self.decision_header,
    {
        &self.decision_header
    }

    pub fn client_commands(&self) -> (c: &Vec<StoredMessage<D>>)
        ensures
            *c == self.client_commands,
    {
        &self.client_commands
    }

    pub fn sequence_number(&self) -> (s: SeqNo)
        ensures
            s == self.decision_header.view_no,
    {
        self.decision_header.view_no
    }

    pub fn has_previous(&self) -> (b: bool)
        ensures
            b == self.decision_header.previous_block.is_some(),
    {
        self.decision_header.previous_block.is_some()
    }

    pub fn extends_from(&self, prev_node: &DecisionNodeHeader) -> (b: bool)
        ensures
            b == spec_extends_from(self.decision_header.previous_block, *prev_node),
    {
        match self.decision_header.previous_block {
            Some(digest) => digest == prev_node.current_block_digest,
            None => true,
        }
    }

    /// The header and the client commands of this node.
    pub fn into_parts(self) -> (r: (DecisionNodeHeader, Vec<StoredMessage<D>>))
        ensures
            r.0 == self.decision_header,
            r.1 == self.client_commands,
    {
        (self.decision_header, self.client_commands)
    }

    pub fn into_commands(self) -> (c: Vec<StoredMessage<D>>)
        ensures
            c == self.client_commands,
    {
        self.client_commands
    }
}

/// `b` is a copy of the stored message `a`: the same header and a clone of
/// its content.
pub open spec fn copied_command<D: Clone>(a: StoredMessage<D>, b: StoredMessage<D>) -> bool {
    a.header == b.header && cloned(a.message, b.message)
}

/// `b` is a copy of the node `a`: the same header and, one for one, copies
/// of its client commands.
pub open spec fn node_copied<D: Clone>(a: DecisionNode<D>, b: DecisionNode<D>) -> bool {
    &&& b.decision_header == a.decision_header
    &&& b.client_commands.len() == a.client_commands.len()
    &&& forall|i: int| 0 <= i < b.client_commands.len() ==> copied_command(
        #[trigger] a.client_commands@[i],
        b.client_commands@[i],
    )
}

impl<D: Clone> DecisionNode<D> {
    /// A copy of this node: the same header and as many (cloned) commands.
    pub fn duplicate(&self) -> (n: DecisionNode<D>)
        ensures
            node_copied(*self, n),
            n.decision_header == self.decision_header,
            n.client_commands.len() == self.client_commands.len(),
            forall|i: int| 0 <= i < n.client_commands.len() ==> copied_command(
                #[trigger] self.client_commands@[i],
                n.client_commands@[i],
            ),
    {
        let mut commands: Vec<StoredMessage<D>> = Vec::new();
        let mut i: usize = 0;
        while i < self.client_commands.len()
            invariant
                0 <= i <= self.client_commands.len(),
                commands.len() == i,
                forall|k: int| 0 <= k < i ==> copied_command(#[trigger] self.client_commands@[k], commands@[k]),
            decreases self.client_commands.len() - i,
        {
            commands.push(self.client_commands[i].duplicate());
            i = i + 1;
        }
        DecisionNode { decision_header: self.decision_header, client_commands: commands }
    }
}

/// A leaf created on top of a node extends from that node, is numbered right
/// after it, and counts the commands it carries.
pub proof fn lemma_leaf_extends_previous(
    digest: Digest,
    previous: DecisionNodeHeader,
    contained_commands: usize,
)
    ensures
        spec_extends_from(
            spec_header_from_previous(digest, previous, contained_commands).previous_block,
            previous,
        ),
        spec_header_from_previous(digest, previous, contained_commands).view_no == spec_next_seq(
            previous.view_no,
        ),
        spec_header_from_previous(digest, previous, contained_commands).previous_block is Some,
{
}

/// A root node has no previous block.
pub proof fn lemma_root_has_no_previous(view_seq: SeqNo, digest: Digest, contained_commands: usize)
    ensures
        spec_root_header(view_seq, digest, contained_commands).previous_block is None,
{
}

} // verus!
