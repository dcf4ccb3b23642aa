//! The replica core: ballots, messages and the Paxos state machine.

use std::collections::HashSet;
use vstd::prelude::*;

verus! {

broadcast use vstd::std_specs::hash::group_hash_axioms;

/// A value that the cluster agrees on.
pub type ValueType = u32;

/// A ballot: a counter and the id of the proposer that made it, ordered by
/// the counter first and the proposer id second.
#[derive(Debug, Clone, Copy, PartialEq, Eq, Structural, Hash, Ord)]
pub struct SequenceNumber {
    pub seq: usize,
    pub server_id: usize,
}

/// The ballot order: lexicographic on `(seq, server_id)`.
pub open spec fn seq_lt(a: SequenceNumber, b: SequenceNumber) -> bool {
    a.seq < b.seq || (a.seq == b.seq && a.server_id < b.server_id)
}

pub open spec fn seq_le(a: SequenceNumber, b: SequenceNumber) -> bool {
    seq_lt(a, b) || a == b
}

pub open spec fn ordering_of(a: SequenceNumber, b: SequenceNumber) -> std::cmp::Ordering {
    if seq_lt(a, b) {
        std::cmp::Ordering::Less
    } else if a == b {
        std::cmp::Ordering::Equal
    } else {
        std::cmp::Ordering::Greater
    }
}

impl PartialOrd for SequenceNumber {
    fn partial_cmp(&self, other: &Self) -> (r: Option<std::cmp::Ordering>)
        ensures
            r == Some(ordering_of(*self, *other)),
    {
        if self.seq == other.seq {
            if self.server_id < other.server_id {
                Some(std::cmp::Ordering::Less)
            } else if self.server_id == other.server_id {
                Some(std::cmp::Ordering::Equal)
            } else {
                Some(std::cmp::Ordering::Greater)
            }
        } else if self.seq < other.seq {
            Some(std::cmp::Ordering::Less)
        } else {
            Some(std::cmp::Ordering::Greater)
        }
    }
}

impl vstd::std_specs::cmp::PartialOrdSpecImpl for SequenceNumber {
    open spec fn obeys_partial_cmp_spec() -> bool {
        true
    }

    open spec fn partial_cmp_spec(&self, other: &Self) -> Option<std::cmp::Ordering> {
        Some(ordering_of(*self, *other))
    }
}

impl SequenceNumber {
    /// The ballot `seq` of proposer `server_id`.
    pub fn new(server_id: usize, seq: usize) -> (r: Self)
        ensures
            r.server_id == server_id,
            r.seq == seq,
    {
        Self { server_id, seq }
    }

    /// Moves to the next ballot of the same proposer.
    pub fn increase(&mut self)
        requires
            old(self).seq < usize::MAX,
        ensures
            final(self).seq == old(self).seq + 1,
            final(self).server_id == old(self).server_id,
            seq_lt(*old(self), *final(self)),
    {
        self.seq = self.seq + 1;
    }

    /// Whether `self` is at least `other` in the ballot order.
    pub fn is_at_least(&self, other: &Self) -> (r: bool)
        ensures
            r == seq_le(*other, *self),
    {
        match self.partial_cmp(other) {
            Some(std::cmp::Ordering::Less) => false,
            _ => true,
        }
    }
}

/// The last proposal that an acceptor voted for.
#[derive(Debug, Clone, Copy, PartialEq, Eq, Structural)]
pub struct AcceptedProposal {
    pub seq: SequenceNumber,
    pub val: ValueType,
}

impl AcceptedProposal {
    pub fn new(seq: SequenceNumber, val: ValueType) -> (r: Self)
        ensures
            r.seq == seq,
            r.val == val,
    {
        Self { seq, val }
    }
}

/// Messages that ask a replica to act.
#[derive(Debug, Clone, Copy, PartialEq, Eq, Structural)]
pub enum Request {
    /// A client asks the replica to get `value` chosen.
    Propose { value: ValueType },
    /// Phase 1: a proposer asks for a promise.
    Prepare { seq: SequenceNumber },
    /// Phase 2: a proposer asks for a vote.
    Accept { seq: SequenceNumber, value: ValueType },
    /// A proposer announces the chosen value.
    Learn { value: ValueType },
    /// A client asks for the chosen value.
    Query,
}

/// Replies to requests.
#[derive(Debug, Clone, Copy, PartialEq, Eq, Structural)]
pub enum Response {
    /// A promise, carrying the acceptor's last accepted proposal.
    Prepare(Option<AcceptedProposal>),
    /// A vote for the ballot `seq`.
    Accept { seq: SequenceNumber },
    /// The chosen value, if the replica has learned one.
    Query { val: Option<ValueType> },
}

/// Everything that travels between replicas and clients.
#[derive(Debug, Clone, Copy, PartialEq, Eq, Structural)]
pub enum Datagram {
    Request(Request),
    Response(Response),
}

/// A datagram that arrived from replica (or client) `src`.
#[derive(Debug)]
pub struct Incoming {
    pub src: usize,
    pub dgram: Datagram,
}

/// A datagram to be sent to each replica in `dst`.
#[derive(Debug)]
pub struct Outgoing {
    pub dst: HashSet<usize>,
    pub dgram: Datagram,
}

/// What an `Outgoing` stands for.
pub struct OutgoingView {
    pub dst: Set<usize>,
    pub dgram: Datagram,
}

impl View for Outgoing {
    type V = OutgoingView;

    open spec fn view(&self) -> OutgoingView {
        OutgoingView { dst: self.dst@, dgram: self.dgram }
    }
}

/// Why a replica could not handle a message.
#[derive(Debug, Clone, Copy, PartialEq, Eq, Structural)]
pub enum PaxosError {
    /// A `Learn` announced a value other than the one already chosen: the
    /// cluster's safety has been broken, and the replica must stop.
    ConflictingLearn { chosen: ValueType, learned: ValueType },
    /// The proposer has used up its ballot counter.
    BallotsExhausted,
}

/// The in-flight round of a proposer.
#[derive(Debug)]
struct Proposal {
    seq: SequenceNumber,
    value: Option<ValueType>,
    wanted_value: ValueType,
    highest_seq: Option<SequenceNumber>,
    prepared: HashSet<usize>,
    accepted: HashSet<usize>,
}

/// What a `Proposal` stands for.
pub struct ProposalView {
    /// The ballot of the round.
    pub seq: SequenceNumber,
    /// The value that phase 2 pushes: the one carried by the highest promise
    /// so far, and from phase 2 on, the value sent in `Accept`.
    pub value: Option<ValueType>,
    /// The value that the client asked for.
    pub wanted_value: ValueType,
    /// The highest ballot among the accepted proposals carried by promises.
    pub highest_seq: Option<SequenceNumber>,
    /// The replicas that promised.
    pub prepared: Set<usize>,
    /// The replicas that voted in phase 2.
    pub accepted: Set<usize>,
}

impl View for Proposal {
    type V = ProposalView;

    closed spec fn view(&self) -> ProposalView {
        ProposalView {
            seq: self.seq,
            value: self.value,
            wanted_value: self.wanted_value,
            highest_seq: self.highest_seq,
            prepared: self.prepared@,
            accepted: self.accepted@,
        }
    }
}

/// A replica: proposer, acceptor and learner in one state machine.
#[derive(Debug)]
pub struct Paxos {
    local_id: usize,
    peers_id: HashSet<usize>,
    last_promised: Option<SequenceNumber>,
    chosen: Option<ValueType>,
    last_accepted_proposal: Option<AcceptedProposal>,
    proposal: Option<Proposal>,
    current_seq: SequenceNumber,
}

/// What a `Paxos` replica stands for.
pub struct PaxosView {
    pub local_id: usize,
    /// Every replica of the cluster, this one included.
    pub peers: Set<usize>,
    /// The highest ballot promised as acceptor.
    pub last_promised: Option<SequenceNumber>,
    /// The last proposal accepted as acceptor.
    pub last_accepted: Option<AcceptedProposal>,
    /// The value learned as learner.
    pub chosen: Option<ValueType>,
    /// The round in flight as proposer.
    pub proposal: Option<ProposalView>,
    /// The last ballot generated as proposer.
    pub current_seq: SequenceNumber,
}

impl View for Paxos {
    type V = PaxosView;

    closed spec fn view(&self) -> PaxosView {
        PaxosView {
            local_id: self.local_id,
            peers: self.peers_id@,
            last_promised: self.last_promised,
            last_accepted: self.last_accepted_proposal,
            chosen: self.chosen,
            proposal: match self.proposal {
                Some(p) => Some(p@),
                None => None,
            },
            current_seq: self.current_seq,
        }
    }
}

/// The number of replicas that make a majority of `n`.
pub open spec fn quorum(n: nat) -> nat {
    n / 2 + 1
}

/// Whether an acceptor that promised `promised` may promise or vote for `seq`.
pub open spec fn admits(promised: Option<SequenceNumber>, seq: SequenceNumber) -> bool {
    match promised {
        None => true,
        Some(p) => seq_le(p, seq),
    }
}

/// `a` is no later than `b` as a promise: nothing, or a ballot at most `b`.
pub open spec fn promise_le(a: Option<SequenceNumber>, b: Option<SequenceNumber>) -> bool {
    match a {
        None => true,
        Some(x) => match b {
            None => false,
            Some(y) => seq_le(x, y),
        },
    }
}

impl ProposalView {
    /// Phase 2 has begun: a majority of the cluster promised.
    pub open spec fn in_phase_two(self, n: nat) -> bool {
        self.prepared.len() >= quorum(n)
    }

    /// The value has been announced: a majority of the cluster voted.
    pub open spec fn is_learned(self, n: nat) -> bool {
        self.accepted.len() >= quorum(n)
    }

    pub open spec fn inv(self) -> bool {
        &&& self.prepared.finite()
        &&& self.accepted.finite()
    }
}

impl PaxosView {
    /// The state that every replica keeps: what it accepted it also promised.
    pub open spec fn inv(self) -> bool {
        &&& self.current_seq.server_id == self.local_id
        &&& match self.last_accepted {
            None => true,
            Some(a) => promise_le(Some(a.seq), self.last_promised),
        }
        &&& match self.proposal {
            None => true,
            Some(p) => p.inv(),
        }
    }

    pub open spec fn with_proposal(self, p: ProposalView) -> PaxosView {
        PaxosView { proposal: Some(p), ..self }
    }
}

/// One outbound datagram to a single replica.
pub open spec fn reply(dst: usize, dgram: Datagram) -> Option<OutgoingView> {
    Some(OutgoingView { dst: set![dst], dgram })
}

/// How a replica in state `pre` handles a request from `src`: the state after
/// it and what it sends, or the error that stops it.
pub open spec fn request_step(pre: PaxosView, src: usize, req: Request) -> Result<
    (PaxosView, Option<OutgoingView>),
    PaxosError,
> {
    match req {
        Request::Prepare { seq } => if admits(pre.last_promised, seq) {
            Ok(
                (
                    PaxosView { last_promised: Some(seq), ..pre },
                    reply(src, Datagram::Response(Response::Prepare(pre.last_accepted))),
                ),
            )
        } else {
            Ok((pre, None))
        },
        Request::Accept { seq, value } => if admits(pre.last_promised, seq) {
            Ok(
                (
                    PaxosView {
                        last_promised: Some(seq),
                        last_accepted: Some(AcceptedProposal { seq, val: value }),
                        ..pre
                    },
                    reply(src, Datagram::Response(Response::Accept { seq })),
                ),
            )
        } else {
            Ok((pre, None))
        },
        Request::Learn { value } => match pre.chosen {
            Some(c) if c != value => Err(PaxosError::ConflictingLearn { chosen: c, learned: value }),
            _ => Ok((PaxosView { chosen: Some(value), ..pre }, None)),
        },
        Request::Propose { value } => if pre.current_seq.seq == usize::MAX {
            Err(PaxosError::BallotsExhausted)
        } else {
            let seq = SequenceNumber {
                seq: (pre.current_seq.seq + 1) as usize,
                server_id: pre.current_seq.server_id,
            };
            let p = ProposalView {
                seq,
                value: None,
                wanted_value: value,
                highest_seq: None,
                prepared: Set::empty(),
                accepted: Set::empty(),
            };
            Ok(
                (
                    PaxosView { current_seq: seq, ..pre.with_proposal(p) },
                    Some(
                        OutgoingView {
                            dst: pre.peers,
                            dgram: Datagram::Request(Request::Prepare { seq }),
                        },
                    ),
                ),
            )
        },
        Request::Query => Ok((pre, reply(src, Datagram::Response(Response::Query { val: pre.chosen })))),
    }
}

/// The proposal after a promise from `src` that carries `acc`. Before phase
/// 2 the promise may raise the value to push; the promise that completes a
/// majority pins that value (the client's if no promise carried one). Once
/// phase 2 has begun a promise is still counted but changes no value, so
/// that what is announced is what was voted on.
pub open spec fn after_promise(
    p: ProposalView,
    n: nat,
    src: usize,
    acc: Option<AcceptedProposal>,
) -> ProposalView {
    let started = p.in_phase_two(n);
    let counted = ProposalView { prepared: p.prepared.insert(src), ..p };
    let raised = match acc {
        Some(a) => if !started && (p.highest_seq is None || seq_lt(p.highest_seq->0, a.seq)) {
            ProposalView { highest_seq: Some(a.seq), value: Some(a.val), ..counted }
        } else {
            counted
        },
        None => counted,
    };
    if !started && raised.in_phase_two(n) {
        ProposalView {
            value: Some(
                match raised.value {
                    Some(v) => v,
                    None => raised.wanted_value,
                },
            ),
            ..raised
        }
    } else {
        raised
    }
}

/// How a replica in state `pre` handles a response from `src`. Responses
/// with no round in flight are late ones from an overridden round and are
/// dropped, as are votes for another ballot than the round's. The vote that
/// first makes a majority announces the round's value, where it is set.
pub open spec fn response_step(pre: PaxosView, src: usize, resp: Response) -> (
    PaxosView,
    Option<OutgoingView>,
) {
    let n = pre.peers.len();
    match resp {
        Response::Prepare(acc) => match pre.proposal {
            None => (pre, None),
            Some(p) => {
                let q = after_promise(p, n, src, acc);
                let out = if !p.in_phase_two(n) && q.in_phase_two(n) {
                    Some(
                        OutgoingView {
                            dst: q.prepared,
                            dgram: Datagram::Request(
                                Request::Accept { seq: q.seq, value: q.value->0 },
                            ),
                        },
                    )
                } else {
                    None
                };
                (pre.with_proposal(q), out)
            },
        },
        Response::Accept { seq } => match pre.proposal {
            Some(p) if seq == p.seq => {
                let q = ProposalView { accepted: p.accepted.insert(src), ..p };
                let out = if !p.is_learned(n) && q.is_learned(n) && q.value is Some {
                    Some(
                        OutgoingView {
                            dst: pre.peers,
                            dgram: Datagram::Request(Request::Learn { value: q.value->0 }),
                        },
                    )
                } else {
                    None
                };
                (pre.with_proposal(q), out)
            },
            _ => (pre, None),
        },
        Response::Query { .. } => (pre, None),
    }
}

/// How a replica in state `pre` handles datagram `d` from `src`.
pub open spec fn step(pre: PaxosView, src: usize, d: Datagram) -> Result<
    (PaxosView, Option<OutgoingView>),
    PaxosError,
> {
    match d {
        Datagram::Request(req) => request_step(pre, src, req),
        Datagram::Response(resp) => Ok(response_step(pre, src, resp)),
    }
}

/// The view of an optional outbound datagram.
pub open spec fn out_view(o: Option<Outgoing>) -> Option<OutgoingView> {
    match o {
        Some(x) => Some(x@),
        None => None,
    }
}


/// A copy of a set of replica ids.
fn copy_ids(s: &HashSet<usize>) -> (r: HashSet<usize>)
    ensures
        r@ == s@,
{
    let mut r: HashSet<usize> = HashSet::new();
    for x in it: s.iter()
        invariant
            it.seq().unref().to_set() == s@,
            forall|k: usize| #[trigger] r@.contains(k) ==> s@.contains(k),
            forall|k: usize|
                #[trigger] s@.contains(k) ==> r@.contains(k) || exists|i: int|
                    it.index() <= i < it.seq().len() && *it.seq()[i] == k,
    {
        proof {
            assert(it.seq().unref()[it.index() as int] == *x);
            assert(it.seq().unref().contains(*x));
        }
        r.insert(*x);
        assert forall|k: usize| #[trigger] s@.contains(k) implies r@.contains(k) || exists|i: int|
            it.index() + 1 <= i < it.seq().len() && *it.seq()[i] == k by {
            if !r@.contains(k) {
                let i = choose|i: int| it.index() <= i < it.seq().len() && *it.seq()[i] == k;
                assert(i != it.index());
            }
        }
    }
    assert(r@ =~= s@);
    r
}

/// The promise did not go down from `pre` to `post`.
pub open spec fn promise_kept(pre: PaxosView, post: PaxosView) -> bool {
    promise_le(pre.last_promised, post.last_promised)
}

/// Whatever was accepted, or voted for, from `pre` on, had a ballot at least
/// the one promised in `pre`.
pub open spec fn accepts_respect_promise(
    pre: PaxosView,
    post: PaxosView,
    out: Option<OutgoingView>,
) -> bool {
    &&& post.last_accepted != pre.last_accepted ==> match post.last_accepted {
        Some(a) => admits(pre.last_promised, a.seq),
        None => false,
    }
    &&& match out {
        Some(o) => match o.dgram {
            Datagram::Response(Response::Accept { seq }) => admits(pre.last_promised, seq),
            _ => true,
        },
        None => true,
    }
}

/// An `Accept` request goes out only to the replicas that promised the
/// round, a majority; a `Learn` only once a majority voted for the round.
pub open spec fn quorum_before_sending(
    pre: PaxosView,
    post: PaxosView,
    out: Option<OutgoingView>,
) -> bool {
    match out {
        Some(o) => match (o.dgram, post.proposal) {
            (Datagram::Request(Request::Accept { seq, value }), Some(p)) => {
                &&& p.seq == seq
                &&& p.value == Some(value)
                &&& o.dst == p.prepared
                &&& p.prepared.len() >= quorum(pre.peers.len())
            },
            (Datagram::Request(Request::Learn { value }), Some(p)) => {
                &&& p.value == Some(value)
                &&& p.accepted.len() >= quorum(pre.peers.len())
            },
            (Datagram::Request(Request::Accept { .. }), None) => false,
            (Datagram::Request(Request::Learn { .. }), None) => false,
            _ => true,
        },
        None => true,
    }
}

/// A value learned in `pre` is still the one learned in `post`.
pub open spec fn learned_value_kept(pre: PaxosView, post: PaxosView) -> bool {
    pre.chosen is Some ==> post.chosen == pre.chosen
}

/// A replica's promise never goes down: after any datagram it has promised
/// a ballot at least as high as before.
pub proof fn lemma_promise_monotonic(pre: PaxosView, src: usize, d: Datagram)
    requires
        pre.inv(),
    ensures
        match step(pre, src, d) {
            Ok((post, _)) => promise_kept(pre, post),
            Err(_) => true,
        },
{
}

/// A replica accepts a proposal, or votes for a ballot, only where the
/// ballot is at least the one it promised just before.
pub proof fn lemma_accept_respects_promise(pre: PaxosView, src: usize, d: Datagram)
    requires
        pre.inv(),
    ensures
        match step(pre, src, d) {
            Ok((post, out)) => accepts_respect_promise(pre, post, out),
            Err(_) => true,
        },
{
}

/// A proposer asks for votes only once a majority of the cluster promised,
/// and asks those replicas alone; it announces a value only once a majority
/// voted for it.
pub proof fn lemma_quorum_before_phase_two(pre: PaxosView, src: usize, d: Datagram)
    requires
        pre.inv(),
    ensures
        match step(pre, src, d) {
            Ok((post, out)) => quorum_before_sending(pre, post, out),
            Err(_) => true,
        },
{
}

/// A replica never changes the value it learned: a `Learn` of another
/// value is an error, which leaves the replica as it was.
pub proof fn lemma_chosen_stable(pre: PaxosView, src: usize, d: Datagram)
    requires
        pre.inv(),
    ensures
        match step(pre, src, d) {
            Ok((post, _)) => learned_value_kept(pre, post),
            Err(_) => true,
        },
{
}

/// The values that a replica's state holds.
pub open spec fn held_values(v: PaxosView) -> Set<ValueType> {
    Set::new(
        |x: ValueType|
            v.chosen == Some(x) || (v.last_accepted matches Some(a) && a.val == x) || (
            v.proposal matches Some(p) && (p.wanted_value == x || p.value == Some(x))),
    )
}

/// The values that a datagram carries.
pub open spec fn carried_values(d: Datagram) -> Set<ValueType> {
    match d {
        Datagram::Request(Request::Propose { value }) => set![value],
        Datagram::Request(Request::Accept { value, .. }) => set![value],
        Datagram::Request(Request::Learn { value }) => set![value],
        Datagram::Response(Response::Prepare(Some(a))) => set![a.val],
        Datagram::Response(Response::Query { val: Some(v) }) => set![v],
        _ => Set::empty(),
    }
}

/// A replica invents no value: what it holds and sends after a datagram,
/// it held before or the datagram carried.
pub proof fn lemma_no_new_values(pre: PaxosView, src: usize, d: Datagram)
    requires
        pre.inv(),
    ensures
        match step(pre, src, d) {
            Ok((post, out)) => {
                &&& held_values(post).subset_of(held_values(pre).union(carried_values(d)))
                &&& match out {
                    Some(o) => carried_values(o.dgram).subset_of(
                        held_values(pre).union(carried_values(d)),
                    ),
                    None => true,
                }
            },
            Err(_) => true,
        },
{
}

/// A whole cluster: its replicas by id, every datagram sent so far (the
/// network may deliver each one any number of times, in any order), and the
/// values that clients proposed.
pub struct ClusterView {
    pub replicas: Map<usize, PaxosView>,
    pub sent: Set<Datagram>,
    pub proposed: Set<ValueType>,
}

/// One move of a cluster.
pub enum ClusterStep {
    /// Replica `id` handles the sent datagram `d` as coming from `src`.
    Deliver { id: usize, src: usize, d: Datagram },
    /// A client sends `Propose { value }`.
    ClientPropose { value: ValueType },
    /// A client sends `Query`.
    ClientQuery,
}

pub open spec fn sent_after(sent: Set<Datagram>, out: Option<OutgoingView>) -> Set<Datagram> {
    match out {
        Some(o) => sent.insert(o.dgram),
        None => sent,
    }
}

/// `c2` follows `c` by the move `m`.
pub open spec fn cluster_next(c: ClusterView, c2: ClusterView, m: ClusterStep) -> bool {
    match m {
        ClusterStep::Deliver { id, src, d } => {
            &&& c.replicas.contains_key(id)
            &&& c.sent.contains(d)
            &&& step(c.replicas[id], src, d) matches Ok((post, out))
            &&& c2 == ClusterView {
                replicas: c.replicas.insert(id, post),
                sent: sent_after(c.sent, out),
                proposed: c.proposed,
            }
        },
        ClusterStep::ClientPropose { value } => c2 == ClusterView {
            sent: c.sent.insert(Datagram::Request(Request::Propose { value })),
            proposed: c.proposed.insert(value),
            ..c
        },
        ClusterStep::ClientQuery => c2 == ClusterView {
            sent: c.sent.insert(Datagram::Request(Request::Query)),
            ..c
        },
    }
}

/// Every value that the cluster holds or has sent was proposed by a client.
pub open spec fn only_proposed_values(c: ClusterView) -> bool {
    &&& forall|id: usize| #[trigger]
        c.replicas.contains_key(id) ==> c.replicas[id].inv() && held_values(
            c.replicas[id],
        ).subset_of(c.proposed)
    &&& forall|d: Datagram| #[trigger] c.sent.contains(d) ==> carried_values(d).subset_of(c.proposed)
}

/// Validity: a cluster in which every value was proposed by a client stays
/// so after any move; in particular a replica learns only a value that some
/// client proposed.
pub proof fn lemma_validity(c: ClusterView, c2: ClusterView, m: ClusterStep)
    requires
        only_proposed_values(c),
        cluster_next(c, c2, m),
    ensures
        only_proposed_values(c2),
        forall|id: usize| #[trigger]
            c2.replicas.contains_key(id) ==> match c2.replicas[id].chosen {
                Some(v) => c2.proposed.contains(v),
                None => true,
            },
{
    match m {
        ClusterStep::Deliver { id, src, d } => {
            let pre = c.replicas[id];
            lemma_no_new_values(pre, src, d);
            lemma_step_keeps_inv(pre, src, d);
        },
        _ => {},
    }
    assert forall|id: usize| #[trigger] c2.replicas.contains_key(id) implies match c2.replicas[id].chosen {
        Some(v) => c2.proposed.contains(v),
        None => true,
    } by {
        if c2.replicas[id].chosen is Some {
            assert(held_values(c2.replicas[id]).contains(c2.replicas[id].chosen->0));
        }
    }
}

/// The replica invariant holds after every step.
pub proof fn lemma_step_keeps_inv(pre: PaxosView, src: usize, d: Datagram)
    requires
        pre.inv(),
    ensures
        match step(pre, src, d) {
            Ok((post, _)) => post.inv(),
            Err(_) => true,
        },
{
}

/// The set holding `id` alone.
fn single_id(id: usize) -> (r: HashSet<usize>)
    ensures
        r@ == set![id],
{
    let mut r: HashSet<usize> = HashSet::new();
    r.insert(id);
    r
}

impl Paxos {
    /// The replica keeps its invariant.
    pub open spec fn wf(&self) -> bool {
        self@.inv()
    }

    /// A fresh replica `local_id` of the cluster `peers_id`: nothing promised,
    /// accepted, learned or proposed yet.
    pub fn new(local_id: usize, peers_id: HashSet<usize>) -> (r: Self)
        ensures
            r.wf(),
            r@ == (PaxosView {
                local_id,
                peers: peers_id@,
                last_promised: None,
                last_accepted: None,
                chosen: None,
                proposal: None,
                current_seq: SequenceNumber { seq: 0, server_id: local_id },
            }),
    {
        Paxos {
            local_id,
            peers_id,
            last_promised: None,
            chosen: None,
            last_accepted_proposal: None,
            proposal: None,
            current_seq: SequenceNumber::new(local_id, 0),
        }
    }

    pub fn local_id(&self) -> (r: usize)
        ensures
            r == self@.local_id,
    {
        self.local_id
    }

    /// The highest ballot promised.
    pub fn last_promised(&self) -> (r: Option<SequenceNumber>)
        ensures
            r == self@.last_promised,
    {
        self.last_promised
    }

    /// The last proposal accepted.
    pub fn last_accepted(&self) -> (r: Option<AcceptedProposal>)
        ensures
            r == self@.last_accepted,
    {
        self.last_accepted_proposal
    }

    /// The value learned, if any.
    pub fn chosen(&self) -> (r: Option<ValueType>)
        ensures
            r == self@.chosen,
    {
        self.chosen
    }

    /// Whether the replica may promise or vote for `seq`.
    fn admits(&self, seq: &SequenceNumber) -> (r: bool)
        ensures
            r == admits(self@.last_promised, *seq),
    {
        match self.last_promised {
            None => true,
            Some(p) => seq.is_at_least(&p),
        }
    }

    /// A fresh ballot, above every ballot this replica generated before.
    fn next_seq(&mut self) -> (r: SequenceNumber)
        requires
            old(self).current_seq.seq < usize::MAX,
        ensures
            r.seq == old(self).current_seq.seq + 1,
            r.server_id == old(self).current_seq.server_id,
            final(self)@ == (PaxosView { current_seq: r, ..old(self)@ }),
    {
        self.current_seq.increase();
        self.current_seq
    }

    /// Handles one datagram: updates the replica and returns what it sends.
    /// On an error the replica is left as it was.
    pub fn handle_incoming(&mut self, incoming: Incoming) -> (r: Result<
        Option<Outgoing>,
        PaxosError,
    >)
        requires
            old(self).wf(),
        ensures
            final(self).wf(),
            match step(old(self)@, incoming.src, incoming.dgram) {
                Ok((post, out)) => r matches Ok(o) && final(self)@ == post && out_view(o) == out,
                Err(e) => r matches Err(x) && x == e && final(self)@ == old(self)@,
            },
            promise_kept(old(self)@, final(self)@),
            learned_value_kept(old(self)@, final(self)@),
            r matches Ok(o) ==> accepts_respect_promise(old(self)@, final(self)@, out_view(o))
                && quorum_before_sending(old(self)@, final(self)@, out_view(o)),
    {
        proof {
            lemma_promise_monotonic(old(self)@, incoming.src, incoming.dgram);
            lemma_accept_respects_promise(old(self)@, incoming.src, incoming.dgram);
            lemma_quorum_before_phase_two(old(self)@, incoming.src, incoming.dgram);
            lemma_chosen_stable(old(self)@, incoming.src, incoming.dgram);
        }
        let Incoming { src, dgram } = incoming;
        match dgram {
            Datagram::Request(req) => self.handle_request(src, req),
            Datagram::Response(resp) => Ok(self.handle_response(src, resp)),
        }
    }

    fn handle_request(&mut self, src: usize, req: Request) -> (r: Result<
        Option<Outgoing>,
        PaxosError,
    >)
        requires
            old(self).wf(),
        ensures
            final(self).wf(),
            match request_step(old(self)@, src, req) {
                Ok((post, out)) => r matches Ok(o) && final(self)@ == post && out_view(o) == out,
                Err(e) => r matches Err(x) && x == e && final(self)@ == old(self)@,
            },
            promise_kept(old(self)@, final(self)@),
            learned_value_kept(old(self)@, final(self)@),
            r matches Ok(o) ==> accepts_respect_promise(old(self)@, final(self)@, out_view(o)),
    {
        proof {
            let d = Datagram::Request(req);
            lemma_promise_monotonic(old(self)@, src, d);
            lemma_accept_respects_promise(old(self)@, src, d);
            lemma_chosen_stable(old(self)@, src, d);
        }
        match req {
            Request::Prepare { seq } => {
                if self.admits(&seq) {
                    self.last_promised = Some(seq);
                    let resp = Response::Prepare(self.last_accepted_proposal);
                    Ok(Some(Outgoing { dst: single_id(src), dgram: Datagram::Response(resp) }))
                } else {
                    Ok(None)
                }
            },
            Request::Accept { seq, value } => {
                if self.admits(&seq) {
                    self.last_promised = Some(seq);
                    self.last_accepted_proposal = Some(AcceptedProposal::new(seq, value));
                    let resp = Response::Accept { seq };
                    Ok(Some(Outgoing { dst: single_id(src), dgram: Datagram::Response(resp) }))
                } else {
                    Ok(None)
                }
            },
            Request::Learn { value } => {
                if let Some(chosen) = self.chosen {
                    if chosen != value {
                        return Err(PaxosError::ConflictingLearn { chosen, learned: value });
                    }
                }
                self.chosen = Some(value);
                Ok(None)
            },
            Request::Propose { value } => {
                if self.current_seq.seq == usize::MAX {
                    return Err(PaxosError::BallotsExhausted);
                }
                let seq = self.next_seq();
                self.proposal = Some(
                    Proposal {
                        seq,
                        value: None,
                        wanted_value: value,
                        highest_seq: None,
                        prepared: HashSet::new(),
                        accepted: HashSet::new(),
                    },
                );
                let req = Request::Prepare { seq };
                Ok(Some(Outgoing { dst: copy_ids(&self.peers_id), dgram: Datagram::Request(req) }))
            },
            Request::Query => {
                let resp = Response::Query { val: self.chosen };
                Ok(Some(Outgoing { dst: single_id(src), dgram: Datagram::Response(resp) }))
            },
        }
    }

    fn handle_response(&mut self, src: usize, resp: Response) -> (r: Option<Outgoing>)
        requires
            old(self).wf(),
        ensures
            final(self).wf(),
            (final(self)@, out_view(r)) == response_step(old(self)@, src, resp),
            quorum_before_sending(old(self)@, final(self)@, out_view(r)),
    {
        proof {
            lemma_quorum_before_phase_two(old(self)@, src, Datagram::Response(resp));
        }
        let majority = self.peers_id.len() / 2 + 1;
        match resp {
            Response::Prepare(accepted) => {
                match self.proposal.take() {
                    None => None,
                    Some(mut p) => {
                        let started = p.prepared.len() >= majority;
                        p.prepared.insert(src);
                        if !started {
                            if let Some(a) = accepted {
                                let higher = match p.highest_seq {
                                    None => true,
                                    Some(h) => !h.is_at_least(&a.seq),
                                };
                                if higher {
                                    p.highest_seq = Some(a.seq);
                                    p.value = Some(a.val);
                                }
                            }
                        }
                        let mut out: Option<Outgoing> = None;
                        if !started && p.prepared.len() >= majority {
                            let v = match p.value {
                                Some(v) => v,
                                None => p.wanted_value,
                            };
                            p.value = Some(v);
                            let req = Request::Accept { seq: p.seq, value: v };
                            out = Some(
                                Outgoing { dst: copy_ids(&p.prepared), dgram: Datagram::Request(req) },
                            );
                        }
                        self.proposal = Some(p);
                        out
                    },
                }
            },
            Response::Accept { seq } => {
                match self.proposal.take() {
                    None => None,
                    Some(mut p) => {
                        let mut out: Option<Outgoing> = None;
                        if seq == p.seq {
                            let learned = p.accepted.len() >= majority;
                            p.accepted.insert(src);
                            if !learned && p.accepted.len() >= majority {
                                if let Some(value) = p.value {
                                    let req = Request::Learn { value };
                                    out = Some(
                                        Outgoing {
                                            dst: copy_ids(&self.peers_id),
                                            dgram: Datagram::Request(req),
                                        },
                                    );
                                }
                            }
                        }
                        self.proposal = Some(p);
                        out
                    },
                }
            },
            Response::Query { .. } => None,
        }
    }
}

} // verus!
