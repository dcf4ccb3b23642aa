use paxos::{
    replica_ids, AcceptedProposal, Datagram, Incoming, Outgoing, Paxos, PaxosError, Request,
    Response, SequenceNumber,
};
use std::collections::{HashSet, VecDeque};

/// A cluster of replicas `1..=n` joined by a network that delivers in order.
struct Cluster {
    replicas: Vec<Paxos>,
    queue: VecDeque<(usize, usize, Datagram)>,
    to_client: Vec<(usize, Datagram)>,
    proposed: HashSet<u32>,
}

impl Cluster {
    fn new(n: usize) -> Self {
        let replicas = (1..=n).map(|id| Paxos::new(id, replica_ids(n))).collect();
        Cluster { replicas, queue: VecDeque::new(), to_client: Vec::new(), proposed: HashSet::new() }
    }

    fn replica(&self, id: usize) -> &Paxos {
        &self.replicas[id - 1]
    }

    fn send(&mut self, src: usize, out: Outgoing) {
        let mut dst: Vec<usize> = out.dst.into_iter().collect();
        dst.sort();
        for d in dst {
            self.queue.push_back((src, d, out.dgram));
        }
    }

    fn client_sends(&mut self, dst: usize, dgram: Datagram) {
        if let Datagram::Request(Request::Propose { value }) = dgram {
            self.proposed.insert(value);
        }
        self.queue.push_back((0, dst, dgram));
    }

    fn deliver(&mut self, src: usize, dst: usize, dgram: Datagram) {
        if dst == 0 {
            self.to_client.push((src, dgram));
            return;
        }
        let before = self.replicas[dst - 1].last_promised();
        let out = self.replicas[dst - 1].handle_incoming(Incoming { src, dgram }).unwrap();
        let after = self.replicas[dst - 1].last_promised();
        if let Some(b) = before {
            assert!(after.unwrap() >= b);
        }
        if let Some(out) = out {
            self.send(dst, out);
        }
    }

    fn settle(&mut self) {
        while let Some((src, dst, dgram)) = self.queue.pop_front() {
            self.deliver(src, dst, dgram);
        }
    }

    fn query_all(&mut self) -> Vec<Option<u32>> {
        let n = self.replicas.len();
        for id in 1..=n {
            self.client_sends(id, Datagram::Request(Request::Query));
        }
        self.settle();
        let answers: Vec<Option<u32>> = self
            .to_client
            .iter()
            .rev()
            .take(n)
            .map(|(_, d)| match d {
                Datagram::Response(Response::Query { val }) => *val,
                other => panic!("unexpected reply {:?}", other),
            })
            .collect();
        answers
    }
}

fn incoming(src: usize, dgram: Datagram) -> Incoming {
    Incoming { src, dgram }
}

#[test]
fn happy_path_single_proposer() {
    let mut c = Cluster::new(3);
    c.client_sends(1, Datagram::Request(Request::Propose { value: 42 }));
    c.settle();
    assert_eq!(c.query_all(), vec![Some(42), Some(42), Some(42)]);
}

#[test]
fn concurrent_proposers_agree() {
    let mut c = Cluster::new(3);
    c.client_sends(1, Datagram::Request(Request::Propose { value: 42 }));
    c.client_sends(2, Datagram::Request(Request::Propose { value: 24 }));
    c.settle();
    let answers = c.query_all();
    let v = answers[0].unwrap();
    assert!(v == 42 || v == 24);
    assert!(answers.iter().all(|a| *a == Some(v)));
    assert!(c.proposed.contains(&v));
}

#[test]
fn concurrent_proposers_agree_in_reverse_order() {
    let mut c = Cluster::new(5);
    c.client_sends(3, Datagram::Request(Request::Propose { value: 1 }));
    c.client_sends(4, Datagram::Request(Request::Propose { value: 2 }));
    c.client_sends(5, Datagram::Request(Request::Propose { value: 3 }));
    while let Some((src, dst, dgram)) = c.queue.pop_back() {
        c.deliver(src, dst, dgram);
    }
    let answers = c.query_all();
    let learned: Vec<u32> = answers.iter().filter_map(|a| *a).collect();
    assert!(!learned.is_empty());
    assert!(learned.iter().all(|v| *v == learned[0]));
    assert!(c.proposed.contains(&learned[0]));
}

#[test]
fn query_before_decision() {
    let mut p = Paxos::new(1, replica_ids(3));
    let out = p.handle_incoming(incoming(0, Datagram::Request(Request::Query))).unwrap().unwrap();
    assert_eq!(out.dst, [0].into_iter().collect::<HashSet<usize>>());
    assert_eq!(out.dgram, Datagram::Response(Response::Query { val: None }));
}

#[test]
fn lower_prepare_is_ignored() {
    let mut p = Paxos::new(1, replica_ids(3));
    let five = SequenceNumber::new(2, 5);
    let three = SequenceNumber::new(2, 3);
    let out = p.handle_incoming(incoming(2, Datagram::Request(Request::Prepare { seq: five })));
    let out = out.unwrap().unwrap();
    assert_eq!(out.dgram, Datagram::Response(Response::Prepare(None)));
    let out = p.handle_incoming(incoming(2, Datagram::Request(Request::Prepare { seq: three })));
    assert!(out.unwrap().is_none());
    assert_eq!(p.last_promised(), Some(five));
}

#[test]
fn equal_prepare_is_promised_again() {
    let mut p = Paxos::new(1, replica_ids(3));
    let s = SequenceNumber::new(2, 5);
    p.handle_incoming(incoming(2, Datagram::Request(Request::Prepare { seq: s }))).unwrap();
    let out = p.handle_incoming(incoming(2, Datagram::Request(Request::Prepare { seq: s })));
    assert!(out.unwrap().is_some());
}

#[test]
fn ballots_order_by_counter_then_proposer() {
    assert!(SequenceNumber::new(9, 1) < SequenceNumber::new(1, 2));
    assert!(SequenceNumber::new(1, 2) < SequenceNumber::new(2, 2));
    assert!(SequenceNumber::new(2, 2).is_at_least(&SequenceNumber::new(2, 2)));
    let mut s = SequenceNumber::new(4, 7);
    s.increase();
    assert_eq!(s, SequenceNumber::new(4, 8));
}

#[test]
fn promise_carrying_accepted_value_is_honored() {
    let mut c = Cluster::new(3);
    let old = SequenceNumber::new(3, 10);
    let out = c.replicas[1].handle_incoming(incoming(3, Datagram::Request(Request::Accept { seq: old, value: 7 })));
    assert!(out.unwrap().is_some());
    assert_eq!(c.replica(2).last_accepted(), Some(AcceptedProposal::new(old, 7)));
    // Ten earlier rounds of replica 1 whose messages are lost.
    for _ in 0..10 {
        let out = c.replicas[0].handle_incoming(incoming(0, Datagram::Request(Request::Propose { value: 99 })));
        assert!(out.unwrap().is_some());
    }
    c.client_sends(1, Datagram::Request(Request::Propose { value: 99 }));
    c.settle();
    assert_eq!(c.query_all(), vec![Some(7), Some(7), Some(7)]);
}

#[test]
fn phase_two_waits_for_a_majority() {
    let mut p = Paxos::new(1, replica_ids(5));
    let out = p.handle_incoming(incoming(0, Datagram::Request(Request::Propose { value: 8 })));
    let out = out.unwrap().unwrap();
    let seq = match out.dgram {
        Datagram::Request(Request::Prepare { seq }) => seq,
        other => panic!("unexpected {:?}", other),
    };
    assert_eq!(seq, SequenceNumber::new(1, 1));
    assert_eq!(out.dst, replica_ids(5));
    let promise = Datagram::Response(Response::Prepare(None));
    assert!(p.handle_incoming(incoming(1, promise)).unwrap().is_none());
    assert!(p.handle_incoming(incoming(1, promise)).unwrap().is_none());
    assert!(p.handle_incoming(incoming(2, promise)).unwrap().is_none());
    let out = p.handle_incoming(incoming(4, promise)).unwrap().unwrap();
    assert_eq!(out.dgram, Datagram::Request(Request::Accept { seq, value: 8 }));
    assert_eq!(out.dst, [1, 2, 4].into_iter().collect::<HashSet<usize>>());
    assert!(p.handle_incoming(incoming(5, promise)).unwrap().is_none());
    let vote = Datagram::Response(Response::Accept { seq });
    assert!(p.handle_incoming(incoming(1, vote)).unwrap().is_none());
    assert!(p.handle_incoming(incoming(2, vote)).unwrap().is_none());
    let out = p.handle_incoming(incoming(4, vote)).unwrap().unwrap();
    assert_eq!(out.dgram, Datagram::Request(Request::Learn { value: 8 }));
    assert_eq!(out.dst, replica_ids(5));
    assert!(p.handle_incoming(incoming(5, vote)).unwrap().is_none());
}

#[test]
fn highest_accepted_value_wins() {
    let mut p = Paxos::new(1, replica_ids(5));
    p.handle_incoming(incoming(0, Datagram::Request(Request::Propose { value: 8 }))).unwrap();
    let low = AcceptedProposal::new(SequenceNumber::new(2, 0), 5);
    let high = AcceptedProposal::new(SequenceNumber::new(3, 0), 6);
    p.handle_incoming(incoming(1, Datagram::Response(Response::Prepare(Some(high))))).unwrap();
    p.handle_incoming(incoming(2, Datagram::Response(Response::Prepare(Some(low))))).unwrap();
    let out = p.handle_incoming(incoming(3, Datagram::Response(Response::Prepare(None))));
    let out = out.unwrap().unwrap();
    assert_eq!(
        out.dgram,
        Datagram::Request(Request::Accept { seq: SequenceNumber::new(1, 1), value: 6 })
    );
}

#[test]
fn late_responses_without_a_round_are_ignored() {
    let mut p = Paxos::new(1, replica_ids(3));
    let seq = SequenceNumber::new(1, 1);
    assert!(p.handle_incoming(incoming(2, Datagram::Response(Response::Prepare(None)))).unwrap().is_none());
    assert!(p.handle_incoming(incoming(2, Datagram::Response(Response::Accept { seq }))).unwrap().is_none());
    assert!(p.handle_incoming(incoming(2, Datagram::Response(Response::Query { val: Some(1) }))).unwrap().is_none());
}

#[test]
fn low_accept_is_refused() {
    let mut p = Paxos::new(2, replica_ids(3));
    let high = SequenceNumber::new(1, 4);
    let low = SequenceNumber::new(3, 3);
    p.handle_incoming(incoming(1, Datagram::Request(Request::Prepare { seq: high }))).unwrap();
    let out = p.handle_incoming(incoming(3, Datagram::Request(Request::Accept { seq: low, value: 1 })));
    assert!(out.unwrap().is_none());
    assert_eq!(p.last_accepted(), None);
    let out = p.handle_incoming(incoming(1, Datagram::Request(Request::Accept { seq: high, value: 2 })));
    assert_eq!(out.unwrap().unwrap().dgram, Datagram::Response(Response::Accept { seq: high }));
    assert_eq!(p.last_accepted(), Some(AcceptedProposal::new(high, 2)));
    assert_eq!(p.last_promised(), Some(high));
}

#[test]
fn conflicting_learn_is_an_error() {
    let mut p = Paxos::new(1, replica_ids(3));
    assert!(p.handle_incoming(incoming(2, Datagram::Request(Request::Learn { value: 4 }))).unwrap().is_none());
    assert!(p.handle_incoming(incoming(3, Datagram::Request(Request::Learn { value: 4 }))).unwrap().is_none());
    let err = p.handle_incoming(incoming(3, Datagram::Request(Request::Learn { value: 5 })));
    assert_eq!(err.unwrap_err(), PaxosError::ConflictingLearn { chosen: 4, learned: 5 });
    assert_eq!(p.chosen(), Some(4));
}

#[test]
fn early_votes_count_but_announce_nothing() {
    let mut p = Paxos::new(1, replica_ids(3));
    p.handle_incoming(incoming(0, Datagram::Request(Request::Propose { value: 8 }))).unwrap();
    let seq = SequenceNumber::new(1, 1);
    let vote = Datagram::Response(Response::Accept { seq });
    assert!(p.handle_incoming(incoming(2, vote)).unwrap().is_none());
    assert!(p.handle_incoming(incoming(3, vote)).unwrap().is_none());
    let promise = Datagram::Response(Response::Prepare(None));
    assert!(p.handle_incoming(incoming(1, promise)).unwrap().is_none());
    let out = p.handle_incoming(incoming(2, promise)).unwrap().unwrap();
    assert_eq!(out.dgram, Datagram::Request(Request::Accept { seq, value: 8 }));
    // Replicas 2 and 3 were counted already: the majority was reached before
    // the value was set, so no later vote announces it.
    assert!(p.handle_incoming(incoming(1, vote)).unwrap().is_none());
}
