//! Latency measurements of a chained decision. Each moment is recorded once,
//! the first time it happens; recording one moment yields the latency since
//! an earlier one, when that was recorded, for the caller to report.
use std::time::{Duration, Instant};
use vstd::prelude::*;

verus! {

pub const END_TO_END_LATENCY_ID: usize = 100;

pub const VOTE_SEND_LATENCY_ID: usize = 150;

pub const VOTE_RECEIVED_LATENCY_ID: usize = 151;

pub const PROPOSAL_SEND_LATENCY_ID: usize = 152;

#[verifier::external_type_specification]
#[verifier::external_body]
pub struct ExInstant(Instant);

/// `Instant::now`: the current moment of a monotonic clock. Nothing is
/// promised of the value, which depends on the time of the call.
#[verifier::external_body]
fn instant_now() -> Instant {
    Instant::now()
}

/// `Instant::duration_since`: the time elapsed from `start` to `end`, zero when
/// `start` is later. Nothing is promised of the value, which depends on the
/// clock readings.
#[verifier::external_body]
fn duration_between(start: &Instant, end: &Instant) -> Duration {
    end.duration_since(*start)
}

/// A latency to report under the metric `metric_id`.
pub struct MetricSample {
    pub metric_id: usize,
    pub duration: Duration,
}

/// The moments of a decision as a replica sees it.
pub struct ReplicaConsensusDecisionMetric {
    pub received_proposal: Option<Instant>,
    pub vote_sent: Option<Instant>,
    pub finalized_decision: Option<Instant>,
}

/// The moments of a decision as the leader gathering its votes sees it.
pub struct LeaderDecisionMetric {
    pub first_vote_received: Option<Instant>,
    pub last_vote_received: Option<Instant>,
}

pub enum ConsensusMetricType {
    ReplicaConsensus,
    NextLeader(LeaderDecisionMetric),
    Leader(LeaderDecisionMetric),
}

pub struct ConsensusMetric {
    pub replica_consensus_decision_metric: ReplicaConsensusDecisionMetric,
    pub metric_type: ConsensusMetricType,
}

/// How a metric is measured.
#[derive(Debug, Clone, Copy, PartialEq, Eq, Structural)]
pub enum MetricKind {
    Duration,
}

/// How important a metric is.
#[derive(Debug, Clone, Copy, PartialEq, Eq, Structural)]
pub enum MetricLevel {
    Info,
}

/// A metric to register before samples of it are reported.
pub struct MetricDescriptor {
    pub id: usize,
    pub name: String,
    pub kind: MetricKind,
    pub level: MetricLevel,
}

impl ReplicaConsensusDecisionMetric {
    pub fn new() -> (m: ReplicaConsensusDecisionMetric)
        ensures
            m.received_proposal is None,
            m.vote_sent is None,
            m.finalized_decision is None,
    {
        ReplicaConsensusDecisionMetric { received_proposal: None, vote_sent: None, finalized_decision: None }
    }

    /// Record the arrival of the proposal, unless one was recorded already.
    pub fn register_proposal_received(&mut self)
        ensures
            final(self).received_proposal is Some,
            old(self).received_proposal is Some ==> final(self).received_proposal == old(self).received_proposal,
            final(self).vote_sent == old(self).vote_sent,
            final(self).finalized_decision == old(self).finalized_decision,
    {
        if self.received_proposal.is_some() {
            return;
        }
        self.received_proposal = Some(instant_now());
    }

    /// Record the sending of the vote, unless recorded already; the first time,
    /// the latency since the proposal arrived is returned, if it was recorded.
    pub fn register_vote_sent(&mut self) -> (r: Option<MetricSample>)
        ensures
            final(self).vote_sent is Some,
            old(self).vote_sent is Some ==> final(self).vote_sent == old(self).vote_sent && r is None,
            old(self).vote_sent is None ==> (r is Some <==> old(self).received_proposal is Some),
            r matches Some(s) ==> s.metric_id == VOTE_SEND_LATENCY_ID,
            final(self).received_proposal == old(self).received_proposal,
            final(self).finalized_decision == old(self).finalized_decision,
    {
        if self.vote_sent.is_some() {
            return None;
        }
        let now = instant_now();
        let sample = match &self.received_proposal {
            Some(start) => Some(MetricSample { metric_id: VOTE_SEND_LATENCY_ID, duration: duration_between(start, &now) }),
            None => None,
        };
        self.vote_sent = Some(now);
        sample
    }

    /// Record the completion of the decision, unless recorded already; the first
    /// time, the latency since the proposal arrived is returned, if it was recorded.
    pub fn register_finalized_decision(&mut self) -> (r: Option<MetricSample>)
        ensures
            final(self).finalized_decision is Some,
            old(self).finalized_decision is Some ==> final(self).finalized_decision == old(self).finalized_decision
                && r is None,
            old(self).finalized_decision is None ==> (r is Some <==> old(self).received_proposal is Some),
            r matches Some(s) ==> s.metric_id == END_TO_END_LATENCY_ID,
            final(self).received_proposal == old(self).received_proposal,
            final(self).vote_sent == old(self).vote_sent,
    {
        if self.finalized_decision.is_some() {
            return None;
        }
        let now = instant_now();
        let sample = match &self.received_proposal {
            Some(start) => Some(MetricSample { metric_id: END_TO_END_LATENCY_ID, duration: duration_between(start, &now) }),
            None => None,
        };
        self.finalized_decision = Some(now);
        sample
    }
}

impl LeaderDecisionMetric {
    pub fn new() -> (m: LeaderDecisionMetric)
        ensures
            m.first_vote_received is None,
            m.last_vote_received is None,
    {
        LeaderDecisionMetric { first_vote_received: None, last_vote_received: None }
    }

    /// Record the first vote, unless one was recorded already.
    pub fn register_vote_received(&mut self)
        ensures
            final(self).first_vote_received is Some,
            old(self).first_vote_received is Some ==> final(self).first_vote_received == old(self).first_vote_received,
            final(self).last_vote_received == old(self).last_vote_received,
    {
        if self.first_vote_received.is_some() {
            return;
        }
        self.first_vote_received = Some(instant_now());
    }

    /// Record the vote that completed the quorum, unless recorded already; the
    /// first time, the latency since the first vote is returned, if recorded.
    pub fn register_last_vote_received(&mut self) -> (r: Option<MetricSample>)
        ensures
            final(self).last_vote_received is Some,
            old(self).last_vote_received is Some ==> final(self).last_vote_received == old(self).last_vote_received
                && r is None,
            old(self).last_vote_received is None ==> (r is Some <==> old(self).first_vote_received is Some),
            r matches Some(s) ==> s.metric_id == VOTE_RECEIVED_LATENCY_ID,
            final(self).first_vote_received == old(self).first_vote_received,
    {
        if self.last_vote_received.is_some() {
            return None;
        }
        let now = instant_now();
        let sample = match &self.first_vote_received {
            Some(start) => Some(MetricSample { metric_id: VOTE_RECEIVED_LATENCY_ID, duration: duration_between(start, &now) }),
            None => None,
        };
        self.last_vote_received = Some(now);
        sample
    }

    /// The sending of the proposal: the latency since the quorum of votes was
    /// complete, when that was recorded. Nothing is recorded.
    pub fn register_proposal_sent(&self) -> (r: Option<MetricSample>)
        ensures
            r is Some <==> self.last_vote_received is Some,
            r matches Some(s) ==> s.metric_id == PROPOSAL_SEND_LATENCY_ID,
    {
        match &self.last_vote_received {
            Some(start) => {
                let now = instant_now();
                Some(MetricSample { metric_id: PROPOSAL_SEND_LATENCY_ID, duration: duration_between(start, &now) })
            },
            None => None,
        }
    }
}

impl ConsensusMetric {
    pub fn replica_consensus_decision() -> (m: ConsensusMetric)
        ensures
            m.metric_type is ReplicaConsensus,
            m.replica_consensus_decision_metric.received_proposal is None,
            m.replica_consensus_decision_metric.vote_sent is None,
            m.replica_consensus_decision_metric.finalized_decision is None,
    {
        ConsensusMetric {
            replica_consensus_decision_metric: ReplicaConsensusDecisionMetric::new(),
            metric_type: ConsensusMetricType::ReplicaConsensus,
        }
    }

    pub fn next_leader_decision() -> (m: ConsensusMetric)
        ensures
            m.metric_type matches ConsensusMetricType::NextLeader(l) && l.first_vote_received is None
                && l.last_vote_received is None,
            m.replica_consensus_decision_metric.received_proposal is None,
            m.replica_consensus_decision_metric.vote_sent is None,
            m.replica_consensus_decision_metric.finalized_decision is None,
    {
        ConsensusMetric {
            replica_consensus_decision_metric: ReplicaConsensusDecisionMetric::new(),
            metric_type: ConsensusMetricType::NextLeader(LeaderDecisionMetric::new()),
        }
    }

    pub fn leader_decision() -> (m: ConsensusMetric)
        ensures
            m.metric_type matches ConsensusMetricType::Leader(l) && l.first_vote_received is None
                && l.last_vote_received is None,
            m.replica_consensus_decision_metric.received_proposal is None,
            m.replica_consensus_decision_metric.vote_sent is None,
            m.replica_consensus_decision_metric.finalized_decision is None,
    {
        ConsensusMetric {
            replica_consensus_decision_metric: ReplicaConsensusDecisionMetric::new(),
            metric_type: ConsensusMetricType::Leader(LeaderDecisionMetric::new()),
        }
    }

    pub fn as_replica_consensus_decision(&mut self) -> (m: &mut ReplicaConsensusDecisionMetric)
        ensures
            *m == old(self).replica_consensus_decision_metric,
            final(self).replica_consensus_decision_metric == *final(m),
            final(self).metric_type == old(self).metric_type,
    {
        &mut self.replica_consensus_decision_metric
    }

    pub fn as_next_leader_decision(&mut self) -> (m: &mut LeaderDecisionMetric)
        requires
            old(self).metric_type is NextLeader,
        ensures
            *m == old(self).metric_type->NextLeader_0,
            final(self).metric_type == ConsensusMetricType::NextLeader(*final(m)),
            final(self).replica_consensus_decision_metric == old(self).replica_consensus_decision_metric,
    {
        match &mut self.metric_type {
            ConsensusMetricType::NextLeader(l) => l,
            _ => vstd::pervasive::unreached(),
        }
    }

    pub fn as_leader_decision(&mut self) -> (m: &mut LeaderDecisionMetric)
        requires
            old(self).metric_type is Leader,
        ensures
            *m == old(self).metric_type->Leader_0,
            final(self).metric_type == ConsensusMetricType::Leader(*final(m)),
            final(self).replica_consensus_decision_metric == old(self).replica_consensus_decision_metric,
    {
        match &mut self.metric_type {
            ConsensusMetricType::Leader(l) => l,
            _ => vstd::pervasive::unreached(),
        }
    }
}

/// The latency metrics of the chained protocol, to register before reporting.
pub fn metrics() -> (m: Vec<MetricDescriptor>)
    ensures
        m@.len() == 4,
        m@[0].id == VOTE_SEND_LATENCY_ID,
        m@[1].id == END_TO_END_LATENCY_ID,
        m@[2].id == VOTE_RECEIVED_LATENCY_ID,
        m@[3].id == PROPOSAL_SEND_LATENCY_ID,
        forall|i: int| 0 <= i < 4 ==> (#[trigger] m@[i]).kind == MetricKind::Duration && m@[i].level
            == MetricLevel::Info,
        m@[0].name@ == "VOTE_SEND_LATENCY"@,
        m@[1].name@ == "END_TO_END_LATENCY"@,
        m@[2].name@ == "VOTE_RECEIVED_LATENCY"@,
        m@[3].name@ == "PROPOSAL_SEND_LATENCY"@,
{
    let mut m: Vec<MetricDescriptor> = Vec::new();
    m.push(MetricDescriptor { id: VOTE_SEND_LATENCY_ID, name: String::from_str("VOTE_SEND_LATENCY"), kind: MetricKind::Duration, level: MetricLevel::Info });
    m.push(MetricDescriptor { id: END_TO_END_LATENCY_ID, name: String::from_str("END_TO_END_LATENCY"), kind: MetricKind::Duration, level: MetricLevel::Info });
    m.push(MetricDescriptor { id: VOTE_RECEIVED_LATENCY_ID, name: String::from_str("VOTE_RECEIVED_LATENCY"), kind: MetricKind::Duration, level: MetricLevel::Info });
    m.push(MetricDescriptor { id: PROPOSAL_SEND_LATENCY_ID, name: String::from_str("PROPOSAL_SEND_LATENCY"), kind: MetricKind::Duration, level: MetricLevel::Info });
    m
}

} // verus!
