//! Polls a source of events for the timeline.
use crate::timeline::Timeline;
use vstd::prelude::*;

verus! {

#[derive(Debug)]
pub struct TimelineProducer {
    pub api_endpoint: String,
    /// Seconds between two polls.
    pub poll_interval: u64,
}

/// What is done with an answer of the source.
#[derive(Debug)]
pub enum PollStep {
    /// The timeline is sent on, and the source is asked again after some seconds.
    Send { timeline: Timeline, wait_secs: u64 },
    /// There is no timeline; the source is asked again after some seconds.
    Retry { wait_secs: u64 },
}

impl TimelineProducer {
    pub fn new(api_endpoint: String, poll_interval: u64) -> (p: Self)
        ensures
            p == (TimelineProducer { api_endpoint, poll_interval }),
    {
        TimelineProducer { api_endpoint, poll_interval }
    }

    /// Whether the body of an answer is read: only that of a success is.
    pub fn accepts(status: u16) -> (b: bool)
        ensures
            b == (status == 200),
    {
        status == 200
    }

    /// Decides what is done with an answer, of which a timeline was read or not.
    pub fn poll(&self, status: u16, timeline: Option<Timeline>) -> (step: PollStep)
        ensures
            step == match timeline {
                Some(t) if status == 200 => PollStep::Send {
                    timeline: t,
                    wait_secs: self.poll_interval,
                },
                _ => PollStep::Retry { wait_secs: self.poll_interval },
            },
    {
        match timeline {
            Some(t) => if TimelineProducer::accepts(status) {
                PollStep::Send { timeline: t, wait_secs: self.poll_interval }
            } else {
                PollStep::Retry { wait_secs: self.poll_interval }
            },
            None => PollStep::Retry { wait_secs: self.poll_interval },
        }
    }
}

} // verus!
