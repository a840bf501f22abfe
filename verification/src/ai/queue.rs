//! The queue before the models: how many requests run at once, how long one waits for its
//! turn, and what is counted on the way.

use vstd::prelude::*;

use crate::ai::model::{AiError, AiErrorView};

verus! {

/// How often a waiting request looks again, in milliseconds.
pub const POLL_MILLIS: u64 = 25;

/// How much of a file goes into a sample.
pub const FEATURE_SAMPLE_BYTES: usize = 65_536;

/// The turns that are free.
#[derive(Debug, Clone, Copy, PartialEq, Eq, Structural)]
pub struct AiPermitState {
    pub available: usize,
    pub capacity: usize,
}

/// What a request does next.
#[derive(Debug, Clone, Copy, PartialEq, Eq, Structural)]
pub enum QueueStep {
    /// The request was given up.
    Cancelled,
    /// It is the request's turn.
    Granted,
    /// The request has waited too long.
    Rejected,
    /// The request looks again after so many milliseconds.
    Wait(u64),
}

/// What a waiting request does, given how many milliseconds of its time are left.
pub open spec fn queue_step(available: usize, cancelled: bool, left: u64) -> QueueStep {
    if cancelled {
        QueueStep::Cancelled
    } else if available > 0 {
        QueueStep::Granted
    } else if left == 0 {
        QueueStep::Rejected
    } else if left < POLL_MILLIS {
        QueueStep::Wait(left)
    } else {
        QueueStep::Wait(POLL_MILLIS)
    }
}

impl QueueStep {
    /// The error of a request that is not served.
    pub open spec fn fault(self) -> Option<AiErrorView> {
        match self {
            QueueStep::Cancelled => Some(AiErrorView::Infer("inference cancelled while queued"@)),
            QueueStep::Rejected => Some(
                AiErrorView::Infer("AI inference queue is full; request was not scheduled"@),
            ),
            _ => None,
        }
    }

    pub fn error(self) -> (e: Option<AiError>)
        ensures
            e matches Some(error) ==> self.fault() == Some(error@),
            e is None <==> self.fault() is None,
    {
        match self {
            QueueStep::Cancelled => Some(
                AiError::Infer("inference cancelled while queued".to_string()),
            ),
            QueueStep::Rejected => Some(
                AiError::Infer("AI inference queue is full; request was not scheduled".to_string()),
            ),
            _ => None,
        }
    }
}

impl AiPermitState {
    /// No more turns are free than there are.
    pub open spec fn valid(self) -> bool {
        self.available <= self.capacity
    }

    pub fn new(capacity: usize) -> (state: Self)
        ensures
            state.valid(),
            state.available == capacity,
            state.capacity == capacity,
    {
        AiPermitState { available: capacity, capacity }
    }

    /// Takes a turn, where one is free and the request was not given up.
    pub fn acquire(&mut self, cancelled: bool, left: u64) -> (step: QueueStep)
        requires
            old(self).valid(),
        ensures
            final(self).valid(),
            step == queue_step(old(self).available, cancelled, left),
            final(self).capacity == old(self).capacity,
            final(self).available == (if step == QueueStep::Granted {
                old(self).available - 1
            } else {
                old(self).available as int
            }),
    {
        if cancelled {
            QueueStep::Cancelled
        } else if self.available > 0 {
            self.available = self.available - 1;
            QueueStep::Granted
        } else if left == 0 {
            QueueStep::Rejected
        } else if left < POLL_MILLIS {
            QueueStep::Wait(left)
        } else {
            QueueStep::Wait(POLL_MILLIS)
        }
    }

    /// Gives a turn back.
    pub fn release(&mut self)
        requires
            old(self).valid(),
        ensures
            final(self).valid(),
            final(self).capacity == old(self).capacity,
            final(self).available == (if old(self).available < old(self).capacity {
                old(self).available + 1
            } else {
                old(self).capacity as int
            }),
    {
        if self.available < self.capacity {
            self.available = self.available + 1;
        } else {
            self.available = self.capacity;
        }
    }
}

/// A turn that is taken and given back is free again.
pub proof fn law_turn_comes_back(before: AiPermitState, taken: AiPermitState, after: AiPermitState)
    requires
        before.valid(),
        before.available > 0,
        taken.capacity == before.capacity,
        taken.available == before.available - 1,
        after.capacity == taken.capacity,
        after.available == (if taken.available < taken.capacity {
            taken.available + 1
        } else {
            taken.capacity as int
        }),
    ensures
        after == before,
{
}

/// What is counted while models run. A counter starts again from zero after its last value.
#[derive(Debug, Clone, Copy, PartialEq, Eq, Structural)]
pub struct AiRuntimeMetrics {
    pub inference_errors: u64,
    pub queue_wait_us: u64,
    pub inference_time_us: u64,
    pub inference_requests: u64,
    pub queue_rejections: u64,
}

/// A time in microseconds, at most what a counter holds.
pub open spec fn counted_micros(micros: u128) -> u64 {
    if micros < u64::MAX {
        micros as u64
    } else {
        u64::MAX
    }
}

fn cap_micros(micros: u128) -> (n: u64)
    ensures
        n == counted_micros(micros),
{
    if micros < u64::MAX as u128 {
        micros as u64
    } else {
        u64::MAX
    }
}

impl AiRuntimeMetrics {
    pub fn new() -> (metrics: Self)
        ensures
            metrics == (AiRuntimeMetrics {
                inference_errors: 0,
                queue_wait_us: 0,
                inference_time_us: 0,
                inference_requests: 0,
                queue_rejections: 0,
            }),
    {
        AiRuntimeMetrics {
            inference_errors: 0,
            queue_wait_us: 0,
            inference_time_us: 0,
            inference_requests: 0,
            queue_rejections: 0,
        }
    }

    /// A model failed.
    pub fn note_error(&mut self)
        ensures
            *final(self) == (AiRuntimeMetrics {
                inference_errors: old(self).inference_errors.wrapping_add(1),
                ..*old(self)
            }),
    {
        self.inference_errors = self.inference_errors.wrapping_add(1);
    }

    /// A request got its turn or was turned away.
    pub fn note_queue(&mut self, step: QueueStep, waited: u128)
        ensures
            *final(self) == (match step {
                QueueStep::Granted => AiRuntimeMetrics {
                    queue_wait_us: old(self).queue_wait_us.wrapping_add(counted_micros(waited)),
                    ..*old(self)
                },
                QueueStep::Rejected => AiRuntimeMetrics {
                    queue_rejections: old(self).queue_rejections.wrapping_add(1),
                    ..*old(self)
                },
                _ => *old(self),
            }),
    {
        match step {
            QueueStep::Granted => {
                self.queue_wait_us = self.queue_wait_us.wrapping_add(cap_micros(waited));
            },
            QueueStep::Rejected => {
                self.queue_rejections = self.queue_rejections.wrapping_add(1);
            },
            _ => {},
        }
    }

    /// A request was served.
    pub fn note_inference(&mut self, took: u128)
        ensures
            *final(self) == (AiRuntimeMetrics {
                inference_time_us: old(self).inference_time_us.wrapping_add(counted_micros(took)),
                inference_requests: old(self).inference_requests.wrapping_add(1),
                ..*old(self)
            }),
    {
        self.inference_time_us = self.inference_time_us.wrapping_add(cap_micros(took));
        self.inference_requests = self.inference_requests.wrapping_add(1);
    }
}

/// Which parts of a file make up its sample.
#[derive(Debug, Clone, Copy, PartialEq, Eq, Structural)]
pub enum SamplePlan {
    /// All of it.
    Whole,
    /// So many bytes from the start and as many from the end.
    Ends(usize),
}

/// A file that fits is sampled whole; of a longer one, half the sample is its start and half
/// its end.
pub fn sample_plan(file_size: u64, limit: usize) -> (plan: SamplePlan)
    ensures
        plan == (if file_size <= limit {
            SamplePlan::Whole
        } else {
            SamplePlan::Ends((limit / 2) as usize)
        }),
{
    if file_size <= limit as u64 {
        SamplePlan::Whole
    } else {
        SamplePlan::Ends(limit / 2)
    }
}

} // verus!
