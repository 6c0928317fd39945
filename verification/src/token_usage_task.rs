//! The token usage task's steps: it picks how to read the response body
//! from the response headers, hands the body to that reader as it grows,
//! and at the end of the stream extracts the expected properties. This
//! machine makes the decisions between the reads of the host.
use crate::ratelimit_task::AttributeState;
use crate::store::HeaderLookup;
use crate::token_usage::{strategy_for, StrategyKind};
use vstd::prelude::*;

verus! {

/// Where the task stands within one application.
#[derive(Debug, Clone, Copy, PartialEq, Eq, Structural)]
pub enum UsagePhase {
    Idle,
    /// Waiting for the response headers.
    Headers,
    /// Waiting for the size of the response body.
    BodyInfo,
    /// Waiting for the response body.
    Body,
    /// Waiting for the reader to take the body.
    Feed,
    /// Waiting for the extraction.
    Extract,
}

/// What the last read gave.
#[derive(Debug)]
pub enum UsageEvent {
    Apply,
    ResponseHeaders(HeaderLookup),
    BodyInfo { buffer_size: usize, end_of_stream: bool },
    Body(Result<AttributeState<Option<Vec<u8>>>, String>),
    Fed,
    /// Whether the extraction found nothing, and whether nothing was expected.
    Extracted { found_none: bool, expected_none: bool },
}

/// How an application of the task ends.
#[derive(Debug, Clone, Copy, PartialEq, Eq, Structural)]
pub enum UsageEnd {
    Done,
    Requeue,
    Failed,
}

/// What to do next.
#[derive(Debug)]
pub enum UsageAction {
    ReadResponseHeaders,
    ReadBodyInfo,
    /// Read the response body from its start, `len` bytes.
    ReadBody { len: usize },
    /// Give the reader these bytes.
    Feed(Vec<u8>),
    /// Extract the expected properties with the reader.
    Extract,
    End(UsageEnd),
}

/// The token usage task's state between reads.
pub struct UsageMachine {
    strategy: Option<StrategyKind>,
    phase: UsagePhase,
    end_of_stream: bool,
}

impl UsageMachine {
    /// The reader picked so far.
    pub closed spec fn strategy(&self) -> Option<StrategyKind> {
        self.strategy
    }

    /// Where the task stands.
    pub closed spec fn phase(&self) -> UsagePhase {
        self.phase
    }

    /// Whether the stream had ended when the body's size was last read.
    pub closed spec fn end_of_stream(&self) -> bool {
        self.end_of_stream
    }
}

/// Whether `a` is `b` in `phase` with the same reader and end of stream.
pub open spec fn usage_moved(b: UsageMachine, a: UsageMachine, phase: UsagePhase) -> bool {
    a.phase() == phase && a.strategy() == b.strategy() && a.end_of_stream() == b.end_of_stream()
}

/// Whether the step ended the application so.
pub open spec fn usage_ended(b: UsageMachine, a: UsageMachine, res: UsageAction, how: UsageEnd) -> bool {
    res == UsageAction::End(how) && usage_moved(b, a, UsagePhase::Idle)
}

/// The step once the body read so far was handed over: at the end of the
/// stream the properties are extracted, otherwise the task waits.
pub open spec fn usage_after_body(b: UsageMachine, a: UsageMachine, res: UsageAction) -> bool {
    if b.end_of_stream() {
        res == UsageAction::Extract && usage_moved(b, a, UsagePhase::Extract)
    } else {
        usage_ended(b, a, res, UsageEnd::Requeue)
    }
}

/// One step of the token usage task. An event that the phase does not wait
/// for fails the application.
pub open spec fn usage_step_taken(b: UsageMachine, e: UsageEvent, a: UsageMachine, res: UsageAction) -> bool {
    match (b.phase(), e) {
        (UsagePhase::Idle, UsageEvent::Apply) => match b.strategy() {
            None => res == UsageAction::ReadResponseHeaders && usage_moved(b, a, UsagePhase::Headers),
            Some(_) => res == UsageAction::ReadBodyInfo && usage_moved(b, a, UsagePhase::BodyInfo),
        },
        (UsagePhase::Headers, UsageEvent::ResponseHeaders(h)) => match h {
            HeaderLookup::Available(hs) => res == UsageAction::ReadBodyInfo && a.phase() == UsagePhase::BodyInfo
                && a.strategy() == Some(strategy_for(hs@)),
            HeaderLookup::Pending => usage_ended(b, a, res, UsageEnd::Requeue),
            _ => usage_ended(b, a, res, UsageEnd::Failed),
        },
        (UsagePhase::BodyInfo, UsageEvent::BodyInfo { buffer_size, end_of_stream }) => {
            &&& a.end_of_stream() == end_of_stream
            &&& a.strategy() == b.strategy()
            &&& if buffer_size > 0 {
                res == UsageAction::ReadBody { len: buffer_size } && a.phase() == UsagePhase::Body
            } else if end_of_stream {
                res == UsageAction::Extract && a.phase() == UsagePhase::Extract
            } else {
                res == UsageAction::End(UsageEnd::Requeue) && a.phase() == UsagePhase::Idle
            }
        },
        (UsagePhase::Body, UsageEvent::Body(r)) => match r {
            Ok(AttributeState::Available(Some(bytes))) => res == UsageAction::Feed(bytes) && usage_moved(b, a, UsagePhase::Feed),
            Ok(AttributeState::Available(None)) => usage_after_body(b, a, res),
            Ok(AttributeState::Pending) => usage_ended(b, a, res, UsageEnd::Requeue),
            Err(_) => usage_ended(b, a, res, UsageEnd::Failed),
        },
        (UsagePhase::Feed, UsageEvent::Fed) => usage_after_body(b, a, res),
        (UsagePhase::Extract, UsageEvent::Extracted { found_none, expected_none }) => usage_ended(
            b,
            a,
            res,
            if found_none && !expected_none { UsageEnd::Failed } else { UsageEnd::Done },
        ),
        _ => usage_ended(b, a, res, UsageEnd::Failed),
    }
}

impl UsageMachine {
    /// A task that has not picked a reader yet.
    pub fn new() -> (res: UsageMachine)
        ensures
            res.strategy() is None,
            res.phase() == UsagePhase::Idle,
    {
        UsageMachine { strategy: None, phase: UsagePhase::Idle, end_of_stream: false }
    }

    /// Whether the task holds the filter back: while it reads a body that
    /// has not ended.
    pub fn pauses_filter(&self, end_of_stream: bool) -> (res: bool)
        ensures
            res == (self.strategy() is Some && !end_of_stream),
    {
        self.strategy.is_some() && !end_of_stream
    }

    fn end(&mut self, how: UsageEnd) -> (res: UsageAction)
        ensures
            usage_ended(*old(self), *final(self), res, how),
    {
        self.phase = UsagePhase::Idle;
        UsageAction::End(how)
    }

    fn after_body(&mut self) -> (res: UsageAction)
        ensures
            usage_after_body(*old(self), *final(self), res),
    {
        if self.end_of_stream {
            self.phase = UsagePhase::Extract;
            UsageAction::Extract
        } else {
            self.end(UsageEnd::Requeue)
        }
    }

    /// Takes one step: what the last read gave decides what to do next.
    /// Headers are never missing once the host has sent them.
    pub fn step(&mut self, event: UsageEvent) -> (res: UsageAction)
        requires
            !(event matches UsageEvent::ResponseHeaders(HeaderLookup::Missing)),
        ensures
            usage_step_taken(*old(self), event, *final(self), res),
    {
        match (self.phase, event) {
            (UsagePhase::Idle, UsageEvent::Apply) => match self.strategy {
                None => {
                    self.phase = UsagePhase::Headers;
                    UsageAction::ReadResponseHeaders
                },
                Some(_) => {
                    self.phase = UsagePhase::BodyInfo;
                    UsageAction::ReadBodyInfo
                },
            },
            (UsagePhase::Headers, UsageEvent::ResponseHeaders(h)) => match h {
                HeaderLookup::Available(hs) => {
                    self.strategy = Some(crate::token_usage::select_strategy(&hs));
                    self.phase = UsagePhase::BodyInfo;
                    UsageAction::ReadBodyInfo
                },
                HeaderLookup::Pending => self.end(UsageEnd::Requeue),
                _ => self.end(UsageEnd::Failed),
            },
            (UsagePhase::BodyInfo, UsageEvent::BodyInfo { buffer_size, end_of_stream }) => {
                self.end_of_stream = end_of_stream;
                if buffer_size > 0 {
                    self.phase = UsagePhase::Body;
                    UsageAction::ReadBody { len: buffer_size }
                } else {
                    self.after_body()
                }
            },
            (UsagePhase::Body, UsageEvent::Body(r)) => match r {
                Ok(AttributeState::Available(Some(bytes))) => {
                    self.phase = UsagePhase::Feed;
                    UsageAction::Feed(bytes)
                },
                Ok(AttributeState::Available(None)) => self.after_body(),
                Ok(AttributeState::Pending) => self.end(UsageEnd::Requeue),
                Err(_) => self.end(UsageEnd::Failed),
            },
            (UsagePhase::Feed, UsageEvent::Fed) => self.after_body(),
            (UsagePhase::Extract, UsageEvent::Extracted { found_none, expected_none }) => {
                if found_none && !expected_none {
                    self.end(UsageEnd::Failed)
                } else {
                    self.end(UsageEnd::Done)
                }
            },
            _ => self.end(UsageEnd::Failed),
        }
    }
}

} // verus!
