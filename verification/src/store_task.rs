//! The store task's steps. Applying the task alternates reads of the host
//! (the response headers, the body, the parsed fields, the predicate and
//! the value) with decisions; this machine makes the decisions: given what
//! the last read gave, it says what to do next.
use crate::ratelimit_task::AttributeState;
use crate::store::{parser_for, BodyParseState, BodySource, HeaderLookup};
use crate::task_steps::{verdict, verdict_of, Verdict};
use crate::token_usage::StrategyKind;
use vstd::prelude::*;

verus! {

/// Where the store task stands within one application.
#[derive(Debug, Clone, Copy, PartialEq, Eq, Structural)]
pub enum StorePhase {
    /// Not applied yet, or ended.
    Idle,
    /// Waiting for the response headers.
    Headers,
    /// Waiting for the parser to be made.
    Parser,
    /// Waiting for the size of the body.
    Body,
    /// Waiting for a chunk of the body.
    Chunk,
    /// Waiting for the parser to take the chunk.
    Feed,
    /// Waiting for the parser to finish.
    Finalize,
    /// Waiting for the parsed fields to reach the context.
    Populate,
    /// Waiting for the predicate.
    Predicate,
    /// Waiting for the value.
    Value,
    /// Waiting for the value to reach the host.
    Export,
}

/// What the last read gave.
#[derive(Debug)]
pub enum StoreEvent {
    /// The task is applied.
    Apply,
    /// The response headers.
    ResponseHeaders(HeaderLookup),
    /// Whether the parser could be made.
    ParserMade(bool),
    /// How many bytes of the body the host holds, and whether that is all.
    Body { buffer_size: usize, end_of_stream: bool },
    /// The chunk of the body asked for.
    Chunk(Result<AttributeState<Option<Vec<u8>>>, String>),
    /// Whether the parser took the chunk.
    Fed(bool),
    /// Whether the parser found all its fields once the body ended.
    Finalized(bool),
    /// The parsed fields reached the context.
    Populated,
    /// What the predicate gave.
    Predicate(Result<AttributeState<bool>, String>),
    /// What the expression gave: a value (kept by the caller), a pending
    /// value, or an error.
    Value(Result<AttributeState<()>, String>),
    /// Whether the value could be converted and set on the host.
    Exported(bool),
}

/// How an application of the task ends.
#[derive(Debug, Clone, Copy, PartialEq, Eq, Structural)]
pub enum StoreEnd {
    Done,
    Requeue,
    Failed,
    /// The request ends with the default reply.
    Terminate,
}

/// What to do next.
#[derive(Debug)]
pub enum StoreAction {
    /// Read the response headers.
    ReadResponseHeaders,
    /// Make a parser of that kind for that body's fields.
    MakeParser(BodySource, StrategyKind),
    /// Read how much of that body the host holds.
    ReadBody(BodySource),
    /// Read `len` bytes of that body from `offset` on.
    ReadChunk { source: BodySource, offset: usize, len: usize },
    /// Give the parser these bytes.
    Feed(Vec<u8>),
    /// Tell the parser the body ended.
    Finalize,
    /// Put the parsed fields of that body into the context.
    Populate(BodySource),
    /// Test the predicate.
    TestPredicate,
    /// Evaluate the expression.
    Evaluate,
    /// Convert the value to bytes and set it on the host at the task's path.
    Export,
    /// Store the value at the task's path, then end so.
    StoreValue(StoreEnd),
    /// End the application so.
    End(StoreEnd),
}

/// The body a machine reads.
pub open spec fn source_of(body: BodyParseState) -> BodySource {
    match body {
        BodyParseState::Pending(s, _) => s,
        BodyParseState::Active(s) => s,
        BodyParseState::NotNeeded => BodySource::Request,
    }
}

/// The parser for the response body, given its headers: none while they
/// are pending.
pub open spec fn response_parser(h: HeaderLookup) -> Option<StrategyKind> {
    match h {
        HeaderLookup::Available(hs) => Some(crate::token_usage::strategy_for(hs@)),
        HeaderLookup::Pending => None,
        _ => Some(StrategyKind::Json),
    }
}

/// Whether `a` is `b` moved to `phase`, with its body and counts kept.
pub open spec fn moved(b: StoreMachine, a: StoreMachine, phase: StorePhase) -> bool {
    &&& a.phase() == phase
    &&& a.body() == b.body()
    &&& a.consumed() == b.consumed()
    &&& a.end_of_stream() == b.end_of_stream()
}

/// Whether the step ended the application so.
pub open spec fn ended(b: StoreMachine, a: StoreMachine, res: StoreAction, how: StoreEnd) -> bool {
    res == StoreAction::End(how) && moved(b, a, StorePhase::Idle)
}

/// The step to the predicate, or to the value when there is none.
pub open spec fn to_predicate(b: StoreMachine, a: StoreMachine, res: StoreAction) -> bool {
    if b.has_predicate() {
        res == StoreAction::TestPredicate && moved(b, a, StorePhase::Predicate)
    } else {
        res == StoreAction::Evaluate && moved(b, a, StorePhase::Value)
    }
}

/// The step once the chunks were fed: finishing the parser at the end of
/// the body, else putting its fields into the context.
pub open spec fn to_fields(b: StoreMachine, a: StoreMachine, res: StoreAction) -> bool {
    if b.end_of_stream() {
        res == StoreAction::Finalize && moved(b, a, StorePhase::Finalize)
    } else {
        res == StoreAction::Populate(source_of(b.body())) && moved(b, a, StorePhase::Populate)
    }
}

/// One step of the store task: what `res` and the machine `a` after it are,
/// given the machine `b` before it and the event `e`. An event that the
/// phase does not wait for fails the application.
pub open spec fn step_taken(b: StoreMachine, e: StoreEvent, a: StoreMachine, res: StoreAction) -> bool {
    match (b.phase(), e) {
        (StorePhase::Idle, StoreEvent::Apply) => match b.body() {
            BodyParseState::Pending(BodySource::Request, _) => res == StoreAction::MakeParser(BodySource::Request, StrategyKind::Json)
                && moved(b, a, StorePhase::Parser),
            BodyParseState::Pending(BodySource::Response, _) => res == StoreAction::ReadResponseHeaders
                && moved(b, a, StorePhase::Headers),
            BodyParseState::Active(s) => res == StoreAction::ReadBody(s) && moved(b, a, StorePhase::Body),
            BodyParseState::NotNeeded => to_predicate(b, a, res),
        },
        (StorePhase::Headers, StoreEvent::ResponseHeaders(h)) => match response_parser(h) {
            None => ended(b, a, res, StoreEnd::Requeue),
            Some(k) => res == StoreAction::MakeParser(BodySource::Response, k) && moved(b, a, StorePhase::Parser),
        },
        (StorePhase::Parser, StoreEvent::ParserMade(ok)) => if ok {
            &&& res == StoreAction::ReadBody(source_of(b.body()))
            &&& a.phase() == StorePhase::Body
            &&& a.body() == BodyParseState::Active(source_of(b.body()))
            &&& a.consumed() == 0
        } else {
            ended(b, a, res, StoreEnd::Failed)
        },
        (StorePhase::Body, StoreEvent::Body { buffer_size, end_of_stream }) => if buffer_size == 0 && !end_of_stream {
            ended(b, a, res, StoreEnd::Requeue)
        } else if buffer_size > b.consumed() {
            &&& res == StoreAction::ReadChunk { source: source_of(b.body()), offset: b.consumed(), len: (buffer_size - b.consumed()) as usize }
            &&& a.phase() == StorePhase::Chunk
            &&& a.body() == b.body()
            &&& a.consumed() == b.consumed()
            &&& a.end_of_stream() == end_of_stream
        } else {
            if end_of_stream {
                res == StoreAction::Finalize && a.phase() == StorePhase::Finalize && a.body() == b.body()
                    && a.consumed() == b.consumed() && a.end_of_stream()
            } else {
                res == StoreAction::Populate(source_of(b.body())) && a.phase() == StorePhase::Populate
                    && a.body() == b.body() && a.consumed() == b.consumed() && !a.end_of_stream()
            }
        },
        (StorePhase::Chunk, StoreEvent::Chunk(r)) => match r {
            Ok(AttributeState::Available(Some(data))) => res == StoreAction::Feed(data) && moved(b, a, StorePhase::Feed)
                && a.feeding() == data@.len(),
            Ok(AttributeState::Pending) => ended(b, a, res, StoreEnd::Requeue),
            _ => ended(b, a, res, StoreEnd::Failed),
        },
        (StorePhase::Feed, StoreEvent::Fed(ok)) => if ok {
            &&& a.consumed() == (if b.consumed() + b.feeding() <= usize::MAX { (b.consumed() + b.feeding()) as usize } else { usize::MAX })
            &&& a.body() == b.body()
            &&& a.end_of_stream() == b.end_of_stream()
            &&& if b.end_of_stream() {
                res == StoreAction::Finalize && a.phase() == StorePhase::Finalize
            } else {
                res == StoreAction::Populate(source_of(b.body())) && a.phase() == StorePhase::Populate
            }
        } else {
            ended(b, a, res, StoreEnd::Failed)
        },
        (StorePhase::Finalize, StoreEvent::Finalized(complete)) => if complete {
            res == StoreAction::Populate(source_of(b.body())) && moved(b, a, StorePhase::Populate)
        } else {
            ended(b, a, res, StoreEnd::Failed)
        },
        (StorePhase::Populate, StoreEvent::Populated) => to_predicate(b, a, res),
        (StorePhase::Predicate, StoreEvent::Predicate(r)) => match verdict_of(r) {
            Verdict::Proceed => res == StoreAction::Evaluate && moved(b, a, StorePhase::Value),
            Verdict::Done => ended(b, a, res, StoreEnd::Done),
            Verdict::Requeue => ended(b, a, res, StoreEnd::Requeue),
            Verdict::Failed => ended(b, a, res, StoreEnd::Failed),
        },
        (StorePhase::Value, StoreEvent::Value(r)) => match r {
            Ok(AttributeState::Available(_)) => if b.export_to_host() {
                res == StoreAction::Export && moved(b, a, StorePhase::Export)
            } else {
                res == StoreAction::StoreValue(b.stored_end()) && moved(b, a, StorePhase::Idle)
            },
            Ok(AttributeState::Pending) => ended(b, a, res, StoreEnd::Requeue),
            Err(_) => ended(b, a, res, StoreEnd::Failed),
        },
        (StorePhase::Export, StoreEvent::Exported(ok)) => if ok {
            res == StoreAction::StoreValue(b.stored_end()) && moved(b, a, StorePhase::Idle)
        } else {
            ended(b, a, res, StoreEnd::Failed)
        },
        _ => ended(b, a, res, StoreEnd::Failed),
    }
}

/// The store task's state between reads.
pub struct StoreMachine {
    body: BodyParseState,
    has_predicate: bool,
    export_to_host: bool,
    terminal: bool,
    phase: StorePhase,
    consumed: usize,
    feeding: usize,
    end_of_stream: bool,
}

impl StoreMachine {
    /// The state of the body.
    pub closed spec fn body(&self) -> BodyParseState {
        self.body
    }

    /// Where the task stands.
    pub closed spec fn phase(&self) -> StorePhase {
        self.phase
    }

    /// How many body bytes the parser took.
    pub closed spec fn consumed(&self) -> usize {
        self.consumed
    }

    /// The length of the chunk being fed.
    pub closed spec fn feeding(&self) -> usize {
        self.feeding
    }

    /// Whether the body had ended when its size was last read.
    pub closed spec fn end_of_stream(&self) -> bool {
        self.end_of_stream
    }

    /// Whether the task has a predicate.
    pub closed spec fn has_predicate(&self) -> bool {
        self.has_predicate
    }

    /// Whether the value goes to the host too.
    pub closed spec fn export_to_host(&self) -> bool {
        self.export_to_host
    }

    /// Whether the task ends the request.
    pub closed spec fn terminal(&self) -> bool {
        self.terminal
    }

    /// How the task ends once its value is stored.
    pub open spec fn stored_end(&self) -> StoreEnd {
        if self.terminal() { StoreEnd::Terminate } else { StoreEnd::Done }
    }

    /// A task waiting for `body`, idle.
    pub fn new(body: BodyParseState, has_predicate: bool, export_to_host: bool, terminal: bool) -> (res: StoreMachine)
        ensures
            res.body() == body,
            res.phase() == StorePhase::Idle,
            res.consumed() == 0,
            res.has_predicate() == has_predicate,
            res.export_to_host() == export_to_host,
            res.terminal() == terminal,
    {
        StoreMachine {
            body,
            has_predicate,
            export_to_host,
            terminal,
            phase: StorePhase::Idle,
            consumed: 0,
            feeding: 0,
            end_of_stream: false,
        }
    }

    /// Where the task stands.
    pub fn current_phase(&self) -> (res: StorePhase)
        ensures
            res == self.phase(),
    {
        self.phase
    }

    fn source(&self) -> (res: BodySource)
        ensures
            res == match self.body() {
                BodyParseState::Pending(s, _) => s,
                BodyParseState::Active(s) => s,
                BodyParseState::NotNeeded => BodySource::Request,
            },
    {
        match &self.body {
            BodyParseState::Pending(s, _) => *s,
            BodyParseState::Active(s) => *s,
            BodyParseState::NotNeeded => BodySource::Request,
        }
    }

    fn end(&mut self, how: StoreEnd) -> (res: StoreAction)
        ensures
            res == StoreAction::End(how),
            final(self).phase() == StorePhase::Idle,
            final(self).body() == old(self).body(),
            final(self).consumed() == old(self).consumed(),
            final(self).feeding() == old(self).feeding(),
            final(self).end_of_stream() == old(self).end_of_stream(),
            final(self).has_predicate() == old(self).has_predicate(),
            final(self).export_to_host() == old(self).export_to_host(),
            final(self).terminal() == old(self).terminal(),
    {
        self.phase = StorePhase::Idle;
        StoreAction::End(how)
    }

    /// The step after the body was read: the predicate when there is one,
    /// else the value.
    fn after_body(&mut self) -> (res: StoreAction)
        ensures
            final(self).phase() == (if old(self).has_predicate() { StorePhase::Predicate } else { StorePhase::Value }),
            res == (if old(self).has_predicate() { StoreAction::TestPredicate } else { StoreAction::Evaluate }),
            final(self).body() == old(self).body(),
            final(self).consumed() == old(self).consumed(),
            final(self).feeding() == old(self).feeding(),
            final(self).end_of_stream() == old(self).end_of_stream(),
            final(self).has_predicate() == old(self).has_predicate(),
            final(self).export_to_host() == old(self).export_to_host(),
            final(self).terminal() == old(self).terminal(),
    {
        if self.has_predicate {
            self.phase = StorePhase::Predicate;
            StoreAction::TestPredicate
        } else {
            self.phase = StorePhase::Value;
            StoreAction::Evaluate
        }
    }

    /// The step once the chunks read so far were fed: at the end of the
    /// body the parser finishes, otherwise its fields go to the context.
    fn after_chunks(&mut self) -> (res: StoreAction)
        ensures
            final(self).phase() == (if old(self).end_of_stream() { StorePhase::Finalize } else { StorePhase::Populate }),
            res == (if old(self).end_of_stream() { StoreAction::Finalize } else { StoreAction::Populate(match old(self).body() {
                BodyParseState::Pending(s, _) => s,
                BodyParseState::Active(s) => s,
                BodyParseState::NotNeeded => BodySource::Request,
            }) }),
            final(self).body() == old(self).body(),
            final(self).consumed() == old(self).consumed(),
            final(self).feeding() == old(self).feeding(),
            final(self).end_of_stream() == old(self).end_of_stream(),
            final(self).has_predicate() == old(self).has_predicate(),
            final(self).export_to_host() == old(self).export_to_host(),
            final(self).terminal() == old(self).terminal(),
    {
        if self.end_of_stream {
            self.phase = StorePhase::Finalize;
            StoreAction::Finalize
        } else {
            self.phase = StorePhase::Populate;
            StoreAction::Populate(self.source())
        }
    }

    /// Takes one step: what the last read gave decides what to do next.
    pub fn step(&mut self, event: StoreEvent) -> (res: StoreAction)
        ensures
            step_taken(*old(self), event, *final(self), res),
            final(self).has_predicate() == old(self).has_predicate(),
            final(self).export_to_host() == old(self).export_to_host(),
            final(self).terminal() == old(self).terminal(),
    {
        let stored = if self.terminal { StoreEnd::Terminate } else { StoreEnd::Done };
        match (self.phase, event) {
            (StorePhase::Idle, StoreEvent::Apply) => match &self.body {
                BodyParseState::Pending(BodySource::Request, _) => {
                    self.phase = StorePhase::Parser;
                    StoreAction::MakeParser(BodySource::Request, StrategyKind::Json)
                },
                BodyParseState::Pending(BodySource::Response, _) => {
                    self.phase = StorePhase::Headers;
                    StoreAction::ReadResponseHeaders
                },
                BodyParseState::Active(s) => {
                    let s = *s;
                    self.phase = StorePhase::Body;
                    StoreAction::ReadBody(s)
                },
                BodyParseState::NotNeeded => self.after_body(),
            },
            (StorePhase::Headers, StoreEvent::ResponseHeaders(h)) => match parser_for(BodySource::Response, &h) {
                None => self.end(StoreEnd::Requeue),
                Some(k) => {
                    self.phase = StorePhase::Parser;
                    StoreAction::MakeParser(BodySource::Response, k)
                },
            },
            (StorePhase::Parser, StoreEvent::ParserMade(ok)) => if ok {
                let s = self.source();
                self.body = BodyParseState::Active(s);
                self.consumed = 0;
                self.phase = StorePhase::Body;
                StoreAction::ReadBody(s)
            } else {
                self.end(StoreEnd::Failed)
            },
            (StorePhase::Body, StoreEvent::Body { buffer_size, end_of_stream }) => if buffer_size == 0 && !end_of_stream {
                self.end(StoreEnd::Requeue)
            } else if buffer_size > self.consumed {
                self.end_of_stream = end_of_stream;
                self.phase = StorePhase::Chunk;
                StoreAction::ReadChunk { source: self.source(), offset: self.consumed, len: buffer_size - self.consumed }
            } else {
                self.end_of_stream = end_of_stream;
                self.after_chunks()
            },
            (StorePhase::Chunk, StoreEvent::Chunk(r)) => match r {
                Ok(AttributeState::Available(Some(data))) => {
                    self.feeding = data.len();
                    self.phase = StorePhase::Feed;
                    StoreAction::Feed(data)
                },
                Ok(AttributeState::Pending) => self.end(StoreEnd::Requeue),
                _ => self.end(StoreEnd::Failed),
            },
            (StorePhase::Feed, StoreEvent::Fed(ok)) => if ok {
                self.consumed = self.consumed.saturating_add(self.feeding);
                self.after_chunks()
            } else {
                self.end(StoreEnd::Failed)
            },
            (StorePhase::Finalize, StoreEvent::Finalized(complete)) => if complete {
                self.phase = StorePhase::Populate;
                StoreAction::Populate(self.source())
            } else {
                self.end(StoreEnd::Failed)
            },
            (StorePhase::Populate, StoreEvent::Populated) => self.after_body(),
            (StorePhase::Predicate, StoreEvent::Predicate(r)) => match verdict(&r) {
                Verdict::Proceed => {
                    self.phase = StorePhase::Value;
                    StoreAction::Evaluate
                },
                Verdict::Done => self.end(StoreEnd::Done),
                Verdict::Requeue => self.end(StoreEnd::Requeue),
                Verdict::Failed => self.end(StoreEnd::Failed),
            },
            (StorePhase::Value, StoreEvent::Value(r)) => match r {
                Ok(AttributeState::Available(_)) => if self.export_to_host {
                    self.phase = StorePhase::Export;
                    StoreAction::Export
                } else {
                    self.phase = StorePhase::Idle;
                    StoreAction::StoreValue(stored)
                },
                Ok(AttributeState::Pending) => self.end(StoreEnd::Requeue),
                Err(_) => self.end(StoreEnd::Failed),
            },
            (StorePhase::Export, StoreEvent::Exported(ok)) => if ok {
                self.phase = StorePhase::Idle;
                StoreAction::StoreValue(stored)
            } else {
                self.end(StoreEnd::Failed)
            },
            _ => self.end(StoreEnd::Failed),
        }
    }
}

} // verus!
