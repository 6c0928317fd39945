//! The decisions of the pipeline's smaller tasks, made on what their
//! predicates and expressions evaluated to: whether to go on, wait, fail or
//! end the request, and the replies they end it with.
use crate::attribute::{decimal, to_decimal};
use crate::cel::CelValue;
use crate::headers::{apply_header_operation, apply_spec, headers_view, HeaderOperation, Headers};
use crate::responses::pairs_view;
use crate::tasks::{extract_headers, map_headers};
use crate::ratelimit_task::AttributeState;
use crate::text::{join, join_seq, owned, views};
use vstd::prelude::*;

verus! {

/// What a task does after reading a predicate or a value.
#[derive(Debug, Clone, Copy, PartialEq, Eq, Structural)]
pub enum Verdict {
    /// Go on with the task's work.
    Proceed,
    /// The task is finished.
    Done,
    /// Something is pending: the task goes back in the queue.
    Requeue,
    /// The task failed.
    Failed,
}

/// What a task's predicates say: go on when they hold, finish when they do
/// not, wait while pending, fail on an error.
pub open spec fn verdict_of(r: Result<AttributeState<bool>, String>) -> Verdict {
    match r {
        Ok(AttributeState::Available(true)) => Verdict::Proceed,
        Ok(AttributeState::Available(false)) => Verdict::Done,
        Ok(AttributeState::Pending) => Verdict::Requeue,
        Err(_) => Verdict::Failed,
    }
}

/// The verdict on a task's predicates.
pub fn verdict(r: &Result<AttributeState<bool>, String>) -> (res: Verdict)
    ensures
        res == verdict_of(*r),
{
    match r {
        Ok(AttributeState::Available(true)) => Verdict::Proceed,
        Ok(AttributeState::Available(false)) => Verdict::Done,
        Ok(AttributeState::Pending) => Verdict::Requeue,
        Err(_) => Verdict::Failed,
    }
}

/// The verdict on a task that cannot wait past the end of the stream: a
/// pending predicate fails it there.
pub fn verdict_until_end(r: &Result<AttributeState<bool>, String>, end_of_stream: bool) -> (res: Verdict)
    ensures
        res == (if verdict_of(*r) == Verdict::Requeue && end_of_stream { Verdict::Failed } else { verdict_of(*r) }),
{
    let g = verdict(r);
    if g == Verdict::Requeue && end_of_stream {
        Verdict::Failed
    } else {
        g
    }
}

/// What a task that ends the request with a reply does.
#[derive(Debug, Clone, Copy, PartialEq, Eq, Structural)]
pub enum ReplyDecision {
    Done,
    Requeue,
    Failed,
    /// End the request with a reply of this status, without headers or body.
    Reply(u32),
}

/// The allow task: once its predicates hold, its intention decides: the
/// request goes on when it holds and is refused with 403 when it does not.
pub fn allow_decision(predicates: &Result<AttributeState<bool>, String>, intention: &Result<AttributeState<bool>, String>) -> (res: ReplyDecision)
    ensures
        res == match verdict_of(*predicates) {
            Verdict::Requeue => ReplyDecision::Requeue,
            Verdict::Done => ReplyDecision::Done,
            Verdict::Failed => ReplyDecision::Failed,
            Verdict::Proceed => match verdict_of(*intention) {
                Verdict::Requeue => ReplyDecision::Requeue,
                Verdict::Proceed => ReplyDecision::Done,
                Verdict::Done => ReplyDecision::Reply(403),
                Verdict::Failed => ReplyDecision::Failed,
            },
        },
{
    match verdict(predicates) {
        Verdict::Requeue => ReplyDecision::Requeue,
        Verdict::Done => ReplyDecision::Done,
        Verdict::Failed => ReplyDecision::Failed,
        Verdict::Proceed => match verdict(intention) {
            Verdict::Requeue => ReplyDecision::Requeue,
            Verdict::Proceed => ReplyDecision::Done,
            Verdict::Done => ReplyDecision::Reply(403),
            Verdict::Failed => ReplyDecision::Failed,
        },
    }
}

/// The task that answers with a fixed status: once its predicates hold,
/// the request ends with a reply of that status.
pub fn with_response_code_decision(predicates: &Result<AttributeState<bool>, String>, new_response_code: u32) -> (res: ReplyDecision)
    ensures
        res == match verdict_of(*predicates) {
            Verdict::Requeue => ReplyDecision::Requeue,
            Verdict::Done => ReplyDecision::Done,
            Verdict::Failed => ReplyDecision::Failed,
            Verdict::Proceed => ReplyDecision::Reply(new_response_code),
        },
{
    match verdict(predicates) {
        Verdict::Requeue => ReplyDecision::Requeue,
        Verdict::Done => ReplyDecision::Done,
        Verdict::Failed => ReplyDecision::Failed,
        Verdict::Proceed => ReplyDecision::Reply(new_response_code),
    }
}

/// What a task does with the reply to its gRPC call.
#[derive(Debug, Clone, Copy, PartialEq, Eq, Structural)]
pub enum GrpcReplyDecision {
    Done,
    Failed,
    /// Queue the tasks that run on the reply.
    RunOnReply,
}

/// A reply to a task's gRPC call: a call that failed, or whose status is
/// not OK (0), fails the task; otherwise the tasks that run on the reply
/// are queued, and without any the task is done.
pub fn grpc_reply_decision(status: &Result<(u32, usize), String>, has_on_reply: bool) -> (res: GrpcReplyDecision)
    ensures
        res == match *status {
            Err(_) => GrpcReplyDecision::Failed,
            Ok((code, _)) => if code != 0 {
                GrpcReplyDecision::Failed
            } else if has_on_reply {
                GrpcReplyDecision::RunOnReply
            } else {
                GrpcReplyDecision::Done
            },
        },
{
    match status {
        Err(_) => GrpcReplyDecision::Failed,
        Ok((code, _)) => if *code != 0 {
            GrpcReplyDecision::Failed
        } else if has_on_reply {
            GrpcReplyDecision::RunOnReply
        } else {
            GrpcReplyDecision::Done
        },
    }
}

/// A header of a deny response, in CEL: a list of its name and value as
/// raw strings.
pub open spec fn deny_header_cel(h: (String, String)) -> Seq<char> {
    "['''"@ + h.0@ + "''', '''"@ + h.1@ + "''']"@
}

/// The CEL expression of a deny response with this status, these headers
/// and, where there is one, this body.
pub open spec fn deny_expression_of(status: u32, headers: Seq<(String, String)>, body: Option<String>) -> Seq<char> {
    let body_field = match body {
        Some(b) => "body: '''"@ + b@ + "'''"@,
        None => seq![],
    };
    "DenyResponse { status: "@ + decimal(status as nat) + "u, headers: ["@
        + join_seq(headers.map_values(|h: (String, String)| deny_header_cel(h)), ", "@) + "], "@ + body_field
        + " }"@
}

/// The CEL expression that builds a deny response.
pub fn deny_expression(status: u32, headers: &Vec<(String, String)>, body: &Option<String>) -> (res: String)
    ensures
        res@ == deny_expression_of(status, headers@, *body),
{
    let mut parts: Vec<String> = Vec::new();
    let n = headers.len();
    for i in 0..n
        invariant
            n == headers@.len(),
            views(parts@) == headers@.take(i as int).map_values(|h: (String, String)| deny_header_cel(h)),
    {
        let ghost before = parts@;
        let mut p = owned("['''");
        p.push_str(headers[i].0.as_str());
        p.push_str("''', '''");
        p.push_str(headers[i].1.as_str());
        p.push_str("''']");
        parts.push(p);
        proof {
            assert(views(parts@) =~= views(before).push(deny_header_cel(headers@[i as int])));
            assert(headers@.take(i + 1).map_values(|h: (String, String)| deny_header_cel(h))
                =~= headers@.take(i as int).map_values(|h: (String, String)| deny_header_cel(h)).push(deny_header_cel(headers@[i as int])));
        }
    }
    proof {
        assert(headers@.take(n as int) =~= headers@);
    }
    let mut r = owned("DenyResponse { status: ");
    r.push_str(to_decimal(status as u64).as_str());
    r.push_str("u, headers: [");
    r.push_str(join(&parts, ", ").as_str());
    r.push_str("], ");
    match body {
        Some(b) => {
            r.push_str("body: '''");
            r.push_str(b.as_str());
            r.push_str("'''");
        },
        None => {},
    }
    r.push_str(" }");
    r
}

/// A reply that ends the request.
#[derive(Debug)]
pub struct Reply {
    pub status: u32,
    pub headers: Vec<(String, String)>,
    pub body: Option<String>,
}

/// The reply that a deny response's fields make: its status, cut to 32
/// bits, or 500 without one; its headers; its body unless empty.
pub fn deny_reply(status: Option<u64>, headers: Vec<(String, String)>, body: Option<String>) -> (res: Reply)
    ensures
        res.status == match status {
            Some(s) => (s % 4294967296) as u32,
            None => 500u32,
        },
        res.headers@ == headers@,
        res.body == match body {
            Some(b) => if b@.len() == 0 { None } else { Some(b) },
            None => None,
        },
{
    let status = match status {
        Some(s) => (s % 4294967296) as u32,
        None => 500,
    };
    let body = match body {
        Some(b) => if b.as_str().is_empty() { None } else { Some(b) },
        None => None,
    };
    Reply { status, headers, body }
}

/// The value the reply task's deny expression evaluated to: a
/// `DenyResponse`, with the fields it has (its headers already read as
/// pairs, none where it has none), or another value.
#[derive(Debug)]
pub enum DenyValue {
    Response { status: Option<u64>, headers: Vec<(String, String)>, body: Option<String> },
    NotAResponse,
}

/// Whether `reply` is what a deny response's fields make: its status, cut
/// to 32 bits, or 500 without one; its headers; its body unless empty.
pub open spec fn is_deny_reply(reply: Reply, status: Option<u64>, headers: Seq<(String, String)>, body: Option<String>) -> bool {
    &&& reply.status == match status {
        Some(s) => (s % 4294967296) as u32,
        None => 500u32,
    }
    &&& reply.headers@ == headers
    &&& reply.body == match body {
        Some(b) => if b@.len() == 0 {
            None
        } else {
            Some(b)
        },
        None => None,
    }
}

/// What the reply task makes of its deny expression, once its predicate
/// held: a `DenyResponse` gives the reply that `deny_reply` makes of its
/// fields; a value still pending, a value of another kind, or an error
/// fails the task (`None`).
pub fn reply_of_deny_value(r: Result<AttributeState<DenyValue>, String>) -> (res: Option<Reply>)
    ensures
        match r {
            Ok(AttributeState::Available(DenyValue::Response { status, headers, body })) => res matches Some(reply)
                && is_deny_reply(reply, status, headers@, body),
            _ => res is None,
        },
{
    match r {
        Ok(AttributeState::Available(DenyValue::Response { status, headers, body })) => Some(deny_reply(status, headers, body)),
        _ => None,
    }
}

/// The headers of a reply, with the request's tracker header last where
/// there is one.
pub fn reply_headers(headers: Vec<(String, String)>, tracker: Option<(String, String)>) -> (res: Vec<(String, String)>)
    ensures
        res@ == match tracker {
            Some(t) => headers@.push(t),
            None => headers@,
        },
{
    let mut headers = headers;
    match tracker {
        Some(t) => headers.push(t),
        None => {},
    }
    headers
}

/// What the reply task comes to once its reply was sent, or not: a
/// terminal task ends the request, another is done; a reply that could
/// not be sent fails it.
pub fn after_reply(sent: bool, terminal: bool) -> (res: ReplyOutcome)
    ensures
        res == (if !sent { ReplyOutcome::Failed } else if terminal { ReplyOutcome::Terminate } else { ReplyOutcome::Done }),
{
    if !sent {
        ReplyOutcome::Failed
    } else if terminal {
        ReplyOutcome::Terminate
    } else {
        ReplyOutcome::Done
    }
}

/// How a task that wrote something ends.
#[derive(Debug, Clone, Copy, PartialEq, Eq, Structural)]
pub enum ReplyOutcome {
    Done,
    Failed,
    /// The request ends here.
    Terminate,
}


/// The headers a value stands for: a map whose keys are strings and whose
/// values are strings, numbers or booleans.
pub open spec fn value_headers(v: CelValue) -> Option<Seq<(Seq<char>, Seq<char>)>> {
    match v {
        CelValue::Entries(entries) => map_headers(entries@),
        _ => None,
    }
}

/// What the task adding response headers does.
#[derive(Debug)]
pub enum AddHeadersDecision {
    Done,
    Requeue,
    Failed,
    /// Queue a task appending these headers to the response's.
    Append(Vec<(String, String)>),
}

/// The task adding response headers: once its predicates hold, its
/// expression must give a map of header texts, which it appends.
pub fn add_headers_decision(predicates: &Result<AttributeState<bool>, String>, value: &Result<AttributeState<CelValue>, String>) -> (res: AddHeadersDecision)
    ensures
        match verdict_of(*predicates) {
            Verdict::Requeue => res is Requeue,
            Verdict::Done => res is Done,
            Verdict::Failed => res is Failed,
            Verdict::Proceed => match *value {
                Ok(AttributeState::Pending) => res is Requeue,
                Err(_) => res is Failed,
                Ok(AttributeState::Available(v)) => match value_headers(v) {
                    None => res is Failed,
                    Some(h) => res matches AddHeadersDecision::Append(x) && pairs_view(x@) == h,
                },
            },
        },
{
    match verdict(predicates) {
        Verdict::Requeue => AddHeadersDecision::Requeue,
        Verdict::Done => AddHeadersDecision::Done,
        Verdict::Failed => AddHeadersDecision::Failed,
        Verdict::Proceed => match value {
            Ok(AttributeState::Pending) => AddHeadersDecision::Requeue,
            Err(_) => AddHeadersDecision::Failed,
            Ok(AttributeState::Available(v)) => match extract_headers(v) {
                None => AddHeadersDecision::Failed,
                Some(h) => AddHeadersDecision::Append(h),
            },
        },
    }
}

/// The verdict on an optional predicate: none lets the task go on.
pub open spec fn predicate_verdict(p: Option<Result<AttributeState<bool>, String>>) -> Verdict {
    match p {
        Some(r) => verdict_of(r),
        None => Verdict::Proceed,
    }
}

/// What the task modifying headers does before it touches them.
#[derive(Debug)]
pub enum ModifyPlan {
    Done,
    Requeue,
    Failed,
    /// Read the header map and apply this operation to it.
    Apply(HeaderOperation),
}

/// The task modifying headers, up to the operation it applies: its
/// predicate, where it has one, must hold; a fixed operation is applied as
/// it is; otherwise the header pairs its expression gave are set, and no
/// pair at all leaves nothing to do. A pending expression fails the task.
pub fn modify_headers_plan(
    predicate: &Option<Result<AttributeState<bool>, String>>,
    concrete: Option<HeaderOperation>,
    deferred: Result<AttributeState<Vec<(String, String)>>, String>,
) -> (res: ModifyPlan)
    ensures
        match predicate_verdict(*predicate) {
            Verdict::Requeue => res is Requeue,
            Verdict::Done => res is Done,
            Verdict::Failed => res is Failed,
            Verdict::Proceed => match concrete {
                Some(op) => res == ModifyPlan::Apply(op),
                None => match deferred {
                    Ok(AttributeState::Pending) => res is Failed,
                    Err(_) => res is Failed,
                    Ok(AttributeState::Available(pairs)) => if pairs@.len() == 0 {
                        res is Done
                    } else {
                        res == ModifyPlan::Apply(HeaderOperation::SetValue(pairs))
                    },
                },
            },
        },
{
    match predicate {
        Some(p) => match verdict(p) {
            Verdict::Requeue => {
                return ModifyPlan::Requeue;
            },
            Verdict::Done => {
                return ModifyPlan::Done;
            },
            Verdict::Failed => {
                return ModifyPlan::Failed;
            },
            Verdict::Proceed => {},
        },
        None => {},
    }
    match concrete {
        Some(op) => ModifyPlan::Apply(op),
        None => match deferred {
            Ok(AttributeState::Pending) => ModifyPlan::Failed,
            Err(_) => ModifyPlan::Failed,
            Ok(AttributeState::Available(pairs)) => if pairs.len() == 0 {
                ModifyPlan::Done
            } else {
                ModifyPlan::Apply(HeaderOperation::SetValue(pairs))
            },
        },
    }
}

/// What reading the header map gave, and what to write back.
#[derive(Debug)]
pub enum HeadersWrite {
    Requeue,
    Failed,
    /// Write these headers back.
    Write(Headers),
}

/// The headers to write back: the existing ones with the operation
/// applied; missing headers fail the task and pending ones wait.
pub fn headers_to_write(existing: Result<AttributeState<Option<Headers>>, String>, operation: &HeaderOperation) -> (res: HeadersWrite)
    ensures
        match existing {
            Ok(AttributeState::Available(Some(h))) => res matches HeadersWrite::Write(w) && headers_view(w@) == apply_spec(headers_view(h@), *operation),
            Ok(AttributeState::Available(None)) => res is Failed,
            Ok(AttributeState::Pending) => res is Requeue,
            Err(_) => res is Failed,
        },
{
    match existing {
        Ok(AttributeState::Available(Some(h))) => {
            let mut h = h;
            apply_header_operation(&mut h, operation);
            HeadersWrite::Write(h)
        },
        Ok(AttributeState::Available(None)) => HeadersWrite::Failed,
        Ok(AttributeState::Pending) => HeadersWrite::Requeue,
        Err(_) => HeadersWrite::Failed,
    }
}

/// How a task that wrote back to the host ends.
#[derive(Debug, Clone, Copy, PartialEq, Eq, Structural)]
pub enum WriteOutcome {
    Done,
    Requeue,
    Failed,
    /// The request ends with the default reply.
    Terminate,
}

/// Once the header map was written back: a terminal task ends the request,
/// another is done; a write still pending waits, and a failed one fails.
pub fn after_headers_written(written: &Result<AttributeState<()>, String>, terminal: bool) -> (res: WriteOutcome)
    ensures
        res == match *written {
            Ok(AttributeState::Available(_)) => if terminal { WriteOutcome::Terminate } else { WriteOutcome::Done },
            Ok(AttributeState::Pending) => WriteOutcome::Requeue,
            Err(_) => WriteOutcome::Failed,
        },
{
    match written {
        Ok(AttributeState::Available(_)) => if terminal { WriteOutcome::Terminate } else { WriteOutcome::Done },
        Ok(AttributeState::Pending) => WriteOutcome::Requeue,
        Err(_) => WriteOutcome::Failed,
    }
}


/// What the intention of a gRPC method task, evaluated on the reply,
/// decides: true lets the request go on, false refuses it with 403, and
/// another value or an error fails the task.
pub fn intention_decision(result: &Result<CelValue, String>) -> (res: ReplyDecision)
    ensures
        res == match *result {
            Ok(CelValue::Bool(true)) => ReplyDecision::Done,
            Ok(CelValue::Bool(false)) => ReplyDecision::Reply(403),
            _ => ReplyDecision::Failed,
        },
{
    match result {
        Ok(CelValue::Bool(true)) => ReplyDecision::Done,
        Ok(CelValue::Bool(false)) => ReplyDecision::Reply(403),
        _ => ReplyDecision::Failed,
    }
}


/// The request's id: the `x-request-id` header's value where the request
/// has one, else the id made for the request.
pub fn request_id(header_id: Option<String>, generated: String) -> (res: String)
    ensures
        res@ == match header_id {
            Some(h) => h@,
            None => generated@,
        },
{
    match header_id {
        Some(h) => h,
        None => generated,
    }
}

/// The tracker header of the replies: named by the downstream identifier,
/// where one is set, with the request id as its value.
pub fn tracker_header(downstream: &Option<String>, request_id: &str) -> (res: Option<(String, String)>)
    ensures
        match *downstream {
            Some(d) => res matches Some(h) && h.0@ == d@ && h.1@ == request_id@,
            None => res is None,
        },
{
    match downstream {
        Some(d) => Some((owned(d.as_str()), owned(request_id))),
        None => None,
    }
}


/// What a task calling a dynamic service does before the call.
#[derive(Debug, Clone, Copy, PartialEq, Eq, Structural)]
pub enum CallDecision {
    Done,
    Requeue,
    Failed,
    /// Send the message built.
    Dispatch,
}

/// The dynamic task, up to its call: its predicate must hold and its
/// message must be built; what is still pending waits, except at the end
/// of the response body, where it fails the task.
pub fn dynamic_call_decision(
    predicate: &Result<AttributeState<bool>, String>,
    message: &Result<AttributeState<CelValue>, String>,
    end_of_stream: bool,
) -> (res: CallDecision)
    ensures
        res == match verdict_of(*predicate) {
            Verdict::Requeue => if end_of_stream { CallDecision::Failed } else { CallDecision::Requeue },
            Verdict::Done => CallDecision::Done,
            Verdict::Failed => CallDecision::Failed,
            Verdict::Proceed => match *message {
                Ok(AttributeState::Pending) => if end_of_stream { CallDecision::Failed } else { CallDecision::Requeue },
                Ok(AttributeState::Available(_)) => CallDecision::Dispatch,
                Err(_) => CallDecision::Failed,
            },
        },
{
    match verdict_until_end(predicate, end_of_stream) {
        Verdict::Requeue => CallDecision::Requeue,
        Verdict::Done => CallDecision::Done,
        Verdict::Failed => CallDecision::Failed,
        Verdict::Proceed => match message {
            Ok(AttributeState::Pending) => if end_of_stream { CallDecision::Failed } else { CallDecision::Requeue },
            Ok(AttributeState::Available(_)) => CallDecision::Dispatch,
            Err(_) => CallDecision::Failed,
        },
    }
}


/// What becomes of the outcome of a task run under a failure mode.
#[derive(Debug, Clone, Copy, PartialEq, Eq, Structural)]
pub enum FailureHandling {
    /// The outcome stands (a deferred task stays under the failure mode).
    Keep,
    /// The failure is counted as an error and the task is done.
    CountAndContinue,
    /// The failure is counted as an error and the request ends with the
    /// default reply.
    CountAndTerminate,
}

/// How a failure mode handles an outcome: a failure is counted, and ends
/// the request exactly when the mode denies; other outcomes stand.
pub fn failure_handling(failed: bool, abort: bool) -> (res: FailureHandling)
    ensures
        res == (if !failed {
            FailureHandling::Keep
        } else if abort {
            FailureHandling::CountAndTerminate
        } else {
            FailureHandling::CountAndContinue
        }),
{
    if !failed {
        FailureHandling::Keep
    } else if abort {
        FailureHandling::CountAndTerminate
    } else {
        FailureHandling::CountAndContinue
    }
}

} // verus!
