//! When the HTTP filter pauses the request or the response, and when it
//! resumes them, given where its pipeline stands.
use vstd::prelude::*;

verus! {

/// What the filter tells the host after a request or response event.
#[derive(Debug, Clone, Copy, PartialEq, Eq, Structural)]
pub enum FilterAction {
    Continue,
    Pause,
}

/// Which phase the filter resumes, if any.
#[derive(Debug, Clone, Copy, PartialEq, Eq, Structural)]
pub enum Resume {
    Nothing,
    Request,
    Response,
}

/// Whether the filter resumes after its pipeline took a step and goes on:
/// in the response phase a pipeline that was cut short resumes once no
/// guard holds it; otherwise only a pipeline that runs on and needs no
/// pause resumes.
pub open spec fn should_resume_spec(terminated: bool, pause: bool, in_response_phase: bool) -> bool {
    if terminated && in_response_phase {
        !pause
    } else {
        !terminated && !pause
    }
}

/// Whether the filter resumes after its pipeline took a step and goes on.
pub fn should_resume(terminated: bool, pause: bool, in_response_phase: bool) -> (res: bool)
    ensures
        res == should_resume_spec(terminated, pause, in_response_phase),
{
    if terminated && in_response_phase {
        return !pause;
    }
    !terminated && !pause
}

/// The phase resumed once the reply to a gRPC call was digested: when the
/// pipeline runs on, as `should_resume` says; when it completed, if it
/// asks to, if the end of the response body was held back for it, or in
/// the response phase.
pub fn resume_after_reply(
    completed: bool,
    completed_should_resume: bool,
    terminated: bool,
    pause: bool,
    in_response_phase: bool,
    force_resume: bool,
) -> (res: Resume)
    ensures
        res == (if (if completed {
            completed_should_resume || force_resume || in_response_phase
        } else {
            should_resume_spec(terminated, pause, in_response_phase)
        }) {
            if in_response_phase { Resume::Response } else { Resume::Request }
        } else {
            Resume::Nothing
        }),
{
    let resume = if completed {
        completed_should_resume || force_resume || in_response_phase
    } else {
        should_resume(terminated, pause, in_response_phase)
    };
    if resume {
        if in_response_phase { Resume::Response } else { Resume::Request }
    } else {
        Resume::Nothing
    }
}

/// What the filter answers to a request or response event: pause while a
/// guard holds the pipeline, continue otherwise.
pub fn pause_or_continue(pause: bool) -> (res: FilterAction)
    ensures
        res == (if pause { FilterAction::Pause } else { FilterAction::Continue }),
{
    if pause { FilterAction::Pause } else { FilterAction::Continue }
}

/// What the filter answers to a piece of the response body, and whether it
/// must resume once the pipeline completes: a guard pauses it; the last
/// piece is held back while a pipeline still runs, to be resumed by it;
/// otherwise it continues.
pub fn response_body_action(pause: bool, has_pipeline: bool, end_of_stream: bool) -> (res: (FilterAction, bool))
    ensures
        res == (if pause {
            (FilterAction::Pause, false)
        } else if has_pipeline && end_of_stream {
            (FilterAction::Pause, true)
        } else {
            (FilterAction::Continue, false)
        }),
{
    if pause {
        (FilterAction::Pause, false)
    } else if has_pipeline && end_of_stream {
        (FilterAction::Pause, true)
    } else {
        (FilterAction::Continue, false)
    }
}

/// How building a request's pipeline went, for the plugin's counters.
#[derive(Debug, Clone, Copy, PartialEq, Eq, Structural)]
pub enum RouteOutcome {
    /// A pipeline was built: a hit.
    Hit,
    /// No route matched: a miss; the request continues.
    Miss,
    /// Building failed: an error; the request continues.
    Error,
}

/// The counter a build outcome bumps.
pub fn route_outcome<P>(built: &Result<Option<P>, String>) -> (res: RouteOutcome)
    ensures
        res == match *built {
            Ok(Some(_)) => RouteOutcome::Hit,
            Ok(None) => RouteOutcome::Miss,
            Err(_) => RouteOutcome::Error,
        },
{
    match built {
        Ok(Some(_)) => RouteOutcome::Hit,
        Ok(None) => RouteOutcome::Miss,
        Err(_) => RouteOutcome::Error,
    }
}

} // verus!
