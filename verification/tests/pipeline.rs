use wasm_shim::headers::TeardownOutcome;
use wasm_shim::pipeline::{Pipeline, PipelineState, Task, TaskContext, TaskOutcome, TeardownAction};

#[derive(Default)]
struct Barrier {
    count: u32,
}

impl Barrier {
    fn raise(&mut self) {
        self.count += 1;
    }
    fn lower(&mut self) {
        self.count -= 1;
    }
    fn is_tripped(&self) -> bool {
        self.count > 0
    }
    fn count(&self) -> u32 {
        self.count
    }
}

#[derive(Default)]
struct Ctx {
    barrier: Barrier,
    replies: Vec<(u32, usize)>,
    log: Vec<String>,
}

impl TaskContext for Ctx {
    fn set_grpc_response_data(&mut self, status_code: u32, response_size: usize) {
        self.replies.push((status_code, response_size));
    }
}

fn token_id_for(id: &str) -> u32 {
    id.as_bytes().iter().fold(0u32, |acc, &b| acc.wrapping_mul(31).wrapping_add(b as u32))
}

enum MockTask {
    Guard { id: String, dependencies: Vec<String>, is_guard: bool },
    Pending { id: String, is_guard: bool },
    Terminal { id: String },
    Reply,
}

impl MockTask {
    fn new(id: &str, dependencies: Vec<&str>, is_guard: bool) -> Self {
        MockTask::Guard {
            id: id.to_string(),
            dependencies: dependencies.into_iter().map(|s| s.to_string()).collect(),
            is_guard,
        }
    }
}

impl Task<Ctx> for MockTask {
    fn apply(self, ctx: &mut Ctx) -> TaskOutcome<Self> {
        match self {
            MockTask::Guard { id, is_guard, .. } => {
                if is_guard {
                    ctx.barrier.raise();
                }
                ctx.log.push(format!("dispatch {id}"));
                TaskOutcome::Deferred { token_id: token_id_for(&id), pending: MockTask::Pending { id, is_guard } }
            }
            MockTask::Pending { id, is_guard } => {
                if is_guard {
                    ctx.barrier.lower();
                }
                ctx.log.push(format!("reply {id}"));
                TaskOutcome::Done
            }
            MockTask::Terminal { id } => {
                ctx.log.push(format!("terminate {id}"));
                TaskOutcome::Terminate(MockTask::Reply)
            }
            MockTask::Reply => {
                ctx.log.push("reply sent".to_string());
                TaskOutcome::Done
            }
        }
    }
    fn id(&self) -> Option<String> {
        match self {
            MockTask::Guard { id, .. } | MockTask::Pending { id, .. } | MockTask::Terminal { id } => Some(id.clone()),
            MockTask::Reply => None,
        }
    }
    fn dependencies(&self) -> Vec<String> {
        match self {
            MockTask::Guard { dependencies, .. } => dependencies.clone(),
            _ => vec![],
        }
    }
    fn is_guard(&self) -> bool {
        match self {
            MockTask::Guard { is_guard, .. } | MockTask::Pending { is_guard, .. } => *is_guard,
            _ => false,
        }
    }
    fn noop_pending(id: String, _token_id: u32, _is_guard: bool) -> Self {
        MockTask::Pending { id, is_guard: false }
    }
}

struct Teardown {
    defer: Option<u32>,
}

impl TeardownAction<Ctx> for Teardown {
    fn execute(self, ctx: &mut Ctx) -> TeardownOutcome {
        ctx.log.push("teardown".to_string());
        match self.defer {
            Some(t) => TeardownOutcome::Deferred(t),
            None => TeardownOutcome::Done,
        }
    }
}

type P = Pipeline<MockTask, Teardown, Ctx>;

fn pipeline(tasks: Vec<MockTask>) -> P {
    Pipeline::new(Ctx::default()).with_tasks(tasks)
}

#[test]
fn scenario_auth_guards_upstream() {
    let p = pipeline(vec![MockTask::new("auth", vec![], true)]);
    assert!(!p.requires_pause(), "Before dispatch: no barrier, should not pause");
    match p.eval() {
        PipelineState::InProgress(p) => {
            assert!(p.requires_pause() && p.ctx.barrier.is_tripped());
            let state = p.digest(token_id_for("auth"), 0, 0);
            assert!(matches!(state, PipelineState::Completed { should_resume: true }));
        }
        PipelineState::Completed { .. } => unreachable!("Expected InProgress after eval"),
    }
}

#[test]
fn scenario_auth_then_ratelimit_chain() {
    let p = pipeline(vec![MockTask::new("auth", vec![], true), MockTask::new("ratelimit", vec!["auth"], true)]);
    match p.eval() {
        PipelineState::InProgress(p) => {
            assert!(p.requires_pause() && p.ctx.barrier.is_tripped());
            match p.digest(token_id_for("auth"), 0, 0) {
                PipelineState::InProgress(p) => {
                    assert!(p.requires_pause() && p.ctx.barrier.is_tripped());
                    let state = p.digest(token_id_for("ratelimit"), 0, 0);
                    assert!(matches!(state, PipelineState::Completed { .. }));
                }
                PipelineState::Completed { .. } => unreachable!("Expected InProgress after auth completes"),
            }
        }
        PipelineState::Completed { .. } => unreachable!("Expected InProgress after first eval"),
    }
}

#[test]
fn scenario_task_with_unmet_deps_doesnt_dispatch() {
    let p = pipeline(vec![MockTask::new("ratelimit", vec!["auth"], true)]);
    match p.eval() {
        PipelineState::InProgress(p) => {
            assert!(!p.requires_pause() && !p.ctx.barrier.is_tripped());
            assert!(p.ctx.log.is_empty());
        }
        PipelineState::Completed { .. } => unreachable!("Expected InProgress with task waiting for deps"),
    }
}

#[test]
fn scenario_non_guard_doesnt_block_upstream() {
    let p = pipeline(vec![MockTask::new("report", vec![], false)]);
    match p.eval() {
        PipelineState::InProgress(p) => {
            assert!(!p.requires_pause() && !p.ctx.barrier.is_tripped());
            let state = p.digest(token_id_for("report"), 0, 0);
            assert!(matches!(state, PipelineState::Completed { .. }));
        }
        PipelineState::Completed { .. } => unreachable!("Expected InProgress with deferred task"),
    }
}

#[test]
fn scenario_multiple_concurrent_guards() {
    let p = pipeline(vec![MockTask::new("auth", vec![], true), MockTask::new("custom", vec![], true)]);
    match p.eval() {
        PipelineState::InProgress(p) => {
            assert_eq!(p.ctx.barrier.count(), 2, "Both guards dispatched");
            assert!(p.requires_pause() && p.ctx.barrier.is_tripped());
            match p.digest(token_id_for("auth"), 0, 0) {
                PipelineState::InProgress(p) => {
                    assert_eq!(p.ctx.barrier.count(), 1, "One guard completed");
                    assert!(p.requires_pause() && p.ctx.barrier.is_tripped());
                    let state = p.digest(token_id_for("custom"), 0, 0);
                    assert!(matches!(state, PipelineState::Completed { .. }));
                }
                PipelineState::Completed { .. } => unreachable!("Expected InProgress with one guard still deferred"),
            }
        }
        PipelineState::Completed { .. } => unreachable!("Expected InProgress after both guards dispatch"),
    }
}

#[test]
fn scenario_mixed_guard_and_non_guard() {
    let p = pipeline(vec![MockTask::new("auth", vec![], true), MockTask::new("report", vec!["auth"], false)]);
    match p.eval() {
        PipelineState::InProgress(p) => {
            assert!(p.requires_pause() && p.ctx.barrier.is_tripped());
            match p.digest(token_id_for("auth"), 0, 0) {
                PipelineState::InProgress(p) => {
                    assert!(!p.requires_pause() && !p.ctx.barrier.is_tripped());
                }
                PipelineState::Completed { .. } => unreachable!("Expected InProgress after auth completes"),
            }
        }
        PipelineState::Completed { .. } => unreachable!("Expected InProgress after auth dispatch"),
    }
}

#[test]
fn termination_stops_the_request_and_runs_teardown() {
    let p = pipeline(vec![
        MockTask::Terminal { id: "deny".to_string() },
        MockTask::new("never", vec![], true),
    ])
    .with_teardown_tasks(vec![Teardown { defer: None }]);
    match p.eval() {
        PipelineState::Completed { should_resume } => assert!(!should_resume),
        PipelineState::InProgress(_) => panic!("nothing should be left"),
    }
}

#[test]
fn teardown_waits_for_its_reply() {
    let p = pipeline(vec![]).with_teardown_tasks(vec![Teardown { defer: Some(9) }]);
    match p.eval() {
        PipelineState::InProgress(p) => {
            assert_eq!(p.ctx.log, vec!["teardown".to_string()]);
            let state = p.digest(9, 0, 3);
            assert!(matches!(state, PipelineState::Completed { should_resume: true }));
        }
        PipelineState::Completed { .. } => panic!("the teardown reply is awaited"),
    }
}

#[test]
fn unknown_token_changes_nothing() {
    let p = pipeline(vec![MockTask::new("auth", vec![], true)]);
    match p.eval() {
        PipelineState::InProgress(p) => match p.digest(12345, 0, 0) {
            PipelineState::InProgress(p) => {
                assert!(p.ctx.replies.is_empty());
                assert_eq!(p.ctx.barrier.count(), 1);
            }
            PipelineState::Completed { .. } => panic!("auth is still awaited"),
        },
        PipelineState::Completed { .. } => panic!("auth is awaited"),
    }
}

#[test]
fn empty_pipeline_completes_and_resumes() {
    let p = pipeline(vec![]);
    assert!(matches!(p.eval(), PipelineState::Completed { should_resume: true }));
}

#[test]
fn idle_pipeline_with_a_parked_task_stays_as_it_was() {
    let p = pipeline(vec![MockTask::new("auth", vec![], true)]);
    match p.eval() {
        PipelineState::InProgress(p) => match p.eval() {
            PipelineState::InProgress(p) => {
                assert!(p.ctx.replies.is_empty());
                assert_eq!(p.ctx.barrier.count(), 1);
                assert!(!p.is_terminated());
            }
            PipelineState::Completed { .. } => panic!("auth is still awaited"),
        },
        PipelineState::Completed { .. } => panic!("auth is awaited"),
    }
}

#[test]
fn teardown_actions_run_in_order() {
    let p = pipeline(vec![]).with_teardown_tasks(vec![Teardown { defer: None }, Teardown { defer: Some(4) }]);
    match p.eval() {
        PipelineState::InProgress(p) => {
            assert_eq!(p.ctx.log, vec!["teardown".to_string(), "teardown".to_string()]);
            assert!(matches!(p.digest(4, 0, 0), PipelineState::Completed { should_resume: true }));
        }
        PipelineState::Completed { .. } => panic!("the second teardown action waits for its reply"),
    }
}
