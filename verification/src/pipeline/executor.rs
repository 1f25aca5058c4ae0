//! The pipeline execution engine: the registry of node handlers and the
//! decisions of a run, step by step. The caller performs each action (creating
//! the output directory, reading the cancel flag, invoking a handler, reporting
//! progress) and hands back what happened.
use vstd::prelude::*;
use crate::pipeline::model::{Pipeline, ParamMap, ParamValue, PipelineProgress, PipelineStatus};
use crate::pipeline::preview::{
    views, edge_pairs, is_maximal_schedule, cycle_message, topological_sort, assoc_get, last_node_index,
    first_source_into, outputs_view, copy_strings, find_last_node, find_first_source, find_outputs,
    lemma_last_node_index,
};
use crate::text::{push_str, string_of};

verus! {

// ============================================================
// Handler registry
// ============================================================

/// Handlers by node type, the latest registration of a type being the one that counts.
pub open spec fn handler_map<H>(entries: Seq<(String, H)>) -> Map<Seq<char>, H>
    decreases entries.len(),
{
    if entries.len() == 0 {
        Map::empty()
    } else {
        handler_map(entries.drop_last()).insert(entries.last().0@, entries.last().1)
    }
}

/// The handlers of the node types, by type.
pub struct HandlerRegistry<H> {
    handlers: Vec<(String, H)>,
}

impl<H> View for HandlerRegistry<H> {
    type V = Map<Seq<char>, H>;

    closed spec fn view(&self) -> Map<Seq<char>, H> {
        handler_map(self.handlers@)
    }
}

impl<H> HandlerRegistry<H> {
    /// An empty registry.
    pub fn new() -> (r: Self)
        ensures
            r@ == Map::<Seq<char>, H>::empty(),
    {
        HandlerRegistry { handlers: Vec::new() }
    }

    /// Registers `handler` for `node_type`, replacing any earlier one.
    pub fn register(&mut self, node_type: &str, handler: H)
        ensures
            final(self)@ == old(self)@.insert(node_type@, handler),
    {
        self.handlers.push((String::from_str(node_type), handler));
        proof {
            assert(self.handlers@.drop_last() =~= old(self).handlers@);
        }
    }

    /// The handler of `node_type`, if one is registered.
    pub fn get(&self, node_type: &str) -> (r: Option<&H>)
        ensures
            match r {
                Some(h) => self@.contains_key(node_type@) && *h == self@[node_type@],
                None => !self@.contains_key(node_type@),
            },
    {
        let key = String::from_str(node_type);
        let mut i: usize = self.handlers.len();
        assert(self.handlers@.take(i as int) =~= self.handlers@);
        while i > 0
            invariant
                i <= self.handlers.len(),
                key@ == node_type@,
                handler_map(self.handlers@.take(i as int)).contains_key(key@) == self@.contains_key(key@),
                handler_map(self.handlers@.take(i as int)).contains_key(key@) ==> handler_map(self.handlers@.take(i as int))[key@] == self@[key@],
            decreases i,
        {
            assert(self.handlers@.take(i as int).drop_last() =~= self.handlers@.take(i - 1));
            assert(self.handlers@.take(i as int).last() == self.handlers@[i - 1]);
            if self.handlers[i - 1].0 == key {
                return Some(&self.handlers[i - 1].1);
            }
            i = i - 1;
        }
        assert(self.handlers@.take(0) =~= Seq::<(String, H)>::empty());
        None
    }
}

/// Reading a registry gives back what was last registered: the handler of the
/// type just registered, and the earlier handler of every other type.
pub proof fn registry_read_after_register<H>(before: Map<Seq<char>, H>, node_type: Seq<char>, handler: H, other: Seq<char>)
    ensures
        before.insert(node_type, handler).contains_key(node_type),
        before.insert(node_type, handler)[node_type] == handler,
        other != node_type ==> (before.insert(node_type, handler).contains_key(other) == before.contains_key(other)),
        other != node_type && before.contains_key(other) ==> before.insert(node_type, handler)[other] == before[other],
{
}


// ============================================================
// Results and progress
// ============================================================

/// The outcome of one step.
pub struct StepResult {
    pub node_id: String,
    pub node_label: String,
    pub success: bool,
    pub output_files: Vec<String>,
    pub error: Option<String>,
}

/// The outcome of a run.
pub struct ExecutionResult {
    /// Whether every step succeeded.
    pub success: bool,
    pub steps: Vec<StepResult>,
}

/// A step outcome as plain values.
pub struct StepResultView {
    pub node_id: Seq<char>,
    pub node_label: Seq<char>,
    pub success: bool,
    pub output_files: Seq<Seq<char>>,
    pub error: Option<Seq<char>>,
}

pub open spec fn opt_view(o: Option<String>) -> Option<Seq<char>> {
    match o {
        Some(s) => Some(s@),
        None => None,
    }
}

pub open spec fn result_view(s: StepResult) -> StepResultView {
    StepResultView {
        node_id: s.node_id@,
        node_label: s.node_label@,
        success: s.success,
        output_files: views(s.output_files@),
        error: opt_view(s.error),
    }
}

pub open spec fn result_views(v: Seq<StepResult>) -> Seq<StepResultView> {
    v.map_values(|s: StepResult| result_view(s))
}

/// A failed step with no output.
pub open spec fn failed_step(id: Seq<char>, label: Seq<char>, error: Seq<char>) -> StepResultView {
    StepResultView { node_id: id, node_label: label, success: false, output_files: Seq::empty(), error: Some(error) }
}

/// A status as plain values.
pub enum StatusView {
    Ready,
    Running,
    Paused,
    Completed,
    Failed(Seq<char>),
    Cancelled,
}

pub open spec fn status_view(s: PipelineStatus) -> StatusView {
    match s {
        PipelineStatus::Ready => StatusView::Ready,
        PipelineStatus::Running => StatusView::Running,
        PipelineStatus::Paused => StatusView::Paused,
        PipelineStatus::Completed => StatusView::Completed,
        PipelineStatus::Failed(e) => StatusView::Failed(e@),
        PipelineStatus::Cancelled => StatusView::Cancelled,
    }
}

/// A progress report as plain values.
pub struct ProgressView {
    pub pipeline_id: Seq<char>,
    pub current_step: u32,
    pub total_steps: u32,
    pub node_id: Seq<char>,
    pub node_label: Seq<char>,
    pub status: StatusView,
}

pub open spec fn progress_view(p: PipelineProgress) -> ProgressView {
    ProgressView {
        pipeline_id: p.pipeline_id@,
        current_step: p.current_step,
        total_steps: p.total_steps,
        node_id: p.current_node_id@,
        node_label: p.current_node_label@,
        status: status_view(p.status),
    }
}

/// The progress report of a run of `p` at step `step`.
pub open spec fn progress_at(p: Pipeline, step: nat, node_id: Seq<char>, node_label: Seq<char>, status: StatusView) -> ProgressView {
    ProgressView {
        pipeline_id: p.name@,
        current_step: step as u32,
        total_steps: p.nodes@.len() as u32,
        node_id,
        node_label,
        status,
    }
}

// ============================================================
// A run, step by step
// ============================================================

/// Where a run stands.
#[derive(Clone, Copy, PartialEq, Eq, Structural)]
pub enum Phase {
    /// Nothing done yet; expects `Begin`.
    Start,
    /// Waits for the output directory; expects `OutputDirReady`.
    AwaitDir,
    /// Waits for the cancel flag before the next node; expects `CancelChecked`.
    AwaitCancel,
    /// Waits for a handler's result; expects `HandlerDone`.
    AwaitHandler,
    /// Finished.
    Done,
}

/// A run of a pipeline.
pub struct ExecRun {
    pub phase: Phase,
    /// The execution order.
    pub order: Vec<String>,
    /// Position in the order.
    pub pos: usize,
    /// The node being handled, while a handler runs.
    pub node: usize,
    pub steps: Vec<StepResult>,
    /// The outputs of each node handled so far.
    pub outputs: Vec<(String, Vec<String>)>,
}

/// What happened when the caller performed the last action.
pub enum ExecEvent {
    /// The run is asked to start.
    Begin,
    /// The output directory was created, or could not be (with the reason).
    OutputDirReady(Result<(), String>),
    /// The cancel flag was read.
    CancelChecked(bool),
    /// The handler of the node: none registered, or its result.
    HandlerDone(Option<Result<Vec<String>, String>>),
}

/// What the caller is to do next.
pub enum ExecAction {
    /// Create the output directory (and all its parents).
    CreateOutputDir,
    /// Read the cancel flag.
    CheckCancel,
    /// Report `progress`, then look up the handler of `node_type` and run it.
    Invoke { node_type: String, inputs: Vec<String>, params: ParamMap, progress: PipelineProgress },
    /// Report `progress` if there is one; the run is over with `result`.
    Finish { result: ExecutionResult, progress: Option<PipelineProgress> },
}

/// A run as plain values.
pub struct RunView {
    pub phase: Phase,
    pub order: Seq<Seq<char>>,
    pub pos: nat,
    pub node: nat,
    pub steps: Seq<StepResultView>,
    pub outputs: Seq<(Seq<char>, Seq<Seq<char>>)>,
}

pub open spec fn run_view(r: ExecRun) -> RunView {
    RunView {
        phase: r.phase,
        order: views(r.order@),
        pos: r.pos as nat,
        node: r.node as nat,
        steps: result_views(r.steps@),
        outputs: outputs_view(r.outputs@),
    }
}

/// An action as plain values.
pub enum ActionView {
    CreateOutputDir,
    CheckCancel,
    Invoke { node_type: Seq<char>, inputs: Seq<Seq<char>>, params: Seq<(String, ParamValue)>, progress: ProgressView },
    Finish { success: bool, steps: Seq<StepResultView>, progress: Option<ProgressView> },
}

pub open spec fn action_view(a: ExecAction) -> ActionView {
    match a {
        ExecAction::CreateOutputDir => ActionView::CreateOutputDir,
        ExecAction::CheckCancel => ActionView::CheckCancel,
        ExecAction::Invoke { node_type, inputs, params, progress } => ActionView::Invoke {
            node_type: node_type@,
            inputs: views(inputs@),
            params: params.entries@,
            progress: progress_view(progress),
        },
        ExecAction::Finish { result, progress } => ActionView::Finish {
            success: result.success,
            steps: result_views(result.steps@),
            progress: match progress {
                Some(pr) => Some(progress_view(pr)),
                None => None,
            },
        },
    }
}

/// A run in a consistent state for `p`.
pub open spec fn run_wf(p: Pipeline, r: RunView) -> bool {
    &&& r.pos <= r.order.len()
    &&& r.order.len() <= usize::MAX
    &&& r.phase == Phase::AwaitCancel ==> r.pos < r.order.len()
    &&& r.phase == Phase::AwaitHandler ==> {
        &&& r.pos < r.order.len()
        &&& r.node < p.nodes@.len()
        &&& p.nodes@[r.node as int].id@ == r.order[r.pos as int]
    }
}

/// The event the phase waits for.
pub open spec fn event_expected(phase: Phase, e: ExecEvent) -> bool {
    match e {
        ExecEvent::Begin => phase == Phase::Start,
        ExecEvent::OutputDirReady(_) => phase == Phase::AwaitDir,
        ExecEvent::CancelChecked(_) => phase == Phase::AwaitCancel,
        ExecEvent::HandlerDone(_) => phase == Phase::AwaitHandler,
    }
}

/// Whether every step succeeded.
pub open spec fn all_succeeded(steps: Seq<StepResultView>) -> bool {
    forall|i: int| 0 <= i < steps.len() ==> (#[trigger] steps[i]).success
}

/// After a node is dealt with: finish when the order is done, successful
/// exactly when every step succeeded, otherwise check the cancel flag before
/// the next node.
pub open spec fn proceed_spec(p: Pipeline, r: RunView) -> (RunView, ActionView) {
    if r.pos == r.order.len() {
        (
            RunView { phase: Phase::Done, ..r },
            ActionView::Finish {
                success: all_succeeded(r.steps),
                steps: r.steps,
                progress: Some(progress_at(p, p.nodes@.len(), Seq::empty(), "完成"@, StatusView::Completed)),
            },
        )
    } else {
        (RunView { phase: Phase::AwaitCancel, ..r }, ActionView::CheckCancel)
    }
}

/// The input files of node `id`: the outputs of the source of its first
/// incoming edge when that source has produced any, else the run's input files.
pub open spec fn run_inputs(p: Pipeline, inputs0: Seq<Seq<char>>, outputs: Seq<(Seq<char>, Seq<Seq<char>>)>, id: Seq<char>) -> Seq<Seq<char>> {
    match first_source_into(edge_pairs(p), id) {
        Some(up) => match assoc_get(outputs, up) {
            Some(v) => v,
            None => inputs0,
        },
        None => inputs0,
    }
}

/// Builds a string from characters.
fn text(cs: Vec<char>) -> (s: String)
    ensures
        s@ == cs@,
{
    string_of(cs.as_slice())
}

fn failed_result(id: String, label: &str, error: String) -> (r: StepResult)
    ensures
        result_view(r) == failed_step(id@, label@, error@),
{
    let r = StepResult { node_id: id, node_label: String::from_str(label), success: false, output_files: Vec::new(), error: Some(error) };
    assert(views(r.output_files@) =~= Seq::<Seq<char>>::empty());
    r
}

fn progress(p: &Pipeline, step: usize, node_id: String, node_label: String, status: PipelineStatus) -> (r: PipelineProgress)
    ensures
        progress_view(r) == progress_at(*p, step as nat, node_id@, node_label@, status_view(status)),
{
    PipelineProgress {
        pipeline_id: p.name.clone(),
        current_step: #[verifier::truncate] (step as u32),
        total_steps: #[verifier::truncate] (p.nodes.len() as u32),
        current_node_id: node_id,
        current_node_label: node_label,
        status,
    }
}

fn push_step(steps: &mut Vec<StepResult>, s: StepResult)
    ensures
        result_views(final(steps)@) == result_views(old(steps)@).push(result_view(s)),
{
    steps.push(s);
    assert(result_views(final(steps)@) =~= result_views(old(steps)@).push(result_view(s)));
}

impl ExecRun {
    /// A run that has not started.
    pub fn new() -> (r: ExecRun)
        ensures
            r.phase == Phase::Start,
            run_view(r).order.len() == 0,
            run_view(r).steps.len() == 0,
            run_view(r).outputs.len() == 0,
            r.pos == 0,
            r.node == 0,
            r.order.len() == 0,
            r.steps.len() == 0,
            r.outputs.len() == 0,
            run_view(r) == (RunView {
                phase: Phase::Start,
                order: Seq::empty(),
                pos: 0,
                node: 0,
                steps: Seq::empty(),
                outputs: Seq::empty(),
            }),
    {
        let r = ExecRun { phase: Phase::Start, order: Vec::new(), pos: 0, node: 0, steps: Vec::new(), outputs: Vec::new() };
        assert(views(r.order@) =~= Seq::<Seq<char>>::empty());
        assert(result_views(r.steps@) =~= Seq::<StepResultView>::empty());
        assert(outputs_view(r.outputs@) =~= Seq::<(Seq<char>, Seq<Seq<char>>)>::empty());
        r
    }

    fn proceed(self, p: &Pipeline) -> (r: (ExecRun, ExecAction))
        requires
            self.pos <= self.order.len(),
        ensures
            (run_view(r.0), action_view(r.1)) == proceed_spec(*p, run_view(self)),
    {
        let mut run = self;
        if run.pos == run.order.len() {
            run.phase = Phase::Done;
            let steps = take_steps(&mut run.steps);
            let success = every_step_succeeded(&steps);
            let pr = progress(p, p.nodes.len(), String::new(), String::from_str("完成"), PipelineStatus::Completed);
            let a = ExecAction::Finish { result: ExecutionResult { success, steps }, progress: Some(pr) };
            (run, a)
        } else {
            run.phase = Phase::AwaitCancel;
            (run, ExecAction::CheckCancel)
        }
    }
}

/// Whether every step succeeded.
fn every_step_succeeded(steps: &Vec<StepResult>) -> (r: bool)
    ensures
        r == all_succeeded(result_views(steps@)),
{
    let mut i: usize = 0;
    while i < steps.len()
        invariant
            i <= steps.len(),
            forall|k: int| 0 <= k < i ==> (#[trigger] steps@[k]).success,
        decreases steps.len() - i,
    {
        if !steps[i].success {
            assert(result_views(steps@)[i as int].success == false);
            return false;
        }
        i = i + 1;
    }
    assert forall|k: int| 0 <= k < result_views(steps@).len() implies (#[trigger] result_views(steps@)[k]).success by {
        assert(steps@[k].success);
    }
    true
}

/// Moves the steps out, leaving a copy behind.
fn take_steps(steps: &mut Vec<StepResult>) -> (r: Vec<StepResult>)
    ensures
        result_views(r@) == result_views(old(steps)@),
        result_views(final(steps)@) == result_views(old(steps)@),
{
    let mut copy: Vec<StepResult> = Vec::new();
    let mut i: usize = 0;
    while i < steps.len()
        invariant
            i <= steps.len(),
            copy.len() == i,
            forall|k: int| 0 <= k < i ==> result_view(#[trigger] copy@[k]) == result_view(steps@[k]),
        decreases steps.len() - i,
    {
        let s = &steps[i];
        let error = match &s.error {
            Some(e) => Some(e.clone()),
            None => None,
        };
        copy.push(StepResult {
            node_id: s.node_id.clone(),
            node_label: s.node_label.clone(),
            success: s.success,
            output_files: copy_strings(&s.output_files),
            error,
        });
        i = i + 1;
    }
    assert(result_views(copy@) =~= result_views(steps@));
    copy
}


impl ExecRun {
    /// Takes the event that answers the last action and decides the next action.
    pub fn advance(self, p: &Pipeline, input_files: &Vec<String>, output_dir: &str, event: ExecEvent) -> (r: (ExecRun, ExecAction))
        requires
            run_wf(*p, run_view(self)),
            event_expected(self.phase, event),
        ensures
            run_wf(*p, run_view(r.0)),
            run_view(self).steps.is_prefix_of(run_view(r.0).steps),
            run_view(r.0).steps.len() <= run_view(self).steps.len() + 1,
            match event {
                ExecEvent::Begin => {
                    &&& (r.0.phase == Phase::Done) == (forall|o: Seq<Seq<char>>| #[trigger] is_maximal_schedule(*p, o) ==> o.len() != p.nodes.len())
                    &&& r.0.phase == Phase::Done ==> action_view(r.1) == ActionView::Finish {
                        success: false,
                        steps: seq![failed_step(Seq::empty(), "流水线错误"@, cycle_message())],
                        progress: None,
                    }
                    &&& r.0.phase != Phase::Done ==> {
                        &&& r.0.phase == Phase::AwaitDir
                        &&& is_maximal_schedule(*p, run_view(r.0).order)
                        &&& run_view(r.0).order.len() == p.nodes.len()
                        &&& r.0.pos == 0
                        &&& run_view(r.0).steps == run_view(self).steps
                        &&& run_view(r.0).outputs == run_view(self).outputs
                        &&& action_view(r.1) == ActionView::CreateOutputDir
                    }
                },
                ExecEvent::OutputDirReady(Err(e)) => {
                    &&& r.0.phase == Phase::Done
                    &&& action_view(r.1) == ActionView::Finish {
                        success: false,
                        steps: seq![failed_step(Seq::empty(), "系统错误"@, "无法创建输出目录 "@ + output_dir@ + ": "@ + e@)],
                        progress: None,
                    }
                },
                ExecEvent::OutputDirReady(Ok(_)) => (run_view(r.0), action_view(r.1)) == proceed_spec(*p, run_view(self)),
                ExecEvent::CancelChecked(cancelled) => {
                    let rv = run_view(self);
                    let id = rv.order[rv.pos as int];
                    if cancelled {
                        &&& r.0.phase == Phase::Done
                        &&& action_view(r.1) == ActionView::Finish {
                            success: false,
                            steps: rv.steps.push(failed_step(id, "已取消"@, "流水线已被用户取消"@)),
                            progress: Some(progress_at(*p, rv.pos, id, Seq::empty(), StatusView::Cancelled)),
                        }
                    } else {
                        match last_node_index(p.nodes@, id) {
                            None => (run_view(r.0), action_view(r.1)) == proceed_spec(*p, RunView {
                                steps: rv.steps.push(failed_step(id, "未知节点"@, "节点 "@ + id + " 不存在"@)),
                                pos: rv.pos + 1,
                                ..rv
                            }),
                            Some(ni) => {
                                let node = p.nodes@[ni];
                                &&& run_view(r.0) == RunView { phase: Phase::AwaitHandler, node: ni as nat, ..rv }
                                &&& action_view(r.1) == ActionView::Invoke {
                                    node_type: node.node_type@,
                                    inputs: run_inputs(*p, views(input_files@), rv.outputs, id),
                                    params: node.params.entries@,
                                    progress: progress_at(*p, rv.pos, node.id@, node.label@, StatusView::Running),
                                }
                            },
                        }
                    }
                },
                ExecEvent::HandlerDone(outcome) => {
                    let rv = run_view(self);
                    let node = p.nodes@[rv.node as int];
                    match outcome {
                        None => (run_view(r.0), action_view(r.1)) == proceed_spec(*p, RunView {
                            steps: rv.steps.push(failed_step(node.id@, node.label@, "未注册的节点类型: "@ + node.node_type@)),
                            pos: rv.pos + 1,
                            ..rv
                        }),
                        Some(Ok(files)) => (run_view(r.0), action_view(r.1)) == proceed_spec(*p, RunView {
                            steps: rv.steps.push(StepResultView {
                                node_id: node.id@,
                                node_label: node.label@,
                                success: true,
                                output_files: views(files@),
                                error: None,
                            }),
                            outputs: rv.outputs.push((node.id@, views(files@))),
                            pos: rv.pos + 1,
                            ..rv
                        }),
                        Some(Err(e)) => {
                            &&& r.0.phase == Phase::Done
                            &&& action_view(r.1) == ActionView::Finish {
                                success: false,
                                steps: rv.steps.push(failed_step(node.id@, node.label@, e@)),
                                progress: Some(progress_at(*p, rv.pos, node.id@, node.label@, StatusView::Failed(e@))),
                            }
                        },
                    }
                },
            },
    {
        let mut run = self;
        let ghost rv0 = run_view(run);
        match event {
            ExecEvent::Begin => {
                match topological_sort(p) {
                    Err(e) => {
                        run.phase = Phase::Done;
                        let mut steps: Vec<StepResult> = Vec::new();
                        push_step(&mut steps, failed_result(String::new(), "流水线错误", e));
                        assert(result_views(steps@) =~= seq![failed_step(Seq::empty(), "流水线错误"@, cycle_message())]);
                        (run, ExecAction::Finish { result: ExecutionResult { success: false, steps }, progress: None })
                    },
                    Ok(order) => {
                        proof {
                            assert(!(forall|o: Seq<Seq<char>>| #[trigger] is_maximal_schedule(*p, o) ==> o.len() != p.nodes.len()));
                        }
                        run.order = order;
                        run.pos = 0;
                        run.phase = Phase::AwaitDir;
                        (run, ExecAction::CreateOutputDir)
                    },
                }
            },
            ExecEvent::OutputDirReady(res) => {
                match res {
                    Err(e) => {
                        run.phase = Phase::Done;
                        let mut cs: Vec<char> = Vec::new();
                        push_str(&mut cs, "无法创建输出目录 ");
                        push_str(&mut cs, output_dir);
                        push_str(&mut cs, ": ");
                        push_str(&mut cs, e.as_str());
                        let msg = text(cs);
                        let mut steps: Vec<StepResult> = Vec::new();
                        push_step(&mut steps, failed_result(String::new(), "系统错误", msg));
                        assert(result_views(steps@) =~= seq![failed_step(Seq::empty(), "系统错误"@, "无法创建输出目录 "@ + output_dir@ + ": "@ + e@)]);
                        (run, ExecAction::Finish { result: ExecutionResult { success: false, steps }, progress: None })
                    },
                    Ok(_) => run.proceed(p),
                }
            },
            ExecEvent::CancelChecked(cancelled) => {
                let id = run.order[run.pos].clone();
                if cancelled {
                    run.phase = Phase::Done;
                    let pos = run.pos;
                    push_step(&mut run.steps, failed_result(id.clone(), "已取消", String::from_str("流水线已被用户取消")));
                    let steps = take_steps(&mut run.steps);
                    let pr = progress(p, pos, id, String::new(), PipelineStatus::Cancelled);
                    (run, ExecAction::Finish { result: ExecutionResult { success: false, steps }, progress: Some(pr) })
                } else {
                    match find_last_node(&p.nodes, &id) {
                        None => {
                            let mut cs: Vec<char> = Vec::new();
                            push_str(&mut cs, "节点 ");
                            push_str(&mut cs, id.as_str());
                            push_str(&mut cs, " 不存在");
                            let msg = text(cs);
                            push_step(&mut run.steps, failed_result(id, "未知节点", msg));
                            run.pos = run.pos + 1;
                            proof {
                                assert("节点 "@ + rv0.order[rv0.pos as int] + " 不存在"@ =~= msg@);
                            }
                            run.proceed(p)
                        },
                        Some(ni) => {
                            proof {
                                lemma_last_node_index(p.nodes@, id@);
                            }
                            let node = &p.nodes[ni];
                            let inputs: Vec<String> = match find_first_source(p, &id) {
                                Some(up) => match find_outputs(&run.outputs, &up) {
                                    Some(v) => v,
                                    None => copy_strings(input_files),
                                },
                                None => copy_strings(input_files),
                            };
                            let pr = progress(p, run.pos, node.id.clone(), node.label.clone(), PipelineStatus::Running);
                            run.phase = Phase::AwaitHandler;
                            run.node = ni;
                            let a = ExecAction::Invoke { node_type: node.node_type.clone(), inputs, params: node.params.copy(), progress: pr };
                            (run, a)
                        },
                    }
                }
            },
            ExecEvent::HandlerDone(outcome) => {
                let node = &p.nodes[run.node];
                match outcome {
                    None => {
                        let mut cs: Vec<char> = Vec::new();
                        push_str(&mut cs, "未注册的节点类型: ");
                        push_str(&mut cs, node.node_type.as_str());
                        let msg = text(cs);
                        push_step(&mut run.steps, StepResult {
                            node_id: node.id.clone(),
                            node_label: node.label.clone(),
                            success: false,
                            output_files: Vec::new(),
                            error: Some(msg),
                        });
                        proof {
                            assert(views(Seq::<String>::empty()) =~= Seq::<Seq<char>>::empty());
                        }
                        run.pos = run.pos + 1;
                        run.proceed(p)
                    },
                    Some(Ok(files)) => {
                        let ghost ov = run.outputs@;
                        push_step(&mut run.steps, StepResult {
                            node_id: node.id.clone(),
                            node_label: node.label.clone(),
                            success: true,
                            output_files: copy_strings(&files),
                            error: None,
                        });
                        run.outputs.push((node.id.clone(), files));
                        proof {
                            assert(outputs_view(run.outputs@) =~= outputs_view(ov).push((node.id@, views(run.outputs@.last().1@))));
                        }
                        run.pos = run.pos + 1;
                        run.proceed(p)
                    },
                    Some(Err(e)) => {
                        run.phase = Phase::Done;
                        let pos = run.pos;
                        push_step(&mut run.steps, StepResult {
                            node_id: node.id.clone(),
                            node_label: node.label.clone(),
                            success: false,
                            output_files: Vec::new(),
                            error: Some(e.clone()),
                        });
                        proof {
                            assert(views(Seq::<String>::empty()) =~= Seq::<Seq<char>>::empty());
                        }
                        let steps = take_steps(&mut run.steps);
                        let pr = progress(p, pos, node.id.clone(), node.label.clone(), PipelineStatus::Failed(e));
                        (run, ExecAction::Finish { result: ExecutionResult { success: false, steps }, progress: Some(pr) })
                    },
                }
            },
        }
    }
}

} // verus!
