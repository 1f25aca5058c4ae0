use filetoolkit::pipeline::executor::{ExecAction, ExecEvent, ExecRun, HandlerRegistry};
use filetoolkit::pipeline::model::{ParamMap, Pipeline, PipelineEdge, PipelineNode, PipelineStatus};

fn node(id: &str, node_type: &str) -> PipelineNode {
    PipelineNode { id: id.into(), node_type: node_type.into(), label: id.to_uppercase(), params: ParamMap { entries: vec![] } }
}

fn pipeline() -> Pipeline {
    Pipeline {
        name: "p".into(),
        description: "".into(),
        nodes: vec![node("a", "rename"), node("b", "dedup")],
        edges: vec![PipelineEdge {
            id: "e".into(),
            source: "a".into(),
            source_port: "default".into(),
            target: "b".into(),
            target_port: "default".into(),
        }],
    }
}

#[test]
fn registry_reads_what_was_registered() {
    let mut r: HandlerRegistry<u32> = HandlerRegistry::new();
    assert!(r.get("x").is_none());
    r.register("x", 1);
    r.register("y", 2);
    r.register("x", 3);
    assert_eq!(r.get("x"), Some(&3));
    assert_eq!(r.get("y"), Some(&2));
}

/// Drives a run, answering each action; handlers append "!" to their inputs.
fn drive_with(p: &Pipeline, cancel_at: Option<usize>, fail_at: Option<usize>, unregistered: Option<&str>) -> (filetoolkit::pipeline::executor::ExecutionResult, Vec<String>) {
    let inputs = vec!["in.txt".to_string()];
    let mut run = ExecRun::new();
    let mut event = ExecEvent::Begin;
    let mut checks = 0;
    let mut invoked = 0;
    let mut reported = Vec::new();
    loop {
        let (next, action) = run.advance(p, &inputs, "/out", event);
        run = next;
        event = match action {
            ExecAction::CreateOutputDir => ExecEvent::OutputDirReady(Ok(())),
            ExecAction::CheckCancel => {
                checks += 1;
                ExecEvent::CancelChecked(cancel_at == Some(checks))
            }
            ExecAction::Invoke { node_type, inputs, progress, .. } => {
                reported.push(format!("{}:{}", progress.current_node_id, progress.current_step));
                invoked += 1;
                if unregistered == Some(node_type.as_str()) {
                    ExecEvent::HandlerDone(None)
                } else if fail_at == Some(invoked) {
                    ExecEvent::HandlerDone(Some(Err(format!("{} failed", node_type))))
                } else {
                    ExecEvent::HandlerDone(Some(Ok(inputs.iter().map(|f| format!("{}!", f)).collect())))
                }
            }
            ExecAction::Finish { result, progress } => {
                if let Some(pr) = progress {
                    let status = match pr.status {
                        PipelineStatus::Completed => "completed".to_string(),
                        PipelineStatus::Cancelled => "cancelled".to_string(),
                        PipelineStatus::Failed(e) => format!("failed {}", e),
                        _ => "other".to_string(),
                    };
                    reported.push(status);
                }
                return (result, reported);
            }
        };
    }
}

fn drive(p: &Pipeline, cancel_at: Option<usize>, fail_at: Option<usize>) -> (filetoolkit::pipeline::executor::ExecutionResult, Vec<String>) {
    drive_with(p, cancel_at, fail_at, None)
}

#[test]
fn a_run_with_an_unregistered_type_completes_but_is_not_a_success() {
    let (result, reported) = drive_with(&pipeline(), None, None, Some("rename"));
    assert!(!result.success);
    assert_eq!(result.steps.len(), 2);
    assert!(!result.steps[0].success);
    assert!(result.steps[1].success);
    assert_eq!(result.steps[1].output_files, vec!["in.txt!"]);
    assert_eq!(reported.last().unwrap(), "completed");
}

#[test]
fn a_run_feeds_each_node_its_upstream_outputs() {
    let (result, reported) = drive(&pipeline(), None, None);
    assert!(result.success);
    assert_eq!(result.steps.len(), 2);
    assert_eq!(result.steps[0].output_files, vec!["in.txt!"]);
    assert_eq!(result.steps[1].output_files, vec!["in.txt!!"]);
    assert_eq!(reported, vec!["a:0", "b:1", "completed"]);
}

#[test]
fn a_failing_handler_ends_the_run() {
    let (result, reported) = drive(&pipeline(), None, Some(1));
    assert!(!result.success);
    assert_eq!(result.steps.len(), 1);
    assert_eq!(result.steps[0].error, Some("rename failed".to_string()));
    assert_eq!(reported, vec!["a:0", "failed rename failed"]);
}

#[test]
fn a_cancelled_run_stops_before_the_next_node() {
    let (result, reported) = drive(&pipeline(), Some(2), None);
    assert!(!result.success);
    assert_eq!(result.steps.len(), 2);
    assert_eq!(result.steps[1].node_label, "已取消");
    assert_eq!(result.steps[1].error, Some("流水线已被用户取消".to_string()));
    assert_eq!(reported, vec!["a:0", "cancelled"]);
}

#[test]
fn a_cycle_is_reported_as_a_pipeline_error() {
    let mut p = pipeline();
    p.edges.push(PipelineEdge {
        id: "back".into(),
        source: "b".into(),
        source_port: "default".into(),
        target: "a".into(),
        target_port: "default".into(),
    });
    let (result, _) = drive(&p, None, None);
    assert!(!result.success);
    assert_eq!(result.steps[0].node_label, "流水线错误");
}
