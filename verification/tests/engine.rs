use opsbot::model::{CommandResult, Skill, TaskCommand};
use opsbot::repair::{EngineStep, RepairEngine};
use opsbot::runner::{run_outcome_result, spawn_failure_result, timeout_result, Executor};
use opsbot::config::ExecutorConfig;

fn task(cmd: &str, desc: &str) -> TaskCommand {
    TaskCommand { command: cmd.to_string(), description: desc.to_string() }
}

fn ok_result(cmd: &str) -> CommandResult {
    CommandResult {
        command: cmd.to_string(),
        success: true,
        exit_code: Some(0),
        stdout: String::new(),
        stderr: String::new(),
    }
}

fn failed_result(cmd: &str) -> CommandResult {
    CommandResult {
        command: cmd.to_string(),
        success: false,
        exit_code: Some(1),
        stdout: String::new(),
        stderr: "boom".to_string(),
    }
}

#[test]
fn empty_plan_is_immediately_finished() {
    let engine = RepairEngine::new(Vec::new(), Vec::new(), 3);
    assert!(engine.is_finished());
    assert!(matches!(engine.next_step(), EngineStep::Finished));
    assert_eq!(engine.into_results().len(), 0);
}

#[test]
fn successful_plan_runs_every_action_in_order() {
    let plan = vec![task("echo a", "a"), task("echo b", "b"), task("echo c", "c")];
    let mut engine = RepairEngine::new(plan, Vec::new(), 3);
    let mut ran: Vec<String> = Vec::new();
    while !engine.is_finished() {
        match engine.next_step() {
            EngineStep::RunCommand { command } => {
                ran.push(command.clone());
                engine.on_run_result(ok_result(&command));
            }
            _ => panic!("only runs expected"),
        }
    }
    assert_eq!(ran, vec!["echo a", "echo b", "echo c"]);
    let results = engine.into_results();
    assert_eq!(results.len(), 3);
    assert!(results.iter().all(|r| r.success));
    assert_eq!(results[1].command, "echo b");
}

#[test]
fn failure_with_zero_budget_stops_the_plan() {
    let plan = vec![task("ok", "1"), task("bad", "2"), task("never", "3")];
    let mut engine = RepairEngine::new(plan, Vec::new(), 0);
    match engine.next_step() {
        EngineStep::RunCommand { command } => {
            assert_eq!(command, "ok");
            engine.on_run_result(ok_result("ok"));
        }
        _ => panic!(),
    }
    match engine.next_step() {
        EngineStep::RunCommand { command } => {
            assert_eq!(command, "bad");
            engine.on_run_result(failed_result("bad"));
        }
        _ => panic!(),
    }
    assert!(engine.is_finished());
    let results = engine.into_results();
    assert_eq!(results.len(), 2);
    assert!(results[0].success);
    assert!(!results[1].success);
}

#[test]
fn always_failing_action_asks_for_at_most_budget_fixes() {
    let budget = 3u32;
    let plan = vec![task("bad", "1")];
    let mut engine = RepairEngine::new(plan, Vec::new(), budget);
    let mut fix_requests = 0u32;
    loop {
        match engine.next_step() {
            EngineStep::RunCommand { command } => {
                engine.on_run_result(failed_result(&command));
            }
            EngineStep::RequestFix { command, exit_code, stderr, hint } => {
                fix_requests += 1;
                assert_eq!(command, "bad");
                assert_eq!(exit_code, Some(1));
                assert_eq!(stderr, "boom");
                assert_eq!(hint, "");
                engine.on_fix_response(Some("```\nbad\n```"));
            }
            EngineStep::Finished => break,
        }
    }
    assert_eq!(fix_requests, budget);
    let results = engine.into_results();
    assert_eq!(results.len(), 1);
    assert!(!results[0].success);
}

#[test]
fn repaired_action_continues_the_plan() {
    let plan = vec![task("bad", "1"), task("after", "2")];
    let mut engine = RepairEngine::new(plan, Vec::new(), 5);
    match engine.next_step() {
        EngineStep::RunCommand { command } => engine.on_run_result(failed_result(&command)),
        _ => panic!(),
    }
    match engine.next_step() {
        EngineStep::RequestFix { .. } => {
            engine.on_fix_response(Some("try this:\n```\nfixed-cmd --now\n```"))
        }
        _ => panic!(),
    }
    match engine.next_step() {
        EngineStep::RunCommand { command } => {
            assert_eq!(command, "fixed-cmd --now");
            engine.on_run_result(ok_result(&command));
        }
        _ => panic!(),
    }
    match engine.next_step() {
        EngineStep::RunCommand { command } => {
            assert_eq!(command, "after");
            engine.on_run_result(ok_result(&command));
        }
        _ => panic!(),
    }
    assert!(engine.is_finished());
    let results = engine.into_results();
    assert_eq!(results.len(), 2);
    assert_eq!(results[0].command, "fixed-cmd --now");
    assert!(results[0].success);
    assert!(results[1].success);
}

#[test]
fn advisory_error_keeps_last_failure_and_stops() {
    let plan = vec![task("bad", "1"), task("never", "2")];
    let mut engine = RepairEngine::new(plan, Vec::new(), 5);
    match engine.next_step() {
        EngineStep::RunCommand { command } => engine.on_run_result(failed_result(&command)),
        _ => panic!(),
    }
    match engine.next_step() {
        EngineStep::RequestFix { .. } => engine.on_fix_response(None),
        _ => panic!(),
    }
    assert!(engine.is_finished());
    let results = engine.into_results();
    assert_eq!(results.len(), 1);
    assert!(!results[0].success);
    assert_eq!(results[0].command, "bad");
}

#[test]
fn unreadable_suggestion_keeps_last_failure_and_stops() {
    let plan = vec![task("bad", "1")];
    let mut engine = RepairEngine::new(plan, Vec::new(), 5);
    match engine.next_step() {
        EngineStep::RunCommand { command } => engine.on_run_result(failed_result(&command)),
        _ => panic!(),
    }
    match engine.next_step() {
        EngineStep::RequestFix { .. } => {
            engine.on_fix_response(Some("no command anywhere in this prose"))
        }
        _ => panic!(),
    }
    assert!(engine.is_finished());
    let results = engine.into_results();
    assert_eq!(results.len(), 1);
    assert!(!results[0].success);
}

#[test]
fn fix_request_carries_matching_skill_hint() {
    let skill = Skill {
        id: "screen_record".to_string(),
        name: "Record".to_string(),
        description: "d".to_string(),
        prompt_hint: "use avfoundation".to_string(),
        install: String::new(),
    };
    let plan = vec![task("ffmpeg -f avfoundation -i 1:0 out.mp4", "rec")];
    let mut engine = RepairEngine::new(plan, vec![skill], 1);
    match engine.next_step() {
        EngineStep::RunCommand { command } => engine.on_run_result(failed_result(&command)),
        _ => panic!(),
    }
    match engine.next_step() {
        EngineStep::RequestFix { hint, .. } => {
            assert_eq!(hint, "[Record] use avfoundation");
        }
        _ => panic!("fix request expected"),
    }
}

#[test]
fn timeout_result_shape() {
    let r = timeout_result("sleep 999", 120);
    assert!(!r.success);
    assert_eq!(r.exit_code, None);
    assert_eq!(r.stdout, "");
    assert_eq!(r.stderr, "命令超时 (120 秒): sleep 999");
    assert_eq!(r.command, "sleep 999");
}

#[test]
fn spawn_failure_result_shape() {
    let r = spawn_failure_result("doesnotexist", "No such file");
    assert!(!r.success);
    assert_eq!(r.exit_code, None);
    assert_eq!(r.stderr, "命令执行失败: doesnotexist: No such file");
}

#[test]
fn run_outcome_result_decodes_output() {
    let r = run_outcome_result("echo hi", true, Some(0), b"hi\n", b"");
    assert!(r.success);
    assert_eq!(r.exit_code, Some(0));
    assert_eq!(r.stdout, "hi\n");
    assert_eq!(r.stderr, "");
    let bad = run_outcome_result("x", false, None, &[0xff, 0xfe], b"e");
    assert!(!bad.success);
    assert_eq!(bad.stdout.chars().count(), 2);
    assert_eq!(bad.stderr, "e");
}

#[test]
fn effective_command_applies_venv_activation() {
    let with = Executor::new(ExecutorConfig {
        working_dir: None,
        timeout_secs: 10,
        echo_result: true,
        activate_venv: Some(".venv".to_string()),
        max_fix_retries: 0,
    });
    assert_eq!(with.effective_command("python x.py"), "source .venv/bin/activate && python x.py");
    let without = Executor::new(ExecutorConfig::default());
    assert_eq!(without.effective_command("ls"), "ls");
}
