use opsbot::dispatch::{plan_mode, PlanMode};
use opsbot::model::TaskCommand;
use opsbot::slides::{
    parse_ppt_generator_args, slide_advisory_failure_result, slide_success_result,
    slide_write_failure_result, slides_output_path,
};

fn task(cmd: &str) -> TaskCommand {
    TaskCommand { command: cmd.to_string(), description: String::new() }
}

#[test]
fn two_quoted_arguments_parse_to_title_and_content() {
    let parsed = parse_ppt_generator_args("ppt-generator \"T\" \"C\"");
    assert_eq!(parsed, Some(("T".to_string(), "C".to_string())));
}

#[test]
fn one_quoted_argument_is_not_recognized() {
    assert_eq!(parse_ppt_generator_args("ppt-generator \"T\""), None);
}

#[test]
fn other_commands_are_not_recognized() {
    assert_eq!(parse_ppt_generator_args("echo \"T\" \"C\""), None);
    assert_eq!(parse_ppt_generator_args("ppt-generatorx \"T\" \"C\""), None);
}

#[test]
fn escaped_quotes_stay_inside_a_segment() {
    let parsed = parse_ppt_generator_args("ppt-generator \"A \\\"q\\\" B\" \"C\"");
    assert_eq!(parsed, Some(("A \\\"q\\\" B".to_string(), "C".to_string())));
}

#[test]
fn surrounding_whitespace_is_tolerated() {
    let parsed = parse_ppt_generator_args("  ppt-generator   \"T\" \"C\"  ");
    assert_eq!(parsed, Some(("T".to_string(), "C".to_string())));
}

#[test]
fn slide_plan_is_dispatched_to_the_bypass() {
    let plan = vec![task("ppt-generator \"T\" \"C\""), task("echo later")];
    match plan_mode(&plan) {
        PlanMode::SlideDeck { title, content } => {
            assert_eq!(title, "T");
            assert_eq!(content, "C");
        }
        _ => panic!("slide deck expected"),
    }
}

#[test]
fn unrecognized_slide_command_falls_through_to_ordinary_execution() {
    let plan = vec![task("ppt-generator \"T\"")];
    assert!(matches!(plan_mode(&plan), PlanMode::Ordinary));
}

#[test]
fn probe_plan_is_dispatched_to_the_device_resolver() {
    let plan = vec![
        task("ffmpeg -f avfoundation -list_devices true -i \"\""),
        task("ffmpeg -f avfoundation -i \"1:0\" -t 5 /tmp/rec.mp4"),
    ];
    assert!(matches!(plan_mode(&plan), PlanMode::DeviceProbe));
}

#[test]
fn probe_needs_a_recording_second_action() {
    let plan = vec![
        task("ffmpeg -f avfoundation -list_devices true -i \"\""),
        task("echo nothing"),
    ];
    assert!(matches!(plan_mode(&plan), PlanMode::Ordinary));
}

#[test]
fn empty_plan_is_ordinary() {
    assert!(matches!(plan_mode(&Vec::new()), PlanMode::Ordinary));
}

#[test]
fn synthetic_success_result_names_the_saved_path() {
    let r = slide_success_result("My Deck", slides_output_path());
    assert!(r.success);
    assert_eq!(r.exit_code, Some(0));
    assert_eq!(r.command, "LLM 生成乔布斯风 HTML 演示稿（My Deck）");
    assert_eq!(r.stdout, "已生成并保存到 /tmp/slides.html");
    assert_eq!(r.stderr, "");
}

#[test]
fn synthetic_failure_results_carry_the_error() {
    let w = slide_write_failure_result("ppt-generator \"T\" \"C\"", "disk full");
    assert!(!w.success);
    assert_eq!(w.exit_code, None);
    assert_eq!(w.stderr, "写入文件失败: disk full");
    let a = slide_advisory_failure_result("ppt-generator \"T\" \"C\"", "service down");
    assert!(!a.success);
    assert_eq!(a.stderr, "service down");
    assert_eq!(a.command, "ppt-generator \"T\" \"C\"");
}
