use opsbot::device::{
    is_avfoundation_record, is_list_avfoundation_devices, parse_avfoundation_screen_index,
    replace_avfoundation_device_index, rewrite_plan_after_probe,
};
use opsbot::model::TaskCommand;

#[test]
fn minimal_marker_line_resolves_index_zero() {
    assert_eq!(parse_avfoundation_screen_index("[0] Capture screen 0"), Some(0));
}

#[test]
fn real_device_listing_resolves_bracket_group() {
    let stdout = "\
[AVFoundation indev @ 0x7f8] AVFoundation video devices:
[AVFoundation indev @ 0x7f8] [0] FaceTime HD Camera
[AVFoundation indev @ 0x7f8] [1] Capture screen 0
[AVFoundation indev @ 0x7f8] AVFoundation audio devices:
";
    assert_eq!(parse_avfoundation_screen_index(stdout), Some(1));
}

#[test]
fn non_digit_groups_are_skipped_scanning_backwards() {
    assert_eq!(parse_avfoundation_screen_index("[x] [2] Capture screen 0"), Some(2));
    assert_eq!(parse_avfoundation_screen_index("[3] [y] Capture screen 0"), Some(3));
}

#[test]
fn no_marker_means_no_index() {
    assert_eq!(parse_avfoundation_screen_index("[1] FaceTime HD Camera"), None);
    assert_eq!(parse_avfoundation_screen_index(""), None);
}

#[test]
fn oversized_group_does_not_parse() {
    assert_eq!(
        parse_avfoundation_screen_index("[99999999999999999999] Capture screen 0"),
        None
    );
}

#[test]
fn later_lines_are_tried_when_a_marker_line_has_no_group() {
    let stdout = "Capture screen without group\n[4] Capture screen 0\n";
    assert_eq!(parse_avfoundation_screen_index(stdout), Some(4));
}

#[test]
fn rewrite_replaces_only_digits_before_colon_zero() {
    let cmd = "ffmpeg -f avfoundation -i \"1:0\" -t 10 /tmp/rec.mp4";
    let rewritten = replace_avfoundation_device_index(cmd, 0);
    assert_eq!(rewritten, "ffmpeg -f avfoundation -i \"0:0\" -t 10 /tmp/rec.mp4");
}

#[test]
fn rewrite_handles_unquoted_selector() {
    let cmd = "ffmpeg -f avfoundation -i 3:0 out.mp4";
    assert_eq!(replace_avfoundation_device_index(cmd, 12), "ffmpeg -f avfoundation -i 12:0 out.mp4");
}

#[test]
fn rewrite_leaves_other_shapes_alone() {
    let no_colon = "ffmpeg -f avfoundation -i \"1\" out.mp4";
    assert_eq!(replace_avfoundation_device_index(no_colon, 0), no_colon);
    let no_flag = "ffmpeg -f avfoundation out.mp4";
    assert_eq!(replace_avfoundation_device_index(no_flag, 0), no_flag);
    let colon_one = "ffmpeg -i 1:1 out.mp4";
    assert_eq!(replace_avfoundation_device_index(colon_one, 0), colon_one);
}

#[test]
fn probe_and_record_commands_are_recognized() {
    assert!(is_list_avfoundation_devices(
        "ffmpeg -f avfoundation -list_devices true -i \"\""
    ));
    assert!(!is_list_avfoundation_devices("ffmpeg -i in.mp4 out.mp4"));
    assert!(is_avfoundation_record("ffmpeg -f avfoundation -i \"1:0\" -t 10 /tmp/r.mp4"));
    assert!(!is_avfoundation_record("ffmpeg -f avfoundation -list_devices true"));
}

#[test]
fn plan_rewrite_drops_probe_and_updates_recording() {
    let plan = vec![
        TaskCommand {
            command: "ffmpeg -f avfoundation -list_devices true -i \"\"".to_string(),
            description: "list".to_string(),
        },
        TaskCommand {
            command: "ffmpeg -f avfoundation -i \"1:0\" -t 5 /tmp/rec.mp4".to_string(),
            description: "record".to_string(),
        },
        TaskCommand { command: "echo done".to_string(), description: "done".to_string() },
    ];
    let rest = rewrite_plan_after_probe(&plan, "[2] Capture screen 0");
    assert_eq!(rest.len(), 2);
    assert_eq!(rest[0].command, "ffmpeg -f avfoundation -i \"2:0\" -t 5 /tmp/rec.mp4");
    assert_eq!(rest[0].description, "record");
    assert_eq!(rest[1].command, "echo done");
}

#[test]
fn plan_rewrite_keeps_recording_without_an_index() {
    let plan = vec![
        TaskCommand { command: "probe".to_string(), description: "p".to_string() },
        TaskCommand { command: "ffmpeg -i \"1:0\" r.mp4".to_string(), description: "r".to_string() },
    ];
    let rest = rewrite_plan_after_probe(&plan, "nothing useful");
    assert_eq!(rest.len(), 1);
    assert_eq!(rest[0].command, "ffmpeg -i \"1:0\" r.mp4");
}
