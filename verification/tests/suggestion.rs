use opsbot::suggestion::{extract_command_from_suggestion, extract_json_object};

#[test]
fn fenced_block_first_line_wins() {
    let s = "Try this:\n```\nffmpeg -i in.mp4 out.mp4\nsecond line\n```\nor `echo hi`";
    assert_eq!(
        extract_command_from_suggestion(s),
        Some("ffmpeg -i in.mp4 out.mp4".to_string())
    );
}

#[test]
fn fenced_block_beats_backticked_span_wherever_it_stands() {
    let s = "Run `echo first` or better:\n```\npip install x\n```";
    assert_eq!(extract_command_from_suggestion(s), Some("pip install x".to_string()));
}

#[test]
fn short_block_skips_a_leading_comment() {
    let s = "```\n# install it\npip install ffmpeg\n```";
    assert_eq!(extract_command_from_suggestion(s), Some("pip install ffmpeg".to_string()));
}

#[test]
fn long_block_with_bad_first_line_falls_through_to_backticks() {
    let s = "use `echo fallback` instead of\n```\n# a\n# b\n# c\n```";
    assert_eq!(extract_command_from_suggestion(s), Some("echo fallback".to_string()));
}

#[test]
fn backtick_span_needs_a_space_slash_or_echo() {
    assert_eq!(
        extract_command_from_suggestion("run `ffmpeg -version` now"),
        Some("ffmpeg -version".to_string())
    );
    assert_eq!(
        extract_command_from_suggestion("run `/usr/bin/thing` now"),
        Some("/usr/bin/thing".to_string())
    );
    assert_eq!(extract_command_from_suggestion("see `word` only"), None);
}

#[test]
fn backtick_span_beats_known_prefix_line() {
    let s = "python3 run.py\nalso try `pip install x` maybe";
    assert_eq!(extract_command_from_suggestion(s), Some("pip install x".to_string()));
}

#[test]
fn known_prefix_line_is_the_last_resort() {
    let s = "first try this\npython3 fix.py --all\nthen rerun";
    assert_eq!(extract_command_from_suggestion(s), Some("python3 fix.py --all".to_string()));
    let abs = "explanation\n/opt/venv/bin/python fix.py\n";
    assert_eq!(
        extract_command_from_suggestion(abs),
        Some("/opt/venv/bin/python fix.py".to_string())
    );
}

#[test]
fn comment_lines_are_skipped_by_the_prefix_rule() {
    let s = "# ffmpeg comment\nffmpeg -i a b\n";
    assert_eq!(extract_command_from_suggestion(s), Some("ffmpeg -i a b".to_string()));
}

#[test]
fn hopeless_text_yields_nothing() {
    assert_eq!(extract_command_from_suggestion(""), None);
    assert_eq!(extract_command_from_suggestion("   \n  "), None);
    assert_eq!(extract_command_from_suggestion("just words, no commands"), None);
}

#[test]
fn json_object_from_fenced_block() {
    let s = "```json\n{\"type\": \"question\"}\n```";
    assert_eq!(extract_json_object(s), "{\"type\": \"question\"}");
}

#[test]
fn json_object_from_outer_braces() {
    let s = "noise {\"a\": {\"b\": 1}} trailing";
    assert_eq!(extract_json_object(s), "{\"a\": {\"b\": 1}}");
}

#[test]
fn json_object_falls_back_to_trimmed_text() {
    assert_eq!(extract_json_object("  plain answer  "), "plain answer");
}
