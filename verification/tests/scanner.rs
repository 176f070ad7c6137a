use opsbot::artifacts::{
    find_image_paths, find_images_in_results, find_video_paths, find_videos_in_results,
};
use opsbot::model::CommandResult;

fn result_with(stdout: &str, stderr: &str, command: &str) -> CommandResult {
    CommandResult {
        command: command.to_string(),
        success: true,
        exit_code: Some(0),
        stdout: stdout.to_string(),
        stderr: stderr.to_string(),
    }
}

#[test]
fn scan_splits_images_and_videos_by_extension() {
    let results = vec![result_with("saved to /tmp/out.PNG and ./x.mp4", "", "echo")];
    let images = find_images_in_results(&results);
    let videos = find_videos_in_results(&results);
    assert_eq!(images, vec!["/tmp/out.PNG".to_string()]);
    assert_eq!(videos, vec!["./x.mp4".to_string()]);
}

#[test]
fn scanning_twice_yields_identical_lists() {
    let results = vec![result_with("/b.png ./a.png /b.png", "./c.PNG", "cp /b.png /tmp/d.mp4")];
    let first = find_images_in_results(&results);
    let second = find_images_in_results(&results);
    assert_eq!(first, second);
    assert_eq!(first, vec!["./a.png", "./c.PNG", "/b.png"]);
    let v1 = find_videos_in_results(&results);
    let v2 = find_videos_in_results(&results);
    assert_eq!(v1, v2);
    assert_eq!(v1, vec!["/tmp/d.mp4"]);
}

#[test]
fn lists_are_sorted_and_deduplicated() {
    let results = vec![
        result_with("/z.png /a.png", "", ""),
        result_with("/a.png /m.png", "", ""),
    ];
    let images = find_images_in_results(&results);
    assert_eq!(images, vec!["/a.png", "/m.png", "/z.png"]);
}

#[test]
fn uppercase_extension_matches_and_casing_is_kept() {
    let images = find_image_paths("result: /TMP/SHOT.JPEG done");
    assert_eq!(images, vec!["/TMP/SHOT.JPEG"]);
}

#[test]
fn quoted_paths_are_unwrapped() {
    let images = find_image_paths("wrote \"/tmp/a.png\" and '/tmp/b.gif'");
    assert_eq!(images, vec!["/tmp/a.png", "/tmp/b.gif"]);
}

#[test]
fn tokens_without_a_path_prefix_are_ignored() {
    assert!(find_image_paths("shot.png tmp/x.png http://h/y.png").is_empty());
    assert!(find_video_paths("movie.mp4 no/slash.mov").is_empty());
}

#[test]
fn command_text_is_scanned_too() {
    let results = vec![result_with("", "", "screencapture /tmp/shot.png")];
    let images = find_images_in_results(&results);
    assert_eq!(images, vec!["/tmp/shot.png"]);
}

#[test]
fn every_image_extension_is_recognized() {
    let text = "/a.png /b.jpg /c.jpeg /d.gif /e.bmp /f.webp /g.txt";
    let images = find_image_paths(text);
    assert_eq!(images.len(), 6);
}

#[test]
fn every_video_extension_is_recognized() {
    let text = "/a.mp4 /b.webm /c.mov /d.mkv /e.avi /f.wav";
    let videos = find_video_paths(text);
    assert_eq!(videos.len(), 5);
}
