use replace_bgm::remux::{playlist_text, replace_audio_arguments};

#[test]
fn playlist_text_has_one_line_per_track() {
    let playlist = vec!["/music/a.mp3".to_string(), "/music/b c.ogg".to_string()];
    assert_eq!(playlist_text(&playlist), "file '/music/a.mp3'\nfile '/music/b c.ogg'\n");
}

#[test]
fn playlist_text_of_nothing_is_empty() {
    assert_eq!(playlist_text(&Vec::new()), "");
}

#[test]
fn playlist_text_repeats_a_track_that_plays_twice() {
    let playlist = vec!["/a".to_string(), "/a".to_string()];
    assert_eq!(playlist_text(&playlist), "file '/a'\nfile '/a'\n");
}

#[test]
fn replace_audio_arguments_in_order() {
    assert_eq!(
        replace_audio_arguments("in.mp4", "/tmp/list", "/tmp/subs", "out.mkv"),
        vec![
            "-an", "-i", "in.mp4", "-f", "concat", "-safe", "0", "-i", "/tmp/list", "-i",
            "/tmp/subs", "-c", "copy", "-y", "out.mkv"
        ]
    );
}
