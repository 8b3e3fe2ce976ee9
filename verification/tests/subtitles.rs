use replace_bgm::scheduler::ScheduledSegment;
use replace_bgm::subtitle::generate_srt;

fn segment(name: &str, start: u128, end: u128) -> ScheduledSegment {
    ScheduledSegment { display_name: name.to_string(), start, end }
}

#[test]
fn generate_srt_of_nothing_is_empty() {
    assert_eq!(generate_srt(&Vec::new()), "");
}

#[test]
fn generate_srt_writes_one_cue_per_segment() {
    let segments = vec![
        segment("Artist - Song", 0, 30_000_000),
        segment("other.mp3", 30_000_000, 75_500_000),
    ];
    let expected = "1\n00:00:00,0000 --> 00:00:30,0000\nArtist - Song\n\n\
                    2\n00:00:30,0000 --> 00:01:15,0000\nother.mp3\n\n";
    assert_eq!(generate_srt(&segments), expected);
}

#[test]
fn generate_srt_numbers_cues_from_one_without_gaps() {
    let mut segments = Vec::new();
    for i in 0..12u128 {
        segments.push(segment("track", i * 1_000_000, (i + 1) * 1_000_000));
    }
    let srt = generate_srt(&segments);
    let cues: Vec<&str> = srt.split("\n\n").filter(|cue| !cue.is_empty()).collect();
    assert_eq!(cues.len(), 12);
    for (i, cue) in cues.iter().enumerate() {
        let number = cue.lines().next().unwrap();
        assert_eq!(number, format!("{}", i + 1));
    }
}

#[test]
fn generate_srt_keeps_an_empty_caption_line() {
    let segments = vec![segment("", 0, 1_000_000)];
    assert_eq!(generate_srt(&segments), "1\n00:00:00,0000 --> 00:00:01,0000\n\n\n");
}
