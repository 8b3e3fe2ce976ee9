use rand::rngs::StdRng;
use rand::SeedableRng;
use replace_bgm::rule::{open_audio_files, ConfigurationError, RuleEntry, Source};

fn rule(url: &str, minutes: i64, files: &[&str]) -> RuleEntry {
    RuleEntry {
        url: url.to_string(),
        duration: minutes,
        audio_files: files.iter().map(|s| s.to_string()).collect(),
    }
}

#[test]
fn new_rule_has_no_candidates() {
    let r = RuleEntry::new("/music".to_string(), 3);
    assert_eq!(r.url, "/music");
    assert_eq!(r.duration, 3);
    assert!(r.audio_files.is_empty());
}

#[test]
fn quota_in_seconds_is_minutes_times_sixty() {
    assert_eq!(rule("/a", 1, &[]).get_duration_in_seconds(), 60);
    assert_eq!(rule("/a", 0, &[]).get_duration_in_seconds(), 0);
    assert_eq!(rule("/a", -2, &[]).get_duration_in_seconds(), -120);
    assert_eq!(
        rule("/a", i64::MAX, &[]).get_duration_in_seconds(),
        9_223_372_036_854_775_807i128 * 60
    );
}

#[test]
fn random_audio_is_one_of_the_candidates() {
    let r = rule("/a", 1, &["/a/1.mp3", "/a/2.mp3", "/a/3.mp3"]);
    let mut rng = StdRng::seed_from_u64(11);
    let mut seen = [false; 3];
    for _ in 0..200 {
        let picked = r.get_random_audio(&mut rng).unwrap();
        let at = r.audio_files.iter().position(|f| *f == picked);
        assert!(at.is_some());
        seen[at.unwrap()] = true;
    }
    // Two hundred independent picks out of three reach each of them.
    assert_eq!(seen, [true, true, true]);
}

#[test]
fn random_audio_of_a_single_candidate() {
    let r = rule("/a.mp3", 1, &["/a.mp3"]);
    let mut rng = StdRng::seed_from_u64(1);
    assert_eq!(r.get_random_audio(&mut rng), Ok("/a.mp3".to_string()));
    assert_eq!(r.get_random_audio(&mut rng), Ok("/a.mp3".to_string()));
}

#[test]
fn random_audio_of_an_empty_pool_is_an_error() {
    let r = rule("/a", 1, &[]);
    let mut rng = StdRng::seed_from_u64(1);
    assert_eq!(r.get_random_audio(&mut rng), Err(ConfigurationError::EmptyPool));
}

#[test]
fn open_adds_the_file_itself() {
    let mut r = rule("/music/one.mp3", 1, &[]);
    r.open(&Source::File);
    assert_eq!(r.audio_files, vec!["/music/one.mp3".to_string()]);
}

#[test]
fn open_adds_each_file_of_a_directory() {
    let mut r = rule("/music/rock", 1, &["kept.mp3"]);
    r.open(&Source::Directory { files: vec!["a.mp3".to_string(), "b.ogg".to_string()] });
    assert_eq!(
        r.audio_files,
        vec![
            "kept.mp3".to_string(),
            "/music/rock/a.mp3".to_string(),
            "/music/rock/b.ogg".to_string()
        ]
    );
    assert_eq!(r.url, "/music/rock");
    assert_eq!(r.duration, 1);
}

#[test]
fn open_adds_nothing_for_a_missing_place_or_an_empty_directory() {
    let mut r = rule("/nowhere", 1, &[]);
    r.open(&Source::Missing);
    assert!(r.audio_files.is_empty());
    r.open(&Source::Directory { files: Vec::new() });
    assert!(r.audio_files.is_empty());
}

#[test]
fn open_audio_files_fills_every_rule_from_its_own_source() {
    let mut rules = vec![
        rule("/music/rock", 2, &[]),
        rule("/music/one.mp3", 1, &[]),
        rule("/nowhere", 1, &[]),
    ];
    let sources = vec![
        Source::Directory { files: vec!["a.mp3".to_string(), "b.mp3".to_string()] },
        Source::File,
        Source::Missing,
    ];
    open_audio_files(&mut rules, &sources);
    assert_eq!(rules.len(), 3);
    assert_eq!(
        rules[0].audio_files,
        vec!["/music/rock/a.mp3".to_string(), "/music/rock/b.mp3".to_string()]
    );
    assert_eq!(rules[1].audio_files, vec!["/music/one.mp3".to_string()]);
    assert!(rules[2].audio_files.is_empty());
}

#[test]
fn open_audio_files_leaves_rules_without_a_source_alone() {
    let mut rules = vec![rule("/a.mp3", 1, &[]), rule("/b.mp3", 1, &["x"])];
    open_audio_files(&mut rules, &vec![Source::File]);
    assert_eq!(rules[0].audio_files, vec!["/a.mp3".to_string()]);
    assert_eq!(rules[1].audio_files, vec!["x".to_string()]);
    // More sources than rules: the rest is not looked at.
    let mut one = vec![rule("/c.mp3", 1, &[])];
    open_audio_files(&mut one, &vec![Source::File, Source::File]);
    assert_eq!(one.len(), 1);
    assert_eq!(one[0].audio_files, vec!["/c.mp3".to_string()]);
}
