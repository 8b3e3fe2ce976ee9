use replace_bgm::names::{
    compose_display_name, file_name, get_display_name, DisplayNameCache, ExternalToolError,
    Inspection,
};

fn tags(artist: Option<&str>, title: Option<&str>) -> Inspection {
    Inspection::Readable {
        artist: artist.map(|s| s.to_string()),
        title: title.map(|s| s.to_string()),
    }
}

#[test]
fn file_name_is_what_follows_the_last_slash() {
    assert_eq!(file_name("/music/rock/song.mp3"), "song.mp3");
    assert_eq!(file_name("song.mp3"), "song.mp3");
    assert_eq!(file_name("/music/rock/"), "");
    assert_eq!(file_name(""), "");
    assert_eq!(file_name("/"), "");
    assert_eq!(file_name("a//b"), "b");
    assert_eq!(file_name("/musik/größe/lied ö.mp3"), "lied ö.mp3");
}

#[test]
fn display_name_with_artist_and_title() {
    let name = compose_display_name(
        "/m/a.mp3",
        &Some("Artist".to_string()),
        &Some("Title".to_string()),
    );
    assert_eq!(name, "Artist - Title");
}

#[test]
fn display_name_with_title_only() {
    let name = compose_display_name("/m/a.mp3", &None, &Some("Title".to_string()));
    assert_eq!(name, "Title");
}

#[test]
fn display_name_with_artist_only_is_the_artist() {
    let name = compose_display_name("/m/a.mp3", &Some("Artist".to_string()), &None);
    assert_eq!(name, "Artist");
}

#[test]
fn display_name_without_tags_is_the_file_name() {
    assert_eq!(compose_display_name("/m/a.mp3", &None, &None), "a.mp3");
    assert_eq!(compose_display_name("/m/a.mp3", &None, &Some(String::new())), "a.mp3");
}

#[test]
fn display_name_with_empty_tags() {
    // A lone tag that is empty makes an empty line: the file name is taken.
    let name = compose_display_name("/m/a.mp3", &Some(String::new()), &None);
    assert_eq!(name, "a.mp3");
    // Two tags, both there, are set apart even where one is empty.
    let name = compose_display_name("/m/a.mp3", &Some(String::new()), &Some("T".to_string()));
    assert_eq!(name, " - T");
    let name = compose_display_name("/m/a.mp3", &Some("A".to_string()), &Some(String::new()));
    assert_eq!(name, "A - ");
}

#[test]
fn cache_holds_the_lone_artist_as_caption() {
    let mut cache = DisplayNameCache::new();
    let name = get_display_name("/m/a.mp3", &tags(Some("Artist"), None), &mut cache);
    assert_eq!(name, Ok("Artist".to_string()));
    assert_eq!(cache.lookup("/m/a.mp3"), Some("Artist".to_string()));
}

#[test]
fn cache_starts_empty() {
    let cache = DisplayNameCache::new();
    assert_eq!(cache.lookup("/m/a.mp3"), None);
}

#[test]
fn cache_remembers_the_first_answer() {
    let mut cache = DisplayNameCache::new();
    let first = get_display_name("/m/a.mp3", &tags(Some("A"), Some("T")), &mut cache);
    assert_eq!(first, Ok("A - T".to_string()));
    // Cached now: no further inspection is needed.
    assert_eq!(cache.lookup("/m/a.mp3"), Some("A - T".to_string()));
    // Whatever a later inspection says, the caption stays.
    let second = get_display_name("/m/a.mp3", &tags(Some("B"), Some("U")), &mut cache);
    assert_eq!(second, first);
    let third = get_display_name("/m/a.mp3", &Inspection::Unreadable, &mut cache);
    assert_eq!(third, first);
    assert_eq!(cache.lookup("/m/a.mp3"), Some("A - T".to_string()));
}

#[test]
fn cache_keeps_paths_apart() {
    let mut cache = DisplayNameCache::new();
    assert_eq!(
        get_display_name("/m/a.mp3", &tags(None, None), &mut cache),
        Ok("a.mp3".to_string())
    );
    assert_eq!(cache.lookup("/m/b.mp3"), None);
    assert_eq!(
        get_display_name("/m/b.mp3", &tags(None, Some("B")), &mut cache),
        Ok("B".to_string())
    );
    assert_eq!(cache.lookup("/m/a.mp3"), Some("a.mp3".to_string()));
    assert_eq!(cache.lookup("/m/b.mp3"), Some("B".to_string()));
}

#[test]
fn unreadable_file_has_no_caption_and_is_not_cached() {
    let mut cache = DisplayNameCache::new();
    let name = get_display_name("/m/a.mp3", &Inspection::Unreadable, &mut cache);
    assert_eq!(name, Err(ExternalToolError::CannotOpen));
    assert_eq!(cache.lookup("/m/a.mp3"), None);
    // A later inspection that succeeds is taken.
    let name = get_display_name("/m/a.mp3", &tags(None, Some("T")), &mut cache);
    assert_eq!(name, Ok("T".to_string()));
}
