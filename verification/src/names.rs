//! Display names: the caption shown while a track plays, and the cache that
//! remembers the caption of every track that was looked up once.

use vstd::hash_map::StringHashMap;
use vstd::prelude::*;

verus! {

/// How many characters of `path` lie before the end of its last `/`: the
/// index after the last slash, or zero where there is none.
pub open spec fn name_start(path: Seq<char>) -> nat
    decreases path.len(),
{
    if path.len() == 0 {
        0
    } else if path.last() == '/' {
        path.len()
    } else {
        name_start(path.drop_last())
    }
}

/// The last segment of `path`: what follows its last `/`, or all of it where
/// there is none.
pub open spec fn base_name(path: Seq<char>) -> Seq<char> {
    path.subrange(name_start(path) as int, path.len() as int)
}

/// The last segment of a path holds no slash, and a slash stands in front of
/// it unless it is the whole path.
pub proof fn lemma_base_name(path: Seq<char>)
    ensures
        name_start(path) <= path.len(),
        !base_name(path).contains('/'),
        name_start(path) > 0 ==> path[name_start(path) - 1] == '/',
        path == path.subrange(0, name_start(path) as int) + base_name(path),
    decreases path.len(),
{
    if path.len() > 0 && path.last() != '/' {
        let front = path.drop_last();
        lemma_base_name(front);
        assert(base_name(path) =~= base_name(front).push(path.last()));
    }
}

/// The last segment of `path`.
pub fn file_name(path: &str) -> (name: String)
    ensures
        name@ == base_name(path@),
{
    let length = path.unicode_len();
    let mut start: usize = 0;
    let mut index: usize = 0;
    for c in it: path.chars()
        invariant
            it.seq() == path@,
            length == path@.len(),
            index == it.index(),
            start == name_start(path@.take(index as int)),
            start <= index,
    {
        assert(path@.take(index + 1).drop_last() =~= path@.take(index as int));
        index = index + 1;
        if c == '/' {
            start = index;
        }
    }
    assert(path@.take(index as int) =~= path@);
    String::from_str(path.substring_char(start, length))
}

/// What the media inspector found out about a file.
#[derive(Debug)]
pub enum Inspection {
    /// The file could not be opened.
    Unreadable,
    /// The file was opened; either tag may be missing.
    Readable { artist: Option<String>, title: Option<String> },
}

/// An inspection as a mathematical value.
pub enum InspectionView {
    Unreadable,
    Readable { artist: Option<Seq<char>>, title: Option<Seq<char>> },
}

/// The contents of a string that may be missing.
pub open spec fn option_text(text: Option<String>) -> Option<Seq<char>> {
    match text {
        Some(s) => Some(s@),
        None => None,
    }
}

impl View for Inspection {
    type V = InspectionView;

    open spec fn view(&self) -> InspectionView {
        match *self {
            Inspection::Unreadable => InspectionView::Unreadable,
            Inspection::Readable { artist, title } => InspectionView::Readable {
                artist: option_text(artist),
                title: option_text(title),
            },
        }
    }
}

/// The media inspector failed on a file.
#[derive(Debug, Clone, Copy, PartialEq, Eq, Structural)]
pub enum ExternalToolError {
    /// The inspector could not open the file.
    CannotOpen,
}

/// What stands between artist and title where a file has both.
pub open spec fn separator() -> Seq<char> {
    seq![' ', '-', ' ']
}

/// The tags of a file as one line, made of the tags that are there: artist,
/// separator and title where it has both, the one tag where it has one, and
/// nothing where it has none.
pub open spec fn tag_line(artist: Option<Seq<char>>, title: Option<Seq<char>>) -> Seq<char> {
    match (artist, title) {
        (Some(a), Some(t)) => a + separator() + t,
        (Some(a), None) => a,
        (None, Some(t)) => t,
        (None, None) => Seq::empty(),
    }
}

/// The caption of the file at `path` with the given tags: the tag line, or
/// the last segment of the path where the tag line is empty.
pub open spec fn caption(path: Seq<char>, artist: Option<Seq<char>>, title: Option<Seq<char>>) -> Seq<
    char,
> {
    let line = tag_line(artist, title);
    if line.len() == 0 {
        base_name(path)
    } else {
        line
    }
}

/// Composes the caption of the file at `path` from its tags.
pub fn compose_display_name(path: &str, artist: &Option<String>, title: &Option<String>) -> (name:
    String)
    ensures
        name@ == caption(path@, option_text(*artist), option_text(*title)),
{
    let mut display_name = String::new();
    if let Some(artist) = artist {
        display_name.append(artist.as_str());
        if title.is_some() {
            proof {
                reveal_strlit(" - ");
            }
            display_name.append(" - ");
        }
    }
    if let Some(title) = title {
        display_name.append(title.as_str());
    }
    if display_name.as_str().is_empty() {
        display_name = file_name(path);
    }
    display_name
}

/// The captions found so far, by path.
pub struct DisplayNameCache {
    names: StringHashMap<String>,
}

impl View for DisplayNameCache {
    type V = Map<Seq<char>, Seq<char>>;

    closed spec fn view(&self) -> Map<Seq<char>, Seq<char>> {
        self.names@.map_values(|name: String| name@)
    }
}

/// What a lookup of `path` gives in a cache that holds `cached`, and what
/// the cache holds afterwards. A path that is cached keeps its caption,
/// whatever the inspection says. A path that is not cached gets the caption
/// composed from the inspection and is cached with it; if the file could not
/// be opened, the lookup fails and the cache stays as it was.
pub open spec fn resolved(
    cached: Map<Seq<char>, Seq<char>>,
    path: Seq<char>,
    inspection: InspectionView,
) -> (Result<Seq<char>, ExternalToolError>, Map<Seq<char>, Seq<char>>) {
    if cached.contains_key(path) {
        (Ok(cached[path]), cached)
    } else {
        match inspection {
            InspectionView::Unreadable => (Err(ExternalToolError::CannotOpen), cached),
            InspectionView::Readable { artist, title } => {
                let name = caption(path, artist, title);
                (Ok(name), cached.insert(path, name))
            },
        }
    }
}

/// The contents of a lookup's result.
pub open spec fn result_text(r: Result<String, ExternalToolError>) -> Result<
    Seq<char>,
    ExternalToolError,
> {
    match r {
        Ok(name) => Ok(name@),
        Err(e) => Err(e),
    }
}

/// Cache idempotence. Once a lookup of `path` has given a caption, the path
/// is cached, so that no further inspection of it is needed, and every later
/// lookup gives the same caption and leaves the cache as it is, whatever
/// inspection it is handed.
pub proof fn lemma_lookup_idempotent(
    cached: Map<Seq<char>, Seq<char>>,
    path: Seq<char>,
    first: InspectionView,
    second: InspectionView,
)
    requires
        resolved(cached, path, first).0 is Ok,
    ensures
        resolved(cached, path, first).1.contains_key(path),
        resolved(resolved(cached, path, first).1, path, second) == resolved(cached, path, first),
        forall|other: Seq<char>|
            cached.contains_key(other) ==> resolved(cached, path, first).1.contains_key(other)
                && resolved(cached, path, first).1[other] == cached[other],
{
}

impl DisplayNameCache {
    /// A cache that holds nothing.
    pub fn new() -> (cache: DisplayNameCache)
        ensures
            cache@ == Map::<Seq<char>, Seq<char>>::empty(),
    {
        DisplayNameCache { names: StringHashMap::new() }
    }

    /// The cached caption of `path`, if it has one. Only a path without one
    /// needs an inspection.
    pub fn lookup(&self, path: &str) -> (found: Option<String>)
        ensures
            match found {
                Some(name) => self@.contains_key(path@) && name@ == self@[path@],
                None => !self@.contains_key(path@),
            },
    {
        match self.names.get(path) {
            Some(name) => Some(name.clone()),
            None => None,
        }
    }
}

/// The caption of the file at `path`, from the cache where it is there, else
/// from `inspection`, which is then remembered. A file that is not cached and
/// could not be opened has no caption.
pub fn get_display_name(
    path: &str,
    inspection: &Inspection,
    path_displayname_map: &mut DisplayNameCache,
) -> (name: Result<String, ExternalToolError>)
    ensures
        result_text(name) == resolved(old(path_displayname_map)@, path@, inspection@).0,
        final(path_displayname_map)@ == resolved(old(path_displayname_map)@, path@, inspection@).1,
{
    if let Some(display_name) = path_displayname_map.lookup(path) {
        return Ok(display_name);
    }
    match inspection {
        Inspection::Unreadable => Err(ExternalToolError::CannotOpen),
        Inspection::Readable { artist, title } => {
            let display_name = compose_display_name(path, artist, title);
            path_displayname_map.names.insert(String::from_str(path), display_name.clone());
            Ok(display_name)
        },
    }
}

} // verus!
