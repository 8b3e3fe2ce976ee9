//! Rotation rules: a source of tracks and the minutes it may fill before the
//! playlist moves on to the next rule.

use crate::text::texts;
use rand::rngs::StdRng;
use rand::seq::SliceRandom;
use vstd::prelude::*;

verus! {

/// What is wrong with a set of rules.
#[derive(Debug, Clone, Copy, PartialEq, Eq, Structural)]
pub enum ConfigurationError {
    /// There is no rule at all.
    NoRules,
    /// The rule that is to supply the next track has no candidate.
    EmptyPool,
}

/// `rand::rngs::StdRng`, the random generator that picks tracks. It can be
/// seeded, so that a run can be repeated. It is carried through, never looked
/// into.
#[verifier::external_type_specification]
#[verifier::external_body]
pub struct ExStdRng(StdRng);

/// One rotation rule.
#[derive(Debug)]
pub struct RuleEntry {
    /// The file or directory that the rule draws from.
    pub url: String,
    /// The rule's quota, in minutes.
    pub duration: i64,
    /// The audio files that back the rule.
    pub audio_files: Vec<String>,
}

/// A rotation rule as a mathematical value.
pub struct RuleView {
    pub url: Seq<char>,
    pub duration: int,
    pub audio_files: Seq<Seq<char>>,
}

/// The view of each rule of `rules`.
pub open spec fn rule_views(rules: Seq<RuleEntry>) -> Seq<RuleView> {
    rules.map_values(|r: RuleEntry| r@)
}

impl RuleView {
    /// The quota in seconds.
    pub open spec fn quota_seconds(self) -> int {
        self.duration * 60
    }

    /// The quota in microseconds, the unit of the timeline.
    pub open spec fn quota_micros(self) -> int {
        self.quota_seconds() * 1_000_000
    }
}

impl View for RuleEntry {
    type V = RuleView;

    open spec fn view(&self) -> RuleView {
        RuleView { url: self.url@, duration: self.duration as int, audio_files: texts(self.audio_files@) }
    }
}

/// `rand::seq::SliceRandom::choose` on a slice of strings: `None` for an empty
/// slice, else a reference to one of its elements. Which element depends on
/// the generator, so nothing more is claimed.
#[verifier::external_body]
fn choose_track<'a>(files: &'a Vec<String>, rng: &mut StdRng) -> (picked: Option<&'a String>)
    ensures
        match picked {
            Some(track) => exists|i: int| 0 <= i < files@.len() && files@[i] == *track,
            None => files@.len() == 0,
        },
{
    files.choose(rng)
}

impl RuleEntry {
    /// A rule for `url` with a quota of `duration` minutes and no candidate
    /// yet.
    pub fn new(url: String, duration: i64) -> (rule: RuleEntry)
        ensures
            rule@ == (RuleView { url: url@, duration: duration as int, audio_files: Seq::empty() }),
    {
        let rule = RuleEntry { url, duration, audio_files: Vec::new() };
        assert(rule@.audio_files =~= Seq::empty());
        rule
    }

    /// One of the rule's audio files, picked at random. Every pick is
    /// independent of the ones before. A rule without candidates is a
    /// configuration error.
    pub fn get_random_audio(&self, rng: &mut StdRng) -> (picked: Result<String, ConfigurationError>)
        ensures
            match picked {
                Ok(path) => self@.audio_files.contains(path@),
                Err(e) => self@.audio_files.len() == 0 && e == ConfigurationError::EmptyPool,
            },
    {
        match choose_track(&self.audio_files, rng) {
            Some(track) => {
                let path = track.clone();
                proof {
                    let i = choose|i: int|
                        0 <= i < self.audio_files@.len() && self.audio_files@[i] == *track;
                    assert(self@.audio_files[i] == path@);
                }
                Ok(path)
            },
            None => Err(ConfigurationError::EmptyPool),
        }
    }

    /// The rule's quota in seconds: its minutes times sixty.
    pub fn get_duration_in_seconds(&self) -> (seconds: i128)
        ensures
            seconds == self@.quota_seconds(),
    {
        (self.duration as i128) * 60
    }
}

/// What the file system holds at the place that a rule names.
#[derive(Debug)]
pub enum Source {
    /// A single file.
    File,
    /// A directory; `files` are the names of the files directly in it.
    Directory { files: Vec<String> },
    /// Neither of the two.
    Missing,
}

/// A source as a mathematical value.
pub enum SourceView {
    File,
    Directory { files: Seq<Seq<char>> },
    Missing,
}

impl View for Source {
    type V = SourceView;

    open spec fn view(&self) -> SourceView {
        match *self {
            Source::File => SourceView::File,
            Source::Directory { files } => SourceView::Directory { files: texts(files@) },
            Source::Missing => SourceView::Missing,
        }
    }
}

/// The path of the file called `name` in the directory `url`.
pub open spec fn joined(url: Seq<char>, name: Seq<char>) -> Seq<char> {
    url + seq!['/'] + name
}

/// The audio files that a rule for `url` gets from `source`: the place itself
/// where it is a file, each file of the directory, with the directory in
/// front, where it is one, and nothing else.
pub open spec fn found(url: Seq<char>, source: SourceView) -> Seq<Seq<char>> {
    match source {
        SourceView::File => seq![url],
        SourceView::Directory { files } => files.map_values(|name: Seq<char>| joined(url, name)),
        SourceView::Missing => Seq::empty(),
    }
}

/// The rule with the audio files that `source` gives added to its
/// candidates.
pub open spec fn opened(rule: RuleView, source: SourceView) -> RuleView {
    RuleView {
        url: rule.url,
        duration: rule.duration,
        audio_files: rule.audio_files + found(rule.url, source),
    }
}

/// The source that `sources` holds for the rule at `index`; a rule without one
/// counts as missing.
pub open spec fn source_at(sources: Seq<Source>, index: int) -> SourceView {
    if 0 <= index < sources.len() {
        sources[index]@
    } else {
        SourceView::Missing
    }
}

impl RuleEntry {
    /// Adds to the rule's candidates the audio files that `source`, which is
    /// what the file system holds at the rule's place, gives.
    pub fn open(&mut self, source: &Source)
        ensures
            final(self)@ == opened(old(self)@, source@),
    {
        match source {
            Source::File => {
                let path = self.url.clone();
                self.audio_files.push(path);
                assert(final(self)@.audio_files =~= old(self)@.audio_files + seq![old(self)@.url]);
            },
            Source::Directory { files } => {
                let count = files.len();
                let mut i: usize = 0;
                while i < count
                    invariant
                        i <= count,
                        count == files@.len(),
                        self.url == old(self).url,
                        self.duration == old(self).duration,
                        texts(self.audio_files@) == old(self)@.audio_files + found(
                            old(self)@.url,
                            source@,
                        ).take(i as int),
                        source@ == (SourceView::Directory { files: texts(files@) }),
                    decreases count - i,
                {
                    proof {
                        reveal_strlit("/");
                    }
                    let mut file_name = self.url.clone();
                    file_name.append("/");
                    file_name.append(files[i].as_str());
                    assert(file_name@ =~= joined(old(self)@.url, files@[i as int]@));
                    let ghost before = texts(self.audio_files@);
                    self.audio_files.push(file_name);
                    assert(texts(self.audio_files@) =~= before.push(file_name@));
                    i = i + 1;
                }
                assert(found(old(self)@.url, source@).take(count as int) =~= found(
                    old(self)@.url,
                    source@,
                ));
            },
            Source::Missing => {},
        }
    }
}

/// Fills the candidates of each rule from what the file system holds at its
/// place: `sources[i]` is what was found at `rule_entries[i].url`. A rule for
/// which `sources` holds nothing is left as it is.
pub fn open_audio_files(rule_entries: &mut Vec<RuleEntry>, sources: &Vec<Source>)
    ensures
        final(rule_entries)@.len() == old(rule_entries)@.len(),
        forall|i: int|
            0 <= i < old(rule_entries)@.len() ==> (#[trigger] final(rule_entries)@[i])@ == opened(
                old(rule_entries)@[i]@,
                source_at(sources@, i),
            ),
{
    let count = rule_entries.len();
    let mut i: usize = 0;
    while i < count
        invariant
            i <= count,
            count == old(rule_entries)@.len(),
            rule_entries@.len() == count,
            forall|k: int|
                0 <= k < i ==> (#[trigger] rule_entries@[k])@ == opened(
                    old(rule_entries)@[k]@,
                    source_at(sources@, k),
                ),
            forall|k: int| i <= k < count ==> #[trigger] rule_entries@[k] == old(rule_entries)@[k],
        decreases count - i,
    {
        if i < sources.len() {
            rule_entries[i].open(&sources[i]);
        }
        i = i + 1;
    }
}

} // verus!
