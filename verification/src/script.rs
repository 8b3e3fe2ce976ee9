//! Scripts: the text that lists the rotation rules.
//!
//! A line that starts with `#` is a comment. The other lines come in pairs:
//! the place that a rule draws from, and then its quota in minutes. A place
//! that is not absolute is looked for beside the script. A script whose last
//! place has no quota, or with a quota that is no integer, holds no rules.

use crate::number::{parse_i64, parsed_i64};
use crate::rule::{joined, RuleEntry, RuleView};
use crate::text::texts;
use itertools::Itertools;
use std::path::Path;
use vstd::prelude::*;

verus! {

/// What is wrong with a script.
#[derive(Debug, Clone, Copy, PartialEq, Eq, Structural)]
pub enum ScriptError {
    /// The last place of the script has no quota after it.
    UnpairedLine,
    /// The quota of the pair with this index, counted from zero, is no
    /// integer that fits 64 bits.
    BadQuota { pair: usize },
}

/// Whether `line` is a comment.
pub open spec fn is_comment(line: Seq<char>) -> bool {
    line.len() > 0 && line[0] == '#'
}

/// The lines of a script that are no comments, in order.
pub open spec fn statements(lines: Seq<Seq<char>>) -> Seq<Seq<char>> {
    lines.filter(|line: Seq<char>| !is_comment(line))
}

/// Whether every place of the script has a quota after it: the statements
/// come in pairs, with none left over.
pub open spec fn paired(lines: Seq<Seq<char>>) -> bool {
    statements(lines).len() % 2 == 0
}

/// How many pairs of statements the script holds.
pub open spec fn pair_count(lines: Seq<Seq<char>>) -> nat {
    statements(lines).len() / 2
}

/// The place that the pair with the index `pair` names.
pub open spec fn source_line(lines: Seq<Seq<char>>, pair: int) -> Seq<char> {
    statements(lines)[2 * pair]
}

/// The quota that the pair with the index `pair` gives, as it is written.
pub open spec fn quota_line(lines: Seq<Seq<char>>, pair: int) -> Seq<char> {
    statements(lines)[2 * pair + 1]
}

/// The directory that places are looked for in: the script's own directory
/// where that is absolute, else that directory below the current one. A
/// script that lies in the current directory itself has an empty directory.
pub open spec fn base_of(script_dir: Seq<char>, dir_absolute: bool, current_dir: Seq<char>) -> Seq<
    char,
> {
    if dir_absolute {
        script_dir
    } else if script_dir.len() == 0 {
        current_dir
    } else {
        joined(current_dir, script_dir)
    }
}

/// The place that a rule draws from: the place as written where that is
/// absolute, else the place below `base`.
pub open spec fn resolved_source(source: Seq<char>, absolute: bool, base: Seq<char>) -> Seq<char> {
    if absolute {
        source
    } else {
        joined(base, source)
    }
}

/// The place that a rule of a script draws from, given what the platform
/// says of the place as written and of the script's directory: whether each
/// is absolute. An absolute place stays as it is written; any other lies
/// beside the script.
pub open spec fn placed(
    source: Seq<char>,
    source_absolute: bool,
    script_dir: Seq<char>,
    dir_absolute: bool,
    current_dir: Seq<char>,
) -> Seq<char> {
    resolved_source(source, source_absolute, base_of(script_dir, dir_absolute, current_dir))
}

/// Whether `rule` is the rule that a script in `script_dir`, read while
/// `current_dir` is the current directory, holds for the place `source` and
/// the quota `quota`. Which paths count as absolute is for the platform to
/// say, so the rule's place is `placed` for some pair of answers.
pub open spec fn is_script_rule(
    rule: RuleView,
    source: Seq<char>,
    quota: Seq<char>,
    script_dir: Seq<char>,
    current_dir: Seq<char>,
) -> bool {
    &&& parsed_i64(quota) == Some(rule.duration as i64)
    &&& i64::MIN <= rule.duration <= i64::MAX
    &&& rule.audio_files.len() == 0
    &&& exists|source_absolute: bool, dir_absolute: bool|
        rule.url == #[trigger] placed(
            source,
            source_absolute,
            script_dir,
            dir_absolute,
            current_dir,
        )
}

/// `std::path::Path::is_absolute`. What counts as absolute differs between
/// platforms, so nothing is claimed of the result.
#[verifier::external_body]
fn path_is_absolute(path: &str) -> (absolute: bool) {
    Path::new(path).is_absolute()
}

/// `itertools::Itertools::tuples` on a vector of strings, with pairs as the
/// tuples: the first two elements form the first pair, the next two the
/// second, and so on; a last element without a partner is dropped.
#[verifier::external_body]
fn pair_up(lines: Vec<String>) -> (pairs: Vec<(String, String)>)
    ensures
        pairs@.len() == lines@.len() / 2,
        forall|k: int|
            0 <= k < pairs@.len() ==> (#[trigger] pairs@[k]).0 == lines@[2 * k] && pairs@[k].1
                == lines@[2 * k + 1],
{
    lines.into_iter().tuples().collect()
}

/// Whether `line` is a comment.
pub fn is_comment_line(line: &str) -> (comment: bool)
    ensures
        comment == is_comment(line@),
{
    !line.is_empty() && line.get_char(0) == '#'
}

/// The lines of a script that are no comments.
pub fn script_statements(lines: &Vec<String>) -> (kept: Vec<String>)
    ensures
        texts(kept@) == statements(texts(lines@)),
{
    let ghost all = texts(lines@);
    let ghost keep = |line: Seq<char>| !is_comment(line);
    let mut kept: Vec<String> = Vec::new();
    let count = lines.len();
    let mut i: usize = 0;
    proof {
        reveal(Seq::filter);
    }
    while i < count
        invariant
            i <= count,
            count == lines@.len(),
            all == texts(lines@),
            keep == |line: Seq<char>| !is_comment(line),
            texts(kept@) == all.take(i as int).filter(keep),
        decreases count - i,
    {
        proof {
            reveal(Seq::filter);
            assert(all.take(i + 1).drop_last() =~= all.take(i as int));
        }
        if !is_comment_line(lines[i].as_str()) {
            kept.push(lines[i].clone());
        }
        i = i + 1;
    }
    assert(all.take(count as int) =~= all);
    kept
}

/// The directory that the places of a script are looked for in, given
/// whether the script's directory is absolute.
pub fn base_directory(script_dir: &str, dir_absolute: bool, current_dir: &str) -> (base: String)
    ensures
        base@ == base_of(script_dir@, dir_absolute, current_dir@),
{
    if dir_absolute {
        String::from_str(script_dir)
    } else if script_dir.is_empty() {
        String::from_str(current_dir)
    } else {
        proof {
            reveal_strlit("/");
        }
        let mut base = String::from_str(current_dir);
        base.append("/");
        base.append(script_dir);
        base
    }
}

/// The place that a rule draws from, given whether the place as written is
/// absolute.
pub fn resolve_source(source: &str, absolute: bool, base: &str) -> (url: String)
    ensures
        url@ == resolved_source(source@, absolute, base@),
{
    if absolute {
        String::from_str(source)
    } else {
        proof {
            reveal_strlit("/");
        }
        let mut url = String::from_str(base);
        url.append("/");
        url.append(source);
        url
    }
}

/// The place that a rule of a script draws from, given the platform's two
/// answers: whether the place as written is absolute, and whether the
/// script's directory is.
pub fn place_source(
    source: &str,
    source_absolute: bool,
    script_dir: &str,
    dir_absolute: bool,
    current_dir: &str,
) -> (url: String)
    ensures
        url@ == placed(source@, source_absolute, script_dir@, dir_absolute, current_dir@),
{
    let base = base_directory(script_dir, dir_absolute, current_dir);
    resolve_source(source, source_absolute, base.as_str())
}

/// Reads the rules of a script from its lines and puts them, in order, after
/// those that `rule_entries` holds. `script_dir` is the directory of the
/// script and `current_dir` the current directory. The rules have no
/// candidates yet.
///
/// A script whose last place has no quota is refused as a whole. So is one
/// with a quota that is no integer; the error names the first such pair.
/// Either way `rule_entries` stays as it is.
pub fn read_script(
    lines: &Vec<String>,
    script_dir: &str,
    current_dir: &str,
    rule_entries: &mut Vec<RuleEntry>,
) -> (read: Result<(), ScriptError>)
    ensures
        match read {
            Ok(()) => {
                &&& paired(texts(lines@))
                &&& final(rule_entries)@.len() == old(rule_entries)@.len() + pair_count(
                    texts(lines@),
                )
                &&& forall|i: int|
                    0 <= i < old(rule_entries)@.len() ==> #[trigger] final(rule_entries)@[i] == old(
                        rule_entries,
                    )@[i]
                &&& forall|k: int|
                    0 <= k < pair_count(texts(lines@)) ==> is_script_rule(
                        (#[trigger] final(rule_entries)@[old(rule_entries)@.len() + k])@,
                        source_line(texts(lines@), k),
                        quota_line(texts(lines@), k),
                        script_dir@,
                        current_dir@,
                    )
            },
            Err(ScriptError::UnpairedLine) => {
                &&& !paired(texts(lines@))
                &&& final(rule_entries)@ == old(rule_entries)@
            },
            Err(ScriptError::BadQuota { pair }) => {
                &&& paired(texts(lines@))
                &&& pair < pair_count(texts(lines@))
                &&& parsed_i64(quota_line(texts(lines@), pair as int)) is None
                &&& forall|k: int|
                    0 <= k < pair ==> parsed_i64(#[trigger] quota_line(texts(lines@), k)) is Some
                &&& final(rule_entries)@ == old(rule_entries)@
            },
        },
{
    let kept = script_statements(lines);
    if kept.len() % 2 != 0 {
        return Err(ScriptError::UnpairedLine);
    }
    let ghost written = texts(kept@);
    let dir_absolute = path_is_absolute(script_dir);
    let pairs = pair_up(kept);
    let count = pairs.len();
    let mut entries: Vec<RuleEntry> = Vec::new();
    let mut k: usize = 0;
    while k < count
        invariant
            k <= count,
            count == pairs@.len(),
            count == pair_count(texts(lines@)),
            paired(texts(lines@)),
            written == statements(texts(lines@)),
            forall|j: int|
                0 <= j < count ==> (#[trigger] pairs@[j]).0@ == written[2 * j] && pairs@[j].1@
                    == written[2 * j + 1],
            entries@.len() == k,
            forall|j: int|
                0 <= j < k ==> is_script_rule(
                    (#[trigger] entries@[j])@,
                    source_line(texts(lines@), j),
                    quota_line(texts(lines@), j),
                    script_dir@,
                    current_dir@,
                ),
            forall|j: int| 0 <= j < k ==> parsed_i64(#[trigger] quota_line(texts(lines@), j)) is Some,
            *rule_entries == *old(rule_entries),
        decreases count - k,
    {
        let source = pairs[k].0.as_str();
        let quota = pairs[k].1.as_str();
        let duration = match parse_i64(quota) {
            Some(duration) => duration,
            None => {
                return Err(ScriptError::BadQuota { pair: k });
            },
        };
        let source_absolute = path_is_absolute(source);
        let url = place_source(source, source_absolute, script_dir, dir_absolute, current_dir);
        let entry = RuleEntry::new(url, duration);
        entries.push(entry);
        k = k + 1;
    }
    rule_entries.append(&mut entries);
    Ok(())
}

} // verus!
