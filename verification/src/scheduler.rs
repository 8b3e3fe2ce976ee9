//! The playlist scheduler: which rule supplies the next track, where each
//! track lies on the timeline, and when the playlist is long enough.
//!
//! The scheduler never inspects a media file. It decides which track is to be
//! inspected next; its caller finds out how long that track plays and what it
//! is called, and hands both back; the scheduler does the accounting.

use crate::rule::{rule_views, ConfigurationError, RuleEntry, RuleView};
use crate::text::texts;
use rand::rngs::StdRng;
use vstd::prelude::*;

verus! {

/// One scheduled track: its caption and the interval it fills on the
/// timeline, in microseconds.
#[derive(Debug)]
pub struct ScheduledSegment {
    pub display_name: String,
    pub start: u128,
    pub end: u128,
}

/// A scheduled track as a mathematical value.
pub struct SegmentView {
    pub display_name: Seq<char>,
    pub start: nat,
    pub end: nat,
}

impl View for ScheduledSegment {
    type V = SegmentView;

    open spec fn view(&self) -> SegmentView {
        SegmentView {
            display_name: self.display_name@,
            start: self.start as nat,
            end: self.end as nat,
        }
    }
}

/// The view of each segment of `segments`.
pub open spec fn segment_views(segments: Seq<ScheduledSegment>) -> Seq<SegmentView> {
    segments.map_values(|s: ScheduledSegment| s@)
}

/// The segments start at zero, none ends before it starts, and each starts
/// where the one before it ends.
pub open spec fn contiguous(segments: Seq<SegmentView>) -> bool {
    &&& segments.len() > 0 ==> segments[0].start == 0
    &&& forall|i: int| 0 <= i < segments.len() ==> (#[trigger] segments[i]).start <= segments[i].end
    &&& forall|i: int|
        0 < i < segments.len() ==> (#[trigger] segments[i]).start == segments[i - 1].end
}

/// Where the last segment ends; zero when there is none.
pub open spec fn end_of(segments: Seq<SegmentView>) -> nat {
    if segments.len() == 0 {
        0
    } else {
        segments.last().end
    }
}

/// How long each segment plays.
pub open spec fn durations(segments: Seq<SegmentView>) -> Seq<nat> {
    Seq::new(segments.len(), |i: int| (segments[i].end - segments[i].start) as nat)
}

/// The sum of `durations`.
pub open spec fn total(durations: Seq<nat>) -> nat
    decreases durations.len(),
{
    if durations.len() == 0 {
        0
    } else {
        total(durations.drop_last()) + durations.last()
    }
}

/// The quota of each rule, in microseconds.
pub open spec fn quotas(rules: Seq<RuleView>) -> Seq<int> {
    rules.map_values(|r: RuleView| r.quota_micros())
}

/// Where the rotation stands: the rule that supplies the next track, and how
/// much that rule has played since the rotation reached it.
pub struct Rotation {
    pub rule_index: nat,
    pub rule_elapsed: nat,
}

impl Rotation {
    /// The rotation of an empty schedule: the first rule has the turn and has
    /// played nothing.
    pub open spec fn start() -> Rotation {
        Rotation { rule_index: 0, rule_elapsed: 0 }
    }
}

/// The rule that follows the rule at `index` among `count` rules: the next
/// one, and after the last the first.
pub open spec fn next_rule(index: nat, count: nat) -> nat {
    if index + 1 < count {
        index + 1
    } else {
        0
    }
}

/// The rule after the one at `index` is found by counting on, modulo the
/// number of rules.
pub proof fn lemma_next_rule(index: nat, count: nat)
    requires
        index < count,
    ensures
        next_rule(index, count) == (index + 1) % count,
        next_rule(index, count) < count,
{
    if index + 1 < count {
        vstd::arithmetic::div_mod::lemma_small_mod(index + 1, count);
    } else {
        vstd::arithmetic::div_mod::lemma_mod_self_0(count as int);
    }
}

/// The rotation after one more track of `duration` microseconds. The rule
/// keeps its turn until it has played more than its quota; reaching the quota
/// is not enough.
pub open spec fn rotate(quotas: Seq<int>, at: Rotation, duration: nat) -> Rotation {
    let in_rule = at.rule_elapsed + duration;
    if in_rule > quotas[at.rule_index as int] {
        Rotation { rule_index: next_rule(at.rule_index, quotas.len()), rule_elapsed: 0 }
    } else {
        Rotation { rule_index: at.rule_index, rule_elapsed: in_rule }
    }
}

/// The rotation after tracks of the given durations, one after the other,
/// starting from `at`.
pub open spec fn rotation_from(quotas: Seq<int>, at: Rotation, durations: Seq<nat>) -> Rotation
    decreases durations.len(),
{
    if durations.len() == 0 {
        at
    } else {
        rotate(quotas, rotation_from(quotas, at, durations.drop_last()), durations.last())
    }
}

/// The state of a schedule as a mathematical value.
pub struct Timeline {
    pub rules: Seq<RuleView>,
    pub target: nat,
    pub rule_index: nat,
    pub rule_elapsed: nat,
    pub global_elapsed: nat,
    pub pending: Option<Seq<char>>,
    pub playlist: Seq<Seq<char>>,
    pub segments: Seq<SegmentView>,
}

impl Timeline {
    /// The empty schedule for `rules` and a target of `target` microseconds.
    pub open spec fn start(rules: Seq<RuleView>, target: nat) -> Timeline {
        Timeline {
            rules,
            target,
            rule_index: 0,
            rule_elapsed: 0,
            global_elapsed: 0,
            pending: None,
            playlist: Seq::empty(),
            segments: Seq::empty(),
        }
    }

    /// The schedule has reached or passed its target.
    pub open spec fn finished(self) -> bool {
        self.global_elapsed >= self.target
    }

    /// Where the rotation stands.
    pub open spec fn rotation(self) -> Rotation {
        Rotation { rule_index: self.rule_index, rule_elapsed: self.rule_elapsed }
    }

    /// The rule that supplies the next track.
    pub open spec fn current_rule(self) -> RuleView {
        self.rules[self.rule_index as int]
    }

    /// The index of the rule that had the turn when the track at `place` in
    /// the playlist was picked.
    pub open spec fn origin(self, place: int) -> nat {
        rotation_from(
            quotas(self.rules),
            Rotation::start(),
            durations(self.segments).take(place),
        ).rule_index
    }

    /// The track at `place` in the playlist is a candidate of the rule that
    /// had the turn when it was picked.
    pub open spec fn from_rule_in_turn(self, place: int) -> bool {
        &&& self.origin(place) < self.rules.len()
        &&& self.rules[self.origin(place) as int].audio_files.contains(self.playlist[place])
    }

    /// The schedule with `path` picked for its next place and waiting to be
    /// inspected.
    pub open spec fn picked(self, path: Seq<char>) -> Timeline {
        Timeline { pending: Some(path), ..self }
    }

    /// The schedule after the track that was waiting has been inspected: the
    /// track is appended to the playlist, a segment of `duration`
    /// microseconds that starts where the schedule ended is appended to the
    /// segments, and the rotation moves on by that track.
    pub open spec fn scheduled(self, duration: nat, name: Seq<char>) -> Timeline
        recommends
            self.pending is Some,
    {
        let next = rotate(quotas(self.rules), self.rotation(), duration);
        Timeline {
            rules: self.rules,
            target: self.target,
            rule_index: next.rule_index,
            rule_elapsed: next.rule_elapsed,
            global_elapsed: self.global_elapsed + duration,
            pending: None,
            playlist: self.playlist.push(self.pending->0),
            segments: self.segments.push(
                SegmentView {
                    display_name: name,
                    start: self.global_elapsed,
                    end: self.global_elapsed + duration,
                },
            ),
        }
    }

    /// What holds of every schedule that was built track by track from an
    /// empty one.
    pub open spec fn wf(self) -> bool {
        &&& self.rules.len() > 0
        &&& self.rule_index < self.rules.len()
        &&& self.rule_elapsed <= self.global_elapsed
        &&& self.playlist.len() == self.segments.len()
        &&& contiguous(self.segments)
        &&& self.global_elapsed == end_of(self.segments)
        &&& forall|i: int|
            0 <= i < self.segments.len() ==> (#[trigger] self.segments[i]).start < self.target
        &&& self.rotation() == rotation_from(
            quotas(self.rules),
            Rotation::start(),
            durations(self.segments),
        )
        &&& forall|i: int| 0 <= i < self.playlist.len() ==> #[trigger] self.from_rule_in_turn(i)
        &&& self.pending is Some ==> !self.finished() && self.current_rule().audio_files.contains(
            self.pending->0,
        )
    }
}

/// An empty schedule over at least one rule is well formed.
pub proof fn lemma_start_wf(rules: Seq<RuleView>, target: nat)
    requires
        rules.len() > 0,
    ensures
        Timeline::start(rules, target).wf(),
{
}

/// Picking a candidate of the rule in turn for a well-formed schedule that
/// is short of its target gives a well-formed schedule.
pub proof fn lemma_picked_wf(t: Timeline, path: Seq<char>)
    requires
        t.wf(),
        !t.finished(),
        t.current_rule().audio_files.contains(path),
    ensures
        t.picked(path).wf(),
{
    let after = t.picked(path);
    assert forall|i: int| 0 <= i < after.playlist.len() implies #[trigger] after.from_rule_in_turn(
        i,
    ) by {
        assert(t.from_rule_in_turn(i));
    }
}

/// Scheduling the track that is waiting on a well-formed schedule gives a
/// well-formed schedule.
pub proof fn lemma_scheduled_wf(t: Timeline, duration: nat, name: Seq<char>)
    requires
        t.wf(),
        t.pending is Some,
    ensures
        t.scheduled(duration, name).wf(),
{
    let after = t.scheduled(duration, name);
    assert(durations(after.segments).drop_last() =~= durations(t.segments));
    assert forall|i: int| 0 <= i < after.playlist.len() implies #[trigger] after.from_rule_in_turn(
        i,
    ) by {
        if i < t.segments.len() {
            assert(t.from_rule_in_turn(i));
            assert(durations(after.segments).take(i) =~= durations(t.segments).take(i));
        }
    }
}

/// The durations of the first `count` of contiguous segments add up to the
/// place where the next one starts, and those of all of them to the place
/// where the last one ends.
pub proof fn lemma_prefix_sums(segments: Seq<SegmentView>, count: int)
    requires
        contiguous(segments),
        0 <= count <= segments.len(),
    ensures
        count < segments.len() ==> total(durations(segments).take(count)) == segments[count].start,
        count == segments.len() ==> total(durations(segments)) == end_of(segments),
    decreases count,
{
    let lengths = durations(segments);
    if count > 0 {
        lemma_prefix_sums(segments, count - 1);
        assert(lengths.take(count).drop_last() =~= lengths.take(count - 1));
    }
}

/// Coverage. A finished schedule with a positive target is not empty. Its
/// track durations add up to at least the target, while those of any shorter
/// run of its first tracks add up to less: the schedule stopped with the
/// first track that reached the target. So the sum is less than the target
/// plus the duration of the last track, and less than the target plus
/// `longest` where no track is longer than that.
pub proof fn lemma_coverage(t: Timeline, longest: nat)
    requires
        t.wf(),
        t.target > 0,
        t.finished(),
        forall|i: int| 0 <= i < t.segments.len() ==> #[trigger] durations(t.segments)[i] <= longest,
    ensures
        t.playlist.len() > 0,
        t.segments.len() == t.playlist.len(),
        total(durations(t.segments)) >= t.target,
        forall|count: int|
            0 <= count < t.segments.len() ==> total(#[trigger] durations(t.segments).take(count))
                < t.target,
        total(durations(t.segments)) < t.target + durations(t.segments).last(),
        total(durations(t.segments)) < t.target + longest,
{
    lemma_prefix_sums(t.segments, t.segments.len() as int);
    assert forall|count: int| 0 <= count < t.segments.len() implies total(
        #[trigger] durations(t.segments).take(count),
    ) < t.target by {
        lemma_prefix_sums(t.segments, count);
    }
}

/// Contiguity. In a well-formed schedule the first segment starts at zero,
/// each later one starts where the one before it ends, and none ends before
/// it starts.
pub proof fn lemma_contiguity(t: Timeline, i: int)
    requires
        t.wf(),
        0 <= i < t.segments.len(),
    ensures
        t.segments[0].start == 0,
        i + 1 < t.segments.len() ==> t.segments[i + 1].start == t.segments[i].end,
        t.segments[i].start <= t.segments[i].end,
        i + 1 == t.segments.len() ==> t.segments[i].end == t.global_elapsed,
{
}

/// Segments come in the order of their starts.
pub proof fn lemma_starts_ascend(segments: Seq<SegmentView>, i: int, j: int)
    requires
        contiguous(segments),
        0 <= i <= j < segments.len(),
    ensures
        segments[i].start <= segments[j].start,
    decreases j - i,
{
    if i < j {
        lemma_starts_ascend(segments, i, j - 1);
    }
}

/// Origin. In a well-formed schedule every track of the playlist is a
/// candidate of the rule that had the turn when the track was picked.
pub proof fn lemma_origin(t: Timeline, place: int)
    requires
        t.wf(),
        0 <= place < t.playlist.len(),
    ensures
        t.origin(place) < t.rules.len(),
        t.rules[t.origin(place) as int].audio_files.contains(t.playlist[place]),
        t.origin(0) == 0,
{
    assert(t.from_rule_in_turn(place));
}

/// Tracks played in two runs rotate as the same tracks played in one.
pub proof fn lemma_rotation_from_concat(
    quotas: Seq<int>,
    at: Rotation,
    first: Seq<nat>,
    second: Seq<nat>,
)
    ensures
        rotation_from(quotas, at, first + second) == rotation_from(
            quotas,
            rotation_from(quotas, at, first),
            second,
        ),
    decreases second.len(),
{
    if second.len() == 0 {
        assert(first + second =~= first);
    } else {
        lemma_rotation_from_concat(quotas, at, first, second.drop_last());
        assert((first + second).drop_last() =~= first + second.drop_last());
    }
}

/// `count` tracks of `duration` microseconds each.
pub open spec fn repeated(duration: nat, count: nat) -> Seq<nat> {
    Seq::new(count, |i: int| duration)
}

/// How many tracks of `duration` microseconds a rule with a quota of `quota`
/// microseconds plays in one turn: the first count whose total is more than
/// the quota.
pub open spec fn tracks_per_turn(quota: int, duration: nat) -> nat {
    (quota / duration as int + 1) as nat
}

/// `quota` divided by `duration`, rounded up.
pub open spec fn ceil_div(quota: int, duration: nat) -> int {
    (quota + duration - 1) / duration as int
}

/// Rotation period. A rule that has just got its turn and plays tracks of one
/// positive duration keeps the turn for `tracks_per_turn` tracks: before that
/// many the rotation stays on the rule, and with that track it moves to the
/// next rule (to the same rule again, where it is the only one) with nothing
/// played yet.
pub proof fn lemma_rotation_period(quotas: Seq<int>, at: Rotation, duration: nat, count: nat)
    requires
        quotas.len() > 0,
        at.rule_index < quotas.len(),
        at.rule_elapsed == 0,
        quotas[at.rule_index as int] >= 0,
        duration > 0,
        count <= tracks_per_turn(quotas[at.rule_index as int], duration),
    ensures
        count < tracks_per_turn(quotas[at.rule_index as int], duration) ==> rotation_from(
            quotas,
            at,
            repeated(duration, count),
        ) == (Rotation { rule_index: at.rule_index, rule_elapsed: count * duration }),
        count == tracks_per_turn(quotas[at.rule_index as int], duration) ==> rotation_from(
            quotas,
            at,
            repeated(duration, count),
        ) == (Rotation { rule_index: next_rule(at.rule_index, quotas.len()), rule_elapsed: 0 }),
    decreases count,
{
    let quota = quotas[at.rule_index as int];
    let d = duration as int;
    let turn = quota / d + 1;
    assert(0 <= quota / d && (quota / d) * d <= quota < (quota / d) * d + d) by (nonlinear_arith)
        requires
            quota >= 0,
            d > 0,
    ;
    if count > 0 {
        let before = (count - 1) as nat;
        lemma_rotation_period(quotas, at, duration, before);
        assert(repeated(duration, count).drop_last() =~= repeated(duration, before));
        assert(repeated(duration, count).last() == duration);
        let played = before * duration + duration;
        assert(played == count * duration) by (nonlinear_arith)
            requires
                played == before * duration + duration,
                before == count - 1,
        ;
        if count < turn {
            assert(count * d <= (quota / d) * d) by (nonlinear_arith)
                requires
                    count <= quota / d,
                    d > 0,
            ;
        } else {
            assert(count * d == (quota / d) * d + d) by (nonlinear_arith)
                requires
                    count == quota / d + 1,
            ;
        }
        let reached = rotation_from(quotas, at, repeated(duration, before));
        assert(reached == (Rotation { rule_index: at.rule_index, rule_elapsed: before * duration }));
        assert(rotation_from(quotas, at, repeated(duration, count)) == rotate(
            quotas,
            reached,
            duration,
        ));
    } else {
        assert(count * duration == 0) by (nonlinear_arith)
            requires
                count == 0,
        ;
    }
}

/// Where the duration does not divide the quota, `tracks_per_turn` is the
/// quota divided by the duration, rounded up. Where it does, the rule plays
/// one track more than that, because reaching the quota does not end a turn.
pub proof fn lemma_tracks_per_turn(quota: int, duration: nat)
    requires
        quota >= 0,
        duration > 0,
    ensures
        quota % (duration as int) != 0 ==> tracks_per_turn(quota, duration) == ceil_div(
            quota,
            duration,
        ),
        quota % (duration as int) == 0 ==> tracks_per_turn(quota, duration) == ceil_div(
            quota,
            duration,
        ) + 1,
{
    let d = duration as int;
    let q = quota / d;
    let r = quota % d;
    vstd::arithmetic::div_mod::lemma_fundamental_div_mod(quota, d);
    assert(0 <= r < d) by (nonlinear_arith)
        requires
            r == quota % d,
            d > 0,
    ;
    assert(0 <= q) by (nonlinear_arith)
        requires
            q == quota / d,
            quota >= 0,
            d > 0,
    ;
    if r != 0 {
        assert(quota + d - 1 == (q + 1) * d + (r - 1)) by (nonlinear_arith)
            requires
                quota == d * q + r,
        ;
        vstd::arithmetic::div_mod::lemma_fundamental_div_mod_converse(
            quota + d - 1,
            d,
            q + 1,
            r - 1,
        );
    } else {
        assert(quota + d - 1 == q * d + (d - 1)) by (nonlinear_arith)
            requires
                quota == d * q + r,
                r == 0,
        ;
        vstd::arithmetic::div_mod::lemma_fundamental_div_mod_converse(quota + d - 1, d, q, d - 1);
    }
}

/// Rotation period, rounded up. A rule that has just got its turn and plays
/// tracks of one positive duration that does not divide its quota rotates
/// with the track whose number in the turn is the quota divided by the
/// duration, rounded up, and not before.
pub proof fn lemma_rotation_period_rounded_up(
    quotas: Seq<int>,
    at: Rotation,
    duration: nat,
    count: nat,
)
    requires
        quotas.len() > 0,
        at.rule_index < quotas.len(),
        at.rule_elapsed == 0,
        quotas[at.rule_index as int] >= 0,
        duration > 0,
        quotas[at.rule_index as int] % (duration as int) != 0,
        count <= ceil_div(quotas[at.rule_index as int], duration),
    ensures
        count < ceil_div(quotas[at.rule_index as int], duration) ==> rotation_from(
            quotas,
            at,
            repeated(duration, count),
        ) == (Rotation { rule_index: at.rule_index, rule_elapsed: count * duration }),
        count == ceil_div(quotas[at.rule_index as int], duration) ==> rotation_from(
            quotas,
            at,
            repeated(duration, count),
        ) == (Rotation { rule_index: next_rule(at.rule_index, quotas.len()), rule_elapsed: 0 }),
{
    lemma_tracks_per_turn(quotas[at.rule_index as int], duration);
    lemma_rotation_period(quotas, at, duration, count);
}

/// Rotation period of a schedule. Let a schedule stand at the start of a
/// rule's turn, and let a later state of it hold `count` more tracks, each of
/// the same positive duration. Up to the rule's `tracks_per_turn` the later
/// schedule is still in that turn, with `count` tracks played in it; with
/// exactly that many it has just moved on to the next rule.
pub proof fn lemma_turn_length(t: Timeline, later: Timeline, duration: nat, count: nat)
    requires
        t.wf(),
        later.wf(),
        later.rules == t.rules,
        durations(later.segments) == durations(t.segments) + repeated(duration, count),
        t.rule_elapsed == 0,
        t.current_rule().quota_micros() >= 0,
        duration > 0,
        count <= tracks_per_turn(t.current_rule().quota_micros(), duration),
    ensures
        count < tracks_per_turn(t.current_rule().quota_micros(), duration) ==> later.rule_index
            == t.rule_index && later.rule_elapsed == count * duration,
        count == tracks_per_turn(t.current_rule().quota_micros(), duration) ==> later.rule_index
            == next_rule(t.rule_index, t.rules.len()) && later.rule_elapsed == 0,
{
    let all = quotas(t.rules);
    lemma_rotation_from_concat(
        all,
        Rotation::start(),
        durations(t.segments),
        repeated(duration, count),
    );
    lemma_rotation_period(all, t.rotation(), duration, count);
}

/// Tracks of one duration add up to their count times that duration.
pub proof fn lemma_total_repeated(duration: nat, count: nat)
    ensures
        total(repeated(duration, count)) == count * duration,
    decreases count,
{
    if count > 0 {
        let before = (count - 1) as nat;
        lemma_total_repeated(duration, before);
        assert(repeated(duration, count).drop_last() =~= repeated(duration, before));
        assert(before * duration + duration == count * duration) by (nonlinear_arith)
            requires
                before == count - 1,
        ;
    } else {
        assert(count * duration == 0) by (nonlinear_arith)
            requires
                count == 0,
        ;
    }
}

/// Track count. A finished schedule with a positive target whose tracks all
/// play for the same positive duration holds as many tracks as the target
/// divided by that duration, rounded up.
pub proof fn lemma_track_count(t: Timeline, duration: nat)
    requires
        t.wf(),
        t.finished(),
        t.target > 0,
        duration > 0,
        durations(t.segments) == repeated(duration, t.segments.len()),
    ensures
        t.playlist.len() == ceil_div(t.target as int, duration),
{
    let count = t.segments.len();
    let before = (count - 1) as nat;
    let d = duration as int;
    lemma_coverage(t, duration);
    lemma_total_repeated(duration, count);
    lemma_total_repeated(duration, before);
    assert(durations(t.segments).take(before as int) =~= repeated(duration, before));
    assert(before * duration + duration == count * duration) by (nonlinear_arith)
        requires
            before == count - 1,
    ;
    vstd::arithmetic::div_mod::lemma_fundamental_div_mod_converse(
        t.target + d - 1,
        d,
        count as int,
        t.target + d - 1 - count * d,
    );
}

/// A schedule under construction.
pub struct Scheduler {
    rules: Vec<RuleEntry>,
    target: u64,
    rule_index: usize,
    rule_elapsed: u128,
    global_elapsed: u128,
    pending: Option<String>,
    playlist: Vec<String>,
    segments: Vec<ScheduledSegment>,
}

/// The contents of a path that may be missing.
pub open spec fn pending_text(pending: Option<String>) -> Option<Seq<char>> {
    match pending {
        Some(path) => Some(path@),
        None => None,
    }
}

impl View for Scheduler {
    type V = Timeline;

    closed spec fn view(&self) -> Timeline {
        Timeline {
            rules: rule_views(self.rules@),
            target: self.target as nat,
            rule_index: self.rule_index as nat,
            rule_elapsed: self.rule_elapsed as nat,
            global_elapsed: self.global_elapsed as nat,
            pending: pending_text(self.pending),
            playlist: texts(self.playlist@),
            segments: segment_views(self.segments@),
        }
    }
}

impl Scheduler {
    /// The scheduler's state is one that scheduling track by track can reach.
    /// `new` returns such a scheduler and every method keeps it so.
    pub open spec fn wf(&self) -> bool {
        self@.wf()
    }

    /// An empty schedule over `rules` that is to fill `target` microseconds.
    /// A schedule needs at least one rule.
    pub fn new(rules: Vec<RuleEntry>, target: u64) -> (made: Result<Scheduler, ConfigurationError>)
        ensures
            match made {
                Ok(scheduler) => rules@.len() > 0 && scheduler.wf() && scheduler@
                    == Timeline::start(rule_views(rules@), target as nat),
                Err(e) => rules@.len() == 0 && e == ConfigurationError::NoRules,
            },
    {
        if rules.len() == 0 {
            return Err(ConfigurationError::NoRules);
        }
        let scheduler = Scheduler {
            rules,
            target,
            rule_index: 0,
            rule_elapsed: 0,
            global_elapsed: 0,
            pending: None,
            playlist: Vec::new(),
            segments: Vec::new(),
        };
        proof {
            assert(scheduler@.playlist =~= Seq::empty());
            assert(scheduler@.segments =~= Seq::empty());
            lemma_start_wf(rule_views(rules@), target as nat);
        }
        Ok(scheduler)
    }

    /// Whether the schedule has reached or passed its target.
    pub fn is_finished(&self) -> (finished: bool)
        ensures
            finished == self@.finished(),
    {
        self.global_elapsed >= self.target as u128
    }

    /// Decides what is to be inspected next. A schedule that has reached its
    /// target needs nothing more. Otherwise the track for the next place is
    /// one of the candidates of the rule whose turn it is, picked at random;
    /// it waits in the scheduler until `schedule` is told what the inspection
    /// found. A rule without candidates is a configuration error.
    pub fn next_track(&mut self, rng: &mut StdRng) -> (next: Result<
        Option<String>,
        ConfigurationError,
    >)
        requires
            old(self).wf(),
        ensures
            final(self).wf(),
            match next {
                Ok(None) => old(self)@.finished() && final(self)@ == old(self)@,
                Ok(Some(path)) => !old(self)@.finished() && old(
                    self,
                )@.current_rule().audio_files.contains(path@) && final(self)@ == old(
                    self,
                )@.picked(path@),
                Err(e) => !old(self)@.finished() && old(self)@.current_rule().audio_files.len()
                    == 0 && e == ConfigurationError::EmptyPool && final(self)@ == old(self)@,
            },
    {
        if self.global_elapsed >= self.target as u128 {
            return Ok(None);
        }
        match self.rules[self.rule_index].get_random_audio(rng) {
            Ok(path) => {
                proof {
                    lemma_picked_wf(old(self)@, path@);
                }
                self.pending = Some(path.clone());
                Ok(Some(path))
            },
            Err(e) => Err(e),
        }
    }

    /// Puts the track that is waiting at the end of the schedule, where it
    /// plays for `duration` microseconds under the caption `display_name`,
    /// and moves the rotation on. With no track waiting the schedule stays as
    /// it is, and the result is `false`.
    pub fn schedule(&mut self, duration: u64, display_name: String) -> (scheduled: bool)
        requires
            old(self).wf(),
        ensures
            final(self).wf(),
            scheduled == (old(self)@.pending is Some),
            scheduled ==> final(self)@ == old(self)@.scheduled(duration as nat, display_name@),
            !scheduled ==> final(self)@ == old(self)@,
    {
        let path = match self.pending.take() {
            Some(path) => path,
            None => {
                return false;
            },
        };
        let start = self.global_elapsed;
        let end = start + duration as u128;
        let in_rule = self.rule_elapsed + duration as u128;
        let quota = self.rules[self.rule_index].get_duration_in_seconds() * 1_000_000;
        let rule_count = self.rules.len();
        proof {
            lemma_scheduled_wf(old(self)@, duration as nat, display_name@);
            lemma_next_rule(self.rule_index as nat, rule_count as nat);
        }
        self.playlist.push(path);
        self.segments.push(ScheduledSegment { display_name, start, end });
        self.global_elapsed = end;
        if in_rule as i128 > quota {
            self.rule_elapsed = 0;
            self.rule_index = (self.rule_index + 1) % rule_count;
        } else {
            self.rule_elapsed = in_rule;
        }
        proof {
            let after = old(self)@.scheduled(duration as nat, display_name@);
            assert(self@.playlist =~= after.playlist);
            assert(self@.segments =~= after.segments);
        }
        true
    }

    /// The index of the rule whose turn it is.
    pub fn rule_index(&self) -> (index: usize)
        ensures
            index == self@.rule_index,
    {
        self.rule_index
    }

    /// How much the schedule holds so far, in microseconds.
    pub fn global_elapsed(&self) -> (elapsed: u128)
        ensures
            elapsed == self@.global_elapsed,
    {
        self.global_elapsed
    }

    /// The tracks scheduled so far, in playing order.
    pub fn playlist(&self) -> (tracks: &Vec<String>)
        ensures
            texts(tracks@) == self@.playlist,
    {
        &self.playlist
    }

    /// The segments scheduled so far, one for each track of the playlist.
    pub fn segments(&self) -> (segments: &Vec<ScheduledSegment>)
        ensures
            segment_views(segments@) == self@.segments,
    {
        &self.segments
    }

    /// Gives up the scheduler for its playlist and its segments.
    pub fn into_parts(self) -> (parts: (Vec<String>, Vec<ScheduledSegment>))
        ensures
            texts(parts.0@) == self@.playlist,
            segment_views(parts.1@) == self@.segments,
    {
        (self.playlist, self.segments)
    }
}

} // verus!
