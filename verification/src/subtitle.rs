//! The subtitle track: one numbered cue for each scheduled segment.

use crate::scheduler::{segment_views, ScheduledSegment, SegmentView};
use crate::text::{decimal, push_decimal};
use crate::time::{format_time, timestamp};
use vstd::prelude::*;

verus! {

/// What stands between the two timestamps of a cue.
pub open spec fn arrow() -> Seq<char> {
    seq![' ', '-', '-', '>', ' ']
}

/// The cue with the number `number` for `segment`: the number, the time range,
/// the caption, and an empty line, each on a line of its own.
pub open spec fn cue(number: nat, segment: SegmentView) -> Seq<char> {
    decimal(number) + seq!['\n'] + timestamp(segment.start) + arrow() + timestamp(segment.end)
        + seq!['\n'] + segment.display_name + seq!['\n', '\n']
}

/// The cues of `segments` in order. The cue of the first segment has the
/// number one, and each later cue the number after that of the cue before it.
pub open spec fn cues(segments: Seq<SegmentView>) -> Seq<Seq<char>> {
    Seq::new(segments.len(), |i: int| cue((i + 1) as nat, segments[i]))
}

/// The text of the subtitle track for `segments`: its cues, one after the
/// other.
pub open spec fn subtitles(segments: Seq<SegmentView>) -> Seq<char> {
    cues(segments).flatten()
}

/// Cue numbering. The subtitle track of `count + 1` segments is the track of
/// the first `count` of them followed by the cue numbered `count + 1`.
pub proof fn lemma_next_cue(segments: Seq<SegmentView>, count: int)
    requires
        0 <= count < segments.len(),
    ensures
        cues(segments).len() == segments.len(),
        subtitles(segments.take(count + 1)) == subtitles(segments.take(count)) + cue(
            (count + 1) as nat,
            segments[count],
        ),
{
    let front = cues(segments.take(count));
    let next = cue((count + 1) as nat, segments[count]);
    assert(cues(segments.take(count + 1)) =~= front.push(next));
    front.lemma_flatten_push(next);
}

/// Appends the cue numbered `number` for `segment` to `srt`.
fn push_cue(srt: &mut String, number: u64, segment: &ScheduledSegment)
    ensures
        final(srt)@ == old(srt)@ + cue(number as nat, segment@),
{
    let start_time = format_time(segment.start);
    let end_time = format_time(segment.end);
    proof {
        reveal_strlit("\n");
        reveal_strlit(" --> ");
        assert(" --> "@ =~= arrow());
        assert("\n"@ =~= seq!['\n']);
    }
    push_decimal(srt, number);
    srt.append("\n");
    srt.append(start_time.as_str());
    srt.append(" --> ");
    srt.append(end_time.as_str());
    srt.append("\n");
    srt.append(segment.display_name.as_str());
    srt.append("\n");
    srt.append("\n");
    assert(final(srt)@ =~= old(srt)@ + cue(number as nat, segment@));
}

/// The subtitle track for the scheduled segments: for each segment a cue with
/// its number, counted from one, the time range `start --> end`, the caption
/// and an empty line.
pub fn generate_srt(display_namelist: &Vec<ScheduledSegment>) -> (srt: String)
    ensures
        srt@ == subtitles(segment_views(display_namelist@)),
{
    let ghost segments = segment_views(display_namelist@);
    let mut srt = String::new();
    let count = display_namelist.len();
    let mut i: usize = 0;
    while i < count
        invariant
            i <= count,
            count == display_namelist@.len(),
            segments == segment_views(display_namelist@),
            srt@ == subtitles(segments.take(i as int)),
        decreases count - i,
    {
        proof {
            lemma_next_cue(segments, i as int);
        }
        push_cue(&mut srt, (i as u64) + 1, &display_namelist[i]);
        i = i + 1;
    }
    assert(segments.take(count as int) =~= segments);
    srt
}

} // verus!
