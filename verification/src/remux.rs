//! What is handed to the remuxer that puts the playlist under the video: the
//! list of tracks as a text, and the arguments of the call.

use crate::text::texts;
use vstd::prelude::*;

verus! {

/// The line of the track list for the track at `path`: the word `file`, a
/// space and the path between single quotes.
pub open spec fn track_line(path: Seq<char>) -> Seq<char> {
    seq!['f', 'i', 'l', 'e', ' ', '\''] + path + seq!['\'', '\n']
}

/// The lines of the track list for `playlist`, one for each track, in
/// playing order.
pub open spec fn track_lines(playlist: Seq<Seq<char>>) -> Seq<Seq<char>> {
    playlist.map_values(|path: Seq<char>| track_line(path))
}

/// The text of the track list for `playlist`.
pub open spec fn track_list(playlist: Seq<Seq<char>>) -> Seq<char> {
    track_lines(playlist).flatten()
}

/// The track list of `count + 1` tracks is the track list of the first `count`
/// of them and then the line of the next.
pub proof fn lemma_next_track_line(playlist: Seq<Seq<char>>, count: int)
    requires
        0 <= count < playlist.len(),
    ensures
        track_list(playlist.take(count + 1)) == track_list(playlist.take(count)) + track_line(
            playlist[count],
        ),
{
    let front = track_lines(playlist.take(count));
    let next = track_line(playlist[count]);
    assert(track_lines(playlist.take(count + 1)) =~= front.push(next));
    front.lemma_flatten_push(next);
}

/// The track list for `playlist`, as the remuxer reads it: one line
/// `file '<path>'` for each track.
pub fn playlist_text(playlist: &Vec<String>) -> (text: String)
    ensures
        text@ == track_list(texts(playlist@)),
{
    let ghost paths = texts(playlist@);
    let mut text = String::new();
    let count = playlist.len();
    let mut i: usize = 0;
    while i < count
        invariant
            i <= count,
            count == playlist@.len(),
            paths == texts(playlist@),
            text@ == track_list(paths.take(i as int)),
        decreases count - i,
    {
        proof {
            lemma_next_track_line(paths, i as int);
            reveal_strlit("file '");
            reveal_strlit("'\n");
        }
        text.append("file '");
        text.append(playlist[i].as_str());
        text.append("'\n");
        i = i + 1;
    }
    assert(paths.take(count as int) =~= paths);
    text
}

/// The arguments of the remuxer call that takes the picture of `video`, the
/// sound of the tracks listed in the file `track_list` and the subtitles in
/// the file `subtitles`, and writes them to `output` without encoding
/// anything anew, overwriting what is there.
pub open spec fn remux_arguments(
    video: Seq<char>,
    track_list: Seq<char>,
    subtitles: Seq<char>,
    output: Seq<char>,
) -> Seq<Seq<char>> {
    seq![
        "-an"@,
        "-i"@,
        video,
        "-f"@,
        "concat"@,
        "-safe"@,
        "0"@,
        "-i"@,
        track_list,
        "-i"@,
        subtitles,
        "-c"@,
        "copy"@,
        "-y"@,
        output,
    ]
}

/// The arguments for the remuxer; see `remux_arguments`.
pub fn replace_audio_arguments(video_name: &str, playlist_file: &str, srt_file: &str, output: &str) -> (arguments:
    Vec<String>)
    ensures
        texts(arguments@) == remux_arguments(video_name@, playlist_file@, srt_file@, output@),
{
    let mut arguments: Vec<String> = Vec::new();
    arguments.push(String::from_str("-an"));
    arguments.push(String::from_str("-i"));
    arguments.push(String::from_str(video_name));
    arguments.push(String::from_str("-f"));
    arguments.push(String::from_str("concat"));
    arguments.push(String::from_str("-safe"));
    arguments.push(String::from_str("0"));
    arguments.push(String::from_str("-i"));
    arguments.push(String::from_str(playlist_file));
    arguments.push(String::from_str("-i"));
    arguments.push(String::from_str(srt_file));
    arguments.push(String::from_str("-c"));
    arguments.push(String::from_str("copy"));
    arguments.push(String::from_str("-y"));
    arguments.push(String::from_str(output));
    arguments
}

} // verus!
