//! Media formats: which input files can be transcribed, and the audio formats a
//! video can be converted to.
use vstd::prelude::*;
use crate::models::{strs_view, strings_view};
use crate::paths::{
    is_extension_of, last_segment, name_extension, path_extension, portable_extension, ordinary_path,
};
use crate::text::{chars_of, lower_case, str_eq, to_lowercase};

verus! {

/// The extensions of the audio and video files that can be transcribed.
pub open spec fn supported_formats() -> Seq<Seq<char>> {
    seq![
        "mp3"@, "wav"@, "flac"@, "ogg"@, "aac"@, "m4a"@, "aiff"@, "caf"@, "mp4"@, "mov"@, "mkv"@,
        "webm"@,
    ]
}

/// Whether `name` is one of `list`.
pub fn name_in(list: &Vec<&str>, name: &str) -> (r: bool)
    ensures
        r == strs_view(list@).contains(name@),
{
    let mut k: usize = 0;
    while k < list.len()
        invariant
            k <= list@.len(),
            forall|q: int| 0 <= q < k ==> list@[q]@ != name@,
        decreases list.len() - k,
    {
        if str_eq(list[k], name) {
            assert(strs_view(list@)[k as int] == name@);
            return true;
        }
        k = k + 1;
    }
    assert forall|q: int| 0 <= q < strs_view(list@).len() implies strs_view(list@)[q] != name@ by {
        assert(strs_view(list@)[q] == list@[q]@);
    }
    false
}

/// Whether a file extension, in any case, is one that can be transcribed.
pub fn is_supported_extension(ext: &str) -> (r: bool)
    ensures
        r == supported_formats().contains(lower_case(ext@)),
{
    let list: Vec<&str> = vec![
        "mp3", "wav", "flac", "ogg", "aac", "m4a", "aiff", "caf", "mp4", "mov", "mkv", "webm",
    ];
    assert(strs_view(list@) =~= supported_formats());
    let lower = to_lowercase(ext);
    name_in(&list, lower.as_str())
}

/// Whether the file at `file_path` has an extension of a format that can be transcribed.
pub fn is_supported_format(file_path: &str) -> (r: bool)
    ensures
        r ==> exists|e: Seq<char>|
            is_extension_of(file_path@, e) && supported_formats().contains(lower_case(e)),
        !file_path@.contains('.') ==> !r,
        ordinary_path(file_path@) ==> r == (name_extension(last_segment(file_path@)) matches Some(e)
            && supported_formats().contains(lower_case(e))),
        portable_extension(file_path@) matches Some(x) ==> r == supported_formats().contains(lower_case(x)),
{
    match path_extension(file_path) {
        Some(ext) => is_supported_extension(ext.as_str()),
        None => false,
    }
}

// ---------------------------------------------------------------------------
// Audio conversion targets
// ---------------------------------------------------------------------------

/// The audio formats a video can be converted to: id, file extension, and the
/// encoder arguments for FFmpeg.
pub open spec fn audio_formats() -> Seq<(Seq<char>, Seq<char>, Seq<Seq<char>>)> {
    seq![
        ("mp3"@, "mp3"@, seq!["-c:a"@, "libmp3lame"@, "-q:a"@, "2"@]),
        ("wav"@, "wav"@, seq!["-c:a"@, "pcm_s16le"@]),
        ("flac"@, "flac"@, seq!["-c:a"@, "flac"@]),
        ("m4a"@, "m4a"@, seq!["-c:a"@, "aac"@, "-b:a"@, "192k"@]),
        ("ogg"@, "ogg"@, seq!["-c:a"@, "libvorbis"@, "-q:a"@, "5"@]),
        ("opus"@, "opus"@, seq!["-c:a"@, "libopus"@, "-b:a"@, "128k"@]),
        ("wma"@, "wma"@, seq!["-c:a"@, "wmav2"@, "-b:a"@, "192k"@]),
    ]
}

/// An audio format a video can be converted to.
pub struct AudioFormat {
    pub id: &'static str,
    pub extension: &'static str,
    pub encoder_args: Vec<&'static str>,
}

/// The view of an audio format: id, extension, encoder arguments.
pub open spec fn format_view(f: AudioFormat) -> (Seq<char>, Seq<char>, Seq<Seq<char>>) {
    (f.id@, f.extension@, strs_view(f.encoder_args@))
}

fn audio_format_table() -> (r: Vec<AudioFormat>)
    ensures
        r@.len() == audio_formats().len(),
        forall|k: int| 0 <= k < r@.len() ==> format_view(#[trigger] r@[k]) == audio_formats()[k],
{
    let mut r: Vec<AudioFormat> = Vec::new();
    r.push(AudioFormat { id: "mp3", extension: "mp3", encoder_args: vec!["-c:a", "libmp3lame", "-q:a", "2"] });
    r.push(AudioFormat { id: "wav", extension: "wav", encoder_args: vec!["-c:a", "pcm_s16le"] });
    r.push(AudioFormat { id: "flac", extension: "flac", encoder_args: vec!["-c:a", "flac"] });
    r.push(AudioFormat { id: "m4a", extension: "m4a", encoder_args: vec!["-c:a", "aac", "-b:a", "192k"] });
    r.push(AudioFormat { id: "ogg", extension: "ogg", encoder_args: vec!["-c:a", "libvorbis", "-q:a", "5"] });
    r.push(AudioFormat { id: "opus", extension: "opus", encoder_args: vec!["-c:a", "libopus", "-b:a", "128k"] });
    r.push(AudioFormat { id: "wma", extension: "wma", encoder_args: vec!["-c:a", "wmav2", "-b:a", "192k"] });
    assert forall|k: int| 0 <= k < r@.len() implies format_view(#[trigger] r@[k]) == audio_formats()[k] by {
        assert(strs_view(r@[k].encoder_args@) =~= audio_formats()[k].2);
    }
    r
}

/// The ids of the audio formats a video can be converted to, in table order.
pub fn get_audio_formats() -> (r: Vec<String>)
    ensures
        strings_view(r@) == audio_formats().map_values(|f: (Seq<char>, Seq<char>, Seq<Seq<char>>)| f.0),
{
    let table = audio_format_table();
    let mut r: Vec<String> = Vec::new();
    let mut k: usize = 0;
    while k < table.len()
        invariant
            k <= table@.len(),
            table@.len() == audio_formats().len(),
            forall|q: int| 0 <= q < table@.len() ==> format_view(#[trigger] table@[q]) == audio_formats()[q],
            strings_view(r@) == audio_formats().take(k as int).map_values(
                |f: (Seq<char>, Seq<char>, Seq<Seq<char>>)| f.0,
            ),
        decreases table.len() - k,
    {
        let id = table[k].id.to_owned();
        let ghost before = strings_view(r@);
        r.push(id);
        assert(format_view(table@[k as int]) == audio_formats()[k as int]);
        assert(id@ == audio_formats()[k as int].0);
        assert(strings_view(r@) =~= before.push(id@));
        assert(audio_formats().take(k + 1).map_values(|f: (Seq<char>, Seq<char>, Seq<Seq<char>>)| f.0)
            =~= audio_formats().take(k as int).map_values(|f: (Seq<char>, Seq<char>, Seq<Seq<char>>)| f.0).push(
            audio_formats()[k as int].0));
        assert(strings_view(r@) =~= audio_formats().take(k + 1).map_values(
            |f: (Seq<char>, Seq<char>, Seq<Seq<char>>)| f.0,
        ));
        k = k + 1;
    }
    assert(audio_formats().take(table@.len() as int) =~= audio_formats());
    r
}

/// The first table entry with the given id.
pub open spec fn spec_find_audio_format(id: Seq<char>) -> Option<(Seq<char>, Seq<char>, Seq<Seq<char>>)> {
    let t = audio_formats();
    if exists|k: int| 0 <= k < t.len() && (#[trigger] t[k]).0 == id {
        Some(t[choose|k: int| 0 <= k < t.len() && (#[trigger] t[k]).0 == id])
    } else {
        None
    }
}

proof fn lemma_format_ids_distinct()
    ensures
        forall|i: int, j: int|
            0 <= i < 7 && 0 <= j < 7 && audio_formats()[i].0 == audio_formats()[j].0 ==> i == j,
{
    reveal_strlit("mp3");
    reveal_strlit("wav");
    reveal_strlit("flac");
    reveal_strlit("m4a");
    reveal_strlit("ogg");
    reveal_strlit("opus");
    reveal_strlit("wma");
    let t = audio_formats();
    assert(t[0].0[0] == 'm' && t[0].0[1] == 'p');
    assert(t[1].0[0] == 'w' && t[1].0[1] == 'a');
    assert(t[2].0[0] == 'f');
    assert(t[3].0[0] == 'm' && t[3].0[1] == '4');
    assert(t[4].0[0] == 'o' && t[4].0[1] == 'g');
    assert(t[5].0[0] == 'o' && t[5].0[1] == 'p');
    assert(t[6].0[0] == 'w' && t[6].0[1] == 'm');
}

/// The audio format with the given id; ids are compared exactly.
pub fn find_audio_format(id: &str) -> (r: Option<AudioFormat>)
    ensures
        match r {
            Some(f) => spec_find_audio_format(id@) == Some(format_view(f)),
            None => spec_find_audio_format(id@) is None,
        },
{
    let mut table = audio_format_table();
    let ghost t = audio_formats();
    let mut k: usize = 0;
    while k < table.len()
        invariant
            k <= table@.len(),
            table@.len() == t.len(),
            t == audio_formats(),
            forall|q: int| 0 <= q < table@.len() ==> format_view(#[trigger] table@[q]) == t[q],
            forall|q: int| 0 <= q < k ==> t[q].0 != id@,
        decreases table.len() - k,
    {
        assert(format_view(table@[k as int]) == t[k as int]);
        if str_eq(table[k].id, id) {
            proof {
                lemma_format_ids_distinct();
                let c = choose|q: int| 0 <= q < t.len() && (#[trigger] t[q]).0 == id@;
                assert(c == k);
            }
            let f = table.remove(k);
            return Some(f);
        }
        k = k + 1;
    }
    None
}

/// Whether two paths name the same file: exact equality, or equality up to ASCII
/// case when `ignore_ascii_case` (as on Windows).
pub open spec fn spec_paths_equal(a: Seq<char>, b: Seq<char>, ignore_ascii_case: bool) -> bool {
    if ignore_ascii_case {
        a.len() == b.len() && forall|i: int| 0 <= i < a.len() ==> #[trigger] ascii_lower(a[i]) == ascii_lower(b[i])
    } else {
        a == b
    }
}

/// The code of `c` with ASCII capitals made small.
pub open spec fn ascii_lower(c: char) -> int {
    if 'A' <= c <= 'Z' { (c as u32) + 32 } else { (c as u32) as int }
}

fn to_ascii_lower(c: char) -> (r: u32)
    ensures
        r == ascii_lower(c),
{
    if 'A' <= c && c <= 'Z' {
        (c as u32) + 32
    } else {
        c as u32
    }
}

/// Whether the output path equals the input path.
pub fn path_eq_ignore_case(a: &str, b: &str, ignore_ascii_case: bool) -> (r: bool)
    ensures
        r == spec_paths_equal(a@, b@, ignore_ascii_case),
{
    if !ignore_ascii_case {
        return str_eq(a, b);
    }
    let x = chars_of(a);
    let y = chars_of(b);
    if x.len() != y.len() {
        return false;
    }
    let mut k: usize = 0;
    while k < x.len()
        invariant
            x@ == a@,
            y@ == b@,
            x@.len() == y@.len(),
            k <= x@.len(),
            forall|q: int| 0 <= q < k ==> #[trigger] ascii_lower(x@[q]) == ascii_lower(y@[q]),
        decreases x.len() - k,
    {
        if to_ascii_lower(x[k]) != to_ascii_lower(y[k]) {
            assert(ascii_lower(x@[k as int]) != ascii_lower(y@[k as int]));
            return false;
        }
        k = k + 1;
    }
    true
}

} // verus!
