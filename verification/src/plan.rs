//! Deciding what to download: the formats of a video sorted into groups,
//! the candidates to try for an audio-only or a video download, the file
//! names they are saved under, and the verdict on each finished download.
use vstd::prelude::*;
use vstd::string::*;
use crate::format::{
    FormatKind, MediaFormat, audio_candidates, available_resolutions, offers_height, audio_key, extension_for, format_extension,
    is_direct, is_ranked, is_stable_desc_order, kind_of, rank_audio_formats, rank_video_formats,
    video_key,
};
use crate::text::{decimal, decimal_string, is_white_space, join_text, trimmed};

verus! {

/// Below this size a downloaded video file is almost certainly not real video data
/// (a throttled or restricted stream saved as a file instead of an error).
pub const MIN_VALID_VIDEO_BYTES: u64 = 100 * 1024;

/// Below this size a downloaded audio file is almost certainly not real audio data.
pub const MIN_VALID_AUDIO_BYTES: u64 = 10 * 1024;

/// Why no download can be planned.
#[derive(Debug, Clone, Copy, PartialEq, Eq, Structural)]
pub enum PlanError {
    NoAudioTrack,
    NoVideoFormats,
    InvalidChoice,
    NoVideoFormat,
}

/// The message shown for each planning error.
pub open spec fn plan_error_message(e: PlanError) -> Seq<char> {
    match e {
        PlanError::NoAudioTrack => "No downloadable audio track found"@,
        PlanError::NoVideoFormats => "No video formats found"@,
        PlanError::InvalidChoice => "Invalid choice"@,
        PlanError::NoVideoFormat => "Could not find video format"@,
    }
}

impl PlanError {
    /// The message shown for this error.
    pub fn message(&self) -> (r: &'static str)
        ensures
            r@ == plan_error_message(*self),
    {
        match self {
            PlanError::NoAudioTrack => "No downloadable audio track found",
            PlanError::NoVideoFormats => "No video formats found",
            PlanError::InvalidChoice => "Invalid choice",
            PlanError::NoVideoFormat => "Could not find video format",
        }
    }
}

/// The plain values of a sequence of format references.
pub open spec fn derefs(s: Seq<&MediaFormat>) -> Seq<MediaFormat> {
    s.map_values(|f: &MediaFormat| *f)
}

/// `f` can be downloaded directly and is of kind `k`.
pub open spec fn direct_of_kind(f: MediaFormat, k: FormatKind) -> bool {
    !f.has_manifest_url && kind_of(f) == k
}

/// The directly downloadable formats of kind `k`, in their order.
pub open spec fn formats_of_kind(formats: Seq<MediaFormat>, k: FormatKind) -> Seq<MediaFormat> {
    formats.filter(|f: MediaFormat| direct_of_kind(f, k))
}

fn select_kind<'a>(formats: &'a [MediaFormat], kind: FormatKind) -> (r: Vec<&'a MediaFormat>)
    ensures
        derefs(r@) == formats_of_kind(formats@, kind),
{
    let ghost pred = |f: MediaFormat| direct_of_kind(f, kind);
    let mut r: Vec<&'a MediaFormat> = Vec::new();
    let mut i: usize = 0;
    while i < formats.len()
        invariant
            i <= formats@.len(),
            pred == (|f: MediaFormat| direct_of_kind(f, kind)),
            derefs(r@) == formats@.take(i as int).filter(pred),
        decreases formats@.len() - i,
    {
        let f: &'a MediaFormat = &formats[i];
        let ghost before = r@;
        proof {
            reveal_with_fuel(Seq::filter, 1);
            assert(formats@.take(i + 1).drop_last() =~= formats@.take(i as int));
        }
        if is_direct(f) && f.format_type() == kind {
            r.push(f);
            assert(derefs(r@) =~= derefs(before).push(*f));
        }
        i = i + 1;
    }
    assert(formats@.take(formats@.len() as int) =~= formats@);
    r
}

/// The directly downloadable formats of a video, by what they carry.
pub struct FormatGroups<'a> {
    pub audio: Vec<&'a MediaFormat>,
    pub progressive: Vec<&'a MediaFormat>,
    pub video_only: Vec<&'a MediaFormat>,
}

/// Sorts the directly downloadable formats into audio-only, audio-and-video
/// (progressive) and video-only groups, each in the order of `formats`.
pub fn classify_formats<'a>(formats: &'a [MediaFormat]) -> (g: FormatGroups<'a>)
    ensures
        derefs(g.audio@) == formats_of_kind(formats@, FormatKind::Audio),
        derefs(g.progressive@) == formats_of_kind(formats@, FormatKind::AudioVideo),
        derefs(g.video_only@) == formats_of_kind(formats@, FormatKind::Video),
{
    FormatGroups {
        audio: select_kind(formats, FormatKind::Audio),
        progressive: select_kind(formats, FormatKind::AudioVideo),
        video_only: select_kind(formats, FormatKind::Video),
    }
}

/// The characters that `sanitize_filename` drops from a name: path and shell specials,
/// and control characters (Unicode category Cc, what `char::is_control` tests).
pub open spec fn is_unsafe_in_name(c: char) -> bool {
    ||| c == '/' || c == '\\' || c == ':' || c == '*' || c == '?'
    ||| c == '"' || c == '<' || c == '>' || c == '|'
    ||| c <= '\u{1f}'
    ||| ('\u{7f}' <= c && c <= '\u{9f}')
}

/// The pass of `sanitize_filename` over a title, one character at a time: unsafe
/// characters are dropped, and a dot right after a kept dot removes that dot and itself.
/// Gives the text kept so far and whether it ends with a dot that was just kept.
pub open spec fn scrubbed(s: Seq<char>) -> (Seq<char>, bool)
    decreases s.len(),
{
    if s.len() == 0 {
        (seq![], false)
    } else {
        let (kept, after_dot) = scrubbed(s.drop_last());
        let c = s.last();
        if is_unsafe_in_name(c) {
            (kept, false)
        } else if c == '.' && after_dot {
            (kept.drop_last(), false)
        } else {
            (kept.push(c), c == '.')
        }
    }
}

/// The name `sanitize_filename` makes of a title: the scrubbed text with the white
/// space at both ends removed, or `download` when nothing else is left.
pub open spec fn sanitized_file_name(title: Seq<char>) -> Seq<char> {
    let name = trimmed(scrubbed(title).0);
    if name.len() == 0 {
        "download"@
    } else {
        name
    }
}

/// Calls `yt_dlp::utils::validation::sanitize_filename`, which its source makes exactly
/// `sanitized_file_name`: drop unsafe characters, collapse dot pairs, trim, and fall
/// back to `download`.
#[verifier::external_body]
fn sanitize_filename(title: &str) -> (r: String)
    ensures
        r@ == sanitized_file_name(title@),
{
    yt_dlp::utils::validation::sanitize_filename(title)
}

proof fn lemma_scrubbed_is_safe(s: Seq<char>)
    ensures
        forall|i: int|
            0 <= i < scrubbed(s).0.len() ==> !is_unsafe_in_name(#[trigger] scrubbed(s).0[i]),
        scrubbed(s).1 ==> scrubbed(s).0.len() > 0 && scrubbed(s).0.last() == '.',
    decreases s.len(),
{
    if s.len() > 0 {
        lemma_scrubbed_is_safe(s.drop_last());
        let kept = scrubbed(s.drop_last()).0;
        let c = s.last();
        if !is_unsafe_in_name(c) && !(c == '.' && scrubbed(s.drop_last()).1) {
            assert forall|i: int| 0 <= i < kept.push(c).len() implies !is_unsafe_in_name(
                #[trigger] kept.push(c)[i],
            ) by {
                if i < kept.len() {
                    assert(kept.push(c)[i] == kept[i]);
                }
            }
        } else if !is_unsafe_in_name(c) {
            assert forall|i: int| 0 <= i < kept.drop_last().len() implies !is_unsafe_in_name(
                #[trigger] kept.drop_last()[i],
            ) by {
                assert(kept.drop_last()[i] == kept[i]);
            }
        }
    }
}

proof fn lemma_trimmed_keeps_safe(s: Seq<char>)
    requires
        forall|i: int| 0 <= i < s.len() ==> !is_unsafe_in_name(#[trigger] s[i]),
    ensures
        forall|i: int| 0 <= i < trimmed(s).len() ==> !is_unsafe_in_name(#[trigger] trimmed(s)[i]),
    decreases s.len(),
{
    if s.len() > 0 && is_white_space(s[0]) {
        let t = s.drop_first();
        assert forall|i: int| 0 <= i < t.len() implies !is_unsafe_in_name(#[trigger] t[i]) by {
            assert(t[i] == s[i + 1]);
        }
        lemma_trimmed_keeps_safe(t);
        assert(trimmed(s) == trimmed(t));
    } else if s.len() > 0 && is_white_space(s.last()) {
        let t = s.drop_last();
        assert forall|i: int| 0 <= i < t.len() implies !is_unsafe_in_name(#[trigger] t[i]) by {
            assert(t[i] == s[i]);
        }
        lemma_trimmed_keeps_safe(t);
        assert(trimmed(s) == trimmed(t));
    } else {
        assert(trimmed(s) == s);
    }
}

/// A sanitized name is never empty and holds no unsafe character, so it is a single
/// file name with no path separator in it.
pub proof fn sanitized_name_is_safe(title: Seq<char>)
    ensures
        sanitized_file_name(title).len() > 0,
        forall|i: int|
            0 <= i < sanitized_file_name(title).len() ==> !is_unsafe_in_name(
                #[trigger] sanitized_file_name(title)[i],
            ),
{
    lemma_scrubbed_is_safe(title);
    lemma_trimmed_keeps_safe(scrubbed(title).0);
    reveal_strlit("download");
    if trimmed(scrubbed(title).0).len() == 0 {
        let d = "download"@;
        assert forall|i: int| 0 <= i < d.len() implies !is_unsafe_in_name(#[trigger] d[i]) by {}
    }
}

/// What is to be downloaded for one video: the name its files are saved under and
/// its formats by group.
pub struct DownloadJob<'a> {
    pub file_title: String,
    pub groups: FormatGroups<'a>,
}

/// Prepares the download of a video from its title and formats: the title made safe
/// for a file name, and the formats sorted into groups.
pub fn prepare_job<'a>(title: &str, formats: &'a [MediaFormat]) -> (j: DownloadJob<'a>)
    ensures
        j.file_title@ == sanitized_file_name(title@),
        derefs(j.groups.audio@) == formats_of_kind(formats@, FormatKind::Audio),
        derefs(j.groups.progressive@) == formats_of_kind(formats@, FormatKind::AudioVideo),
        derefs(j.groups.video_only@) == formats_of_kind(formats@, FormatKind::Video),
{
    let file_title = sanitize_filename(title);
    let groups = classify_formats(formats);
    DownloadJob { file_title, groups }
}

/// The name a file downloaded in format `f` gets: the title, a dot and the extension.
pub open spec fn file_name_for(title: Seq<char>, f: MediaFormat, default_ext: Seq<char>) -> Seq<
    char,
> {
    title + "."@ + extension_for(f, default_ext)
}

/// The file name a download of `format` is saved under.
pub fn destination_file_name(title: &str, format: &MediaFormat, default_ext: &str) -> (r: String)
    ensures
        r@ == file_name_for(title@, *format, default_ext@),
{
    let with_dot = join_text(title, ".");
    join_text(with_dot.as_str(), format_extension(format, default_ext))
}

/// The name of the merged file of a video whose streams are downloaded separately.
pub fn merged_file_name(title: &str) -> (r: String)
    ensures
        r@ == title@ + ".mp4"@,
{
    join_text(title, ".mp4")
}

/// The temporary file a separate video stream is downloaded to.
pub fn video_stream_file_name() -> (r: &'static str)
    ensures
        r@ == "video_stream.mp4"@,
{
    "video_stream.mp4"
}

/// The temporary file a separate audio stream is downloaded to.
pub fn audio_stream_file_name() -> (r: &'static str)
    ensures
        r@ == "audio_stream.m4a"@,
{
    "audio_stream.m4a"
}

/// The formats to try for one file, best first, with the extension used when a format
/// reports none and the least size a good file has.
pub struct DownloadPlan<'a> {
    pub candidates: Vec<&'a MediaFormat>,
    pub default_ext: &'static str,
    pub min_size: u64,
}

/// A ranking keeps every item: it has as many as its input.
pub proof fn lemma_ranked_len(input: Seq<&MediaFormat>, keys: Seq<(u64, u64)>, output: Seq<&MediaFormat>)
    requires
        keys.len() == input.len(),
        is_ranked(input, keys, output),
    ensures
        output.len() == input.len(),
{
    let order = choose|order: Seq<usize>|
        is_stable_desc_order(keys, order) && output.len() == order.len() && forall|i: int|
            0 <= i < order.len() ==> output[i] == input[order[i] as int];
}

/// There are audio candidates exactly when there are audio formats.
pub proof fn lemma_audio_candidates_nonempty(formats: Seq<&MediaFormat>)
    ensures
        (audio_candidates(formats).len() > 0) == (formats.len() > 0),
{
}

/// `plan` tries the ranked audio formats, saved as `.m4a` when a format reports no
/// extension, with the audio size threshold.
pub open spec fn is_audio_plan(audio: Seq<&MediaFormat>, plan: DownloadPlan) -> bool {
    &&& is_ranked(
        audio_candidates(audio),
        audio_candidates(audio).map_values(|f: &MediaFormat| audio_key(*f)),
        plan.candidates@,
    )
    &&& plan.default_ext@ == "m4a"@
    &&& plan.min_size == MIN_VALID_AUDIO_BYTES
}

/// `plan` tries the ranked video formats, saved as `.mp4` when a format reports no
/// extension, with the video size threshold.
pub open spec fn is_video_plan(video: Seq<&MediaFormat>, plan: DownloadPlan) -> bool {
    &&& is_ranked(video, video.map_values(|f: &MediaFormat| video_key(*f)), plan.candidates@)
    &&& plan.default_ext@ == "mp4"@
    &&& plan.min_size == MIN_VALID_VIDEO_BYTES
}

fn audio_plan<'a>(audio_formats: &[&'a MediaFormat]) -> (p: DownloadPlan<'a>)
    ensures
        is_audio_plan(audio_formats@, p),
        p.candidates@.len() == audio_candidates(audio_formats@).len(),
{
    let candidates = rank_audio_formats(audio_formats);
    proof {
        lemma_ranked_len(
            audio_candidates(audio_formats@),
            audio_candidates(audio_formats@).map_values(|f: &MediaFormat| audio_key(*f)),
            candidates@,
        );
    }
    DownloadPlan { candidates, default_ext: "m4a", min_size: MIN_VALID_AUDIO_BYTES }
}

fn video_plan<'a>(video_formats: &[&'a MediaFormat]) -> (p: DownloadPlan<'a>)
    ensures
        is_video_plan(video_formats@, p),
        p.candidates@.len() == video_formats@.len(),
{
    let candidates = rank_video_formats(video_formats);
    proof {
        lemma_ranked_len(
            video_formats@,
            video_formats@.map_values(|f: &MediaFormat| video_key(*f)),
            candidates@,
        );
    }
    DownloadPlan { candidates, default_ext: "mp4", min_size: MIN_VALID_VIDEO_BYTES }
}

/// What an audio-only download fetches.
pub enum AudioOnlyPlan<'a> {
    /// The separate audio tracks.
    AudioTracks(DownloadPlan<'a>),
    /// The best combined (progressive) files, when there is no separate audio track.
    CombinedFile(DownloadPlan<'a>),
}

/// Plans an audio-only download: the separate audio tracks when there are any, else the
/// best combined (progressive) files; an error when there is neither.
pub fn plan_audio_only<'a>(
    audio_formats: &[&'a MediaFormat],
    progressive_formats: &[&'a MediaFormat],
) -> (r: Result<AudioOnlyPlan<'a>, PlanError>)
    ensures
        audio_formats@.len() > 0 ==> (r matches Ok(AudioOnlyPlan::AudioTracks(p))
            && is_audio_plan(audio_formats@, p)),
        audio_formats@.len() == 0 && progressive_formats@.len() > 0 ==> (r matches Ok(
            AudioOnlyPlan::CombinedFile(p),
        ) && is_video_plan(progressive_formats@, p)),
        audio_formats@.len() == 0 && progressive_formats@.len() == 0 ==> (r matches Err(e) && e
            == PlanError::NoAudioTrack),
{
    let audio = audio_plan(audio_formats);
    proof {
        lemma_audio_candidates_nonempty(audio_formats@);
    }
    if audio.candidates.len() > 0 {
        return Ok(AudioOnlyPlan::AudioTracks(audio));
    }
    let progressive = video_plan(progressive_formats);
    if progressive.candidates.len() > 0 {
        return Ok(AudioOnlyPlan::CombinedFile(progressive));
    }
    Err(PlanError::NoAudioTrack)
}

/// A format that shows a picture: it has a width and a height above 0.
pub open spec fn is_watchable(f: MediaFormat) -> bool {
    &&& f.height matches Some(h) && h > 0
    &&& f.width is Some
}

/// The formats worth offering for a resolution choice: the progressive formats, then the
/// video-only ones, keeping those that show a picture.
pub open spec fn watchable_of<'a>(
    progressive: Seq<&'a MediaFormat>,
    video_only: Seq<&'a MediaFormat>,
) -> Seq<&'a MediaFormat> {
    (progressive + video_only).filter(|f: &MediaFormat| is_watchable(*f))
}

fn shows_picture(f: &MediaFormat) -> (b: bool)
    ensures
        b == is_watchable(*f),
{
    match f.height {
        Some(h) => h > 0 && f.width.is_some(),
        None => false,
    }
}

fn append_watchable<'a>(r: &mut Vec<&'a MediaFormat>, formats: &[&'a MediaFormat])
    ensures
        final(r)@ == old(r)@ + formats@.filter(|f: &MediaFormat| is_watchable(*f)),
{
    let ghost start = r@;
    let ghost pred = |f: &MediaFormat| is_watchable(*f);
    let mut i: usize = 0;
    while i < formats.len()
        invariant
            i <= formats@.len(),
            pred == (|f: &MediaFormat| is_watchable(*f)),
            r@ == start + formats@.take(i as int).filter(pred),
        decreases formats@.len() - i,
    {
        let f = formats[i];
        proof {
            reveal_with_fuel(Seq::filter, 1);
            assert(formats@.take(i + 1).drop_last() =~= formats@.take(i as int));
        }
        if shows_picture(f) {
            r.push(f);
            assert(r@ =~= start + formats@.take(i + 1).filter(pred));
        } else {
            assert(r@ =~= start + formats@.take(i + 1).filter(pred));
        }
        i = i + 1;
    }
    assert(formats@.take(formats@.len() as int) =~= formats@);
}

/// The formats of both groups that carry a picture, for the resolution choice.
pub fn watchable_formats<'a>(
    progressive_formats: &[&'a MediaFormat],
    video_only_formats: &[&'a MediaFormat],
) -> (r: Vec<&'a MediaFormat>)
    ensures
        r@ == watchable_of(progressive_formats@, video_only_formats@),
{
    let mut r: Vec<&'a MediaFormat> = Vec::new();
    append_watchable(&mut r, progressive_formats);
    append_watchable(&mut r, video_only_formats);
    proof {
        Seq::filter_distributes_over_add(
            progressive_formats@,
            video_only_formats@,
            |f: &MediaFormat| is_watchable(*f),
        );
    }
    assert(r@ =~= watchable_of(progressive_formats@, video_only_formats@));
    r
}

/// The resolutions to offer for the choice, highest first; an error when there is none.
pub fn offer_resolutions(watchable: &Vec<&MediaFormat>) -> (r: Result<Vec<u32>, PlanError>)
    ensures
        match r {
            Ok(res) => res@.len() > 0 && (forall|i: int, j: int|
                0 <= i < j < res@.len() ==> res@[i] > res@[j]) && (forall|h: u32|
                res@.contains(h) <==> offers_height(watchable@, h)) && (forall|i: int|
                0 <= i < watchable@.len() && (#[trigger] watchable@[i].height) is Some
                    && watchable@[i].height->0 > 0 ==> res@.contains(watchable@[i].height->0)),
            Err(e) => e == PlanError::NoVideoFormats && (forall|h: u32|
                !offers_height(watchable@, h)) && (forall|i: int|
                0 <= i < watchable@.len() ==> !((#[trigger] watchable@[i].height) is Some
                    && watchable@[i].height->0 > 0)),
        },
{
    let res = available_resolutions(watchable);
    if res.len() == 0 {
        assert forall|h: u32| !offers_height(watchable@, h) by {
            assert(!res@.contains(h));
        }
        assert forall|i: int| 0 <= i < watchable@.len() implies !((
        #[trigger] watchable@[i].height) is Some && watchable@[i].height->0 > 0) by {
            if watchable@[i].height is Some && watchable@[i].height->0 > 0 {
                assert(res@.contains(watchable@[i].height->0));
            }
        }
        Err(PlanError::NoVideoFormats)
    } else {
        Ok(res)
    }
}

/// The resolution picked by a menu choice: entry `c` (counted from 1) of `resolutions`.
pub fn select_resolution(resolutions: &Vec<u32>, choice: Option<usize>) -> (r: Result<
    u32,
    PlanError,
>)
    ensures
        match choice {
            Some(c) => if 1 <= c <= resolutions@.len() {
                r == Ok::<u32, PlanError>(resolutions@[c - 1])
            } else {
                r == Err::<u32, PlanError>(PlanError::InvalidChoice)
            },
            None => r == Err::<u32, PlanError>(PlanError::InvalidChoice),
        },
{
    match choice {
        Some(c) => {
            if 1 <= c && c <= resolutions.len() {
                Ok(resolutions[c - 1])
            } else {
                Err(PlanError::InvalidChoice)
            }
        },
        None => Err(PlanError::InvalidChoice),
    }
}

/// The menu line offering a resolution: its number, a dot, and the height with a `p`.
pub open spec fn menu_line(number: nat, height: nat) -> Seq<char> {
    decimal(number) + ". "@ + decimal(height) + "p"@
}

/// The lines of the resolution menu, numbered from 1.
pub fn resolution_menu(resolutions: &Vec<u32>) -> (r: Vec<String>)
    ensures
        r@.len() == resolutions@.len(),
        forall|i: int|
            0 <= i < r@.len() ==> (#[trigger] r@[i])@ == menu_line(
                (i + 1) as nat,
                resolutions@[i] as nat,
            ),
{
    let mut r: Vec<String> = Vec::new();
    let mut i: usize = 0;
    while i < resolutions.len()
        invariant
            i <= resolutions@.len(),
            r@.len() == i,
            forall|k: int|
                0 <= k < i ==> (#[trigger] r@[k])@ == menu_line(
                    (k + 1) as nat,
                    resolutions@[k] as nat,
                ),
        decreases resolutions@.len() - i,
    {
        let number = decimal_string((i + 1) as u64);
        let height = decimal_string(resolutions[i] as u64);
        let a = join_text(number.as_str(), ". ");
        let b = join_text(a.as_str(), height.as_str());
        let line = join_text(b.as_str(), "p");
        r.push(line);
        i = i + 1;
    }
    r
}

/// The formats of `watchable` at height `h`, in order.
pub open spec fn at_height(watchable: Seq<&MediaFormat>, h: u32) -> Seq<&MediaFormat> {
    watchable.filter(|f: &MediaFormat| f.height == Some(h))
}

/// The formats of `formats` of kind `k`, in order.
pub open spec fn of_kind(formats: Seq<&MediaFormat>, k: FormatKind) -> Seq<&MediaFormat> {
    formats.filter(|f: &MediaFormat| kind_of(*f) == k)
}

fn filter_height<'a>(formats: &[&'a MediaFormat], h: u32) -> (r: Vec<&'a MediaFormat>)
    ensures
        r@ == at_height(formats@, h),
{
    let ghost pred = |f: &MediaFormat| f.height == Some(h);
    let mut r: Vec<&'a MediaFormat> = Vec::new();
    let mut i: usize = 0;
    while i < formats.len()
        invariant
            i <= formats@.len(),
            pred == (|f: &MediaFormat| f.height == Some(h)),
            r@ == formats@.take(i as int).filter(pred),
        decreases formats@.len() - i,
    {
        let f = formats[i];
        proof {
            reveal_with_fuel(Seq::filter, 1);
            assert(formats@.take(i + 1).drop_last() =~= formats@.take(i as int));
        }
        if f.height == Some(h) {
            r.push(f);
        }
        i = i + 1;
    }
    assert(formats@.take(formats@.len() as int) =~= formats@);
    r
}

fn filter_kind<'a>(formats: &[&'a MediaFormat], k: FormatKind) -> (r: Vec<&'a MediaFormat>)
    ensures
        r@ == of_kind(formats@, k),
{
    let ghost pred = |f: &MediaFormat| kind_of(*f) == k;
    let mut r: Vec<&'a MediaFormat> = Vec::new();
    let mut i: usize = 0;
    while i < formats.len()
        invariant
            i <= formats@.len(),
            pred == (|f: &MediaFormat| kind_of(*f) == k),
            r@ == formats@.take(i as int).filter(pred),
        decreases formats@.len() - i,
    {
        let f = formats[i];
        proof {
            reveal_with_fuel(Seq::filter, 1);
            assert(formats@.take(i + 1).drop_last() =~= formats@.take(i as int));
        }
        if f.format_type() == k {
            r.push(f);
        }
        i = i + 1;
    }
    assert(formats@.take(formats@.len() as int) =~= formats@);
    r
}

/// How a video at the chosen resolution is downloaded: one combined file, or a video
/// stream and an audio stream that are merged afterwards.
pub enum VideoPlan<'a> {
    Single(DownloadPlan<'a>),
    Merge { video: DownloadPlan<'a>, audio: DownloadPlan<'a> },
}

/// Plans the download of a video at height `h`: the progressive formats at that height
/// when there are any (no merge needed), else the video-only formats at that height
/// together with the audio formats; an error when either of those is missing.
pub fn plan_video_download<'a>(
    watchable: &[&'a MediaFormat],
    h: u32,
    audio_formats: &[&'a MediaFormat],
) -> (r: Result<VideoPlan<'a>, PlanError>)
    ensures
        ({
            let here = at_height(watchable@, h);
            let progressive = of_kind(here, FormatKind::AudioVideo);
            let video_only = of_kind(here, FormatKind::Video);
            &&& progressive.len() > 0 ==> (r matches Ok(VideoPlan::Single(p)) && is_video_plan(
                progressive,
                p,
            ))
            &&& progressive.len() == 0 && video_only.len() > 0 && audio_formats@.len() > 0 ==> (
            r matches Ok(VideoPlan::Merge { video, audio }) && is_video_plan(video_only, video)
                && is_audio_plan(audio_formats@, audio))
            &&& progressive.len() == 0 && video_only.len() == 0 ==> (r matches Err(e) && e
                == PlanError::NoVideoFormat)
            &&& progressive.len() == 0 && video_only.len() > 0 && audio_formats@.len() == 0 ==> (
            r matches Err(e) && e == PlanError::NoAudioTrack)
        }),
{
    let here = filter_height(watchable, h);
    let progressive = filter_kind(here.as_slice(), FormatKind::AudioVideo);
    let single = video_plan(progressive.as_slice());
    if single.candidates.len() > 0 {
        return Ok(VideoPlan::Single(single));
    }
    let video_only = filter_kind(here.as_slice(), FormatKind::Video);
    let video = video_plan(video_only.as_slice());
    if video.candidates.len() == 0 {
        return Err(PlanError::NoVideoFormat);
    }
    let audio = audio_plan(audio_formats);
    proof {
        lemma_audio_candidates_nonempty(audio_formats@);
    }
    if audio.candidates.len() == 0 {
        return Err(PlanError::NoAudioTrack);
    }
    Ok(VideoPlan::Merge { video, audio })
}

/// How a download of one candidate ended, as observed after waiting for it.
pub enum DownloadOutcome {
    /// It completed; the size of the saved file, or why it could not be read.
    Completed { file_size: Result<u64, String> },
    /// It failed, for the given reason.
    Failed { reason: String },
    /// It was canceled.
    Canceled,
    /// It ended in no final state; the state it was left in, as text.
    Unfinished { state: String },
}

/// What to do after a download of one candidate.
pub enum Assessment {
    /// Keep the file: the download is good.
    Accept,
    /// Move on to the next candidate, telling the user `notice` (if any), remembering
    /// `error`, and deleting the saved file first when `discard_file` is set.
    Retry { notice: Option<String>, error: String, discard_file: bool },
}

/// The verdict on a download of format `id` against the least good size `min_size`:
/// a completed file at least that large is kept; a smaller one is discarded; any other
/// ending moves on to the next candidate.
pub open spec fn assessment_fits(
    id: Seq<char>,
    outcome: DownloadOutcome,
    min_size: u64,
    a: Assessment,
) -> bool {
    match outcome {
        DownloadOutcome::Completed { file_size: Ok(size) } => if size >= min_size {
            a is Accept
        } else {
            a matches Assessment::Retry { notice: Some(n), error, discard_file } && discard_file
                && n@ == "Format "@ + id + " downloaded but looks invalid ("@ + decimal(
                size as nat,
            ) + " bytes) - likely throtteled or restricted by yt, trying next option..."@
                && error@ == "format "@ + id + " produced an invalid file"@
        },
        DownloadOutcome::Completed { file_size: Err(why) } => a matches Assessment::Retry {
            notice: None,
            error,
            discard_file,
        } && !discard_file && error@ == why@,
        DownloadOutcome::Failed { reason } => a matches Assessment::Retry {
            notice: Some(n),
            error,
            discard_file,
        } && !discard_file && n@ == "Format "@ + id + " failed to download ("@ + reason@
            + "), trying next option..."@ && error@ == reason@,
        DownloadOutcome::Canceled => a matches Assessment::Retry {
            notice: Some(n),
            error,
            discard_file,
        } && !discard_file && n@ == "Format "@ + id + " download was canceled, trying next option..."@
            && error@ == "format "@ + id + " download was canceled"@,
        DownloadOutcome::Unfinished { state } => a matches Assessment::Retry {
            notice: Some(n),
            error,
            discard_file,
        } && !discard_file && n@ == "Format "@ + id + " ended in an unexpected state ("@ + state@
            + "), trying next option..."@ && error@ == "format "@ + id
            + " ended in an unexpected state"@,
    }
}

fn join3(a: &str, b: &str, c: &str) -> (r: String)
    ensures
        r@ == a@ + b@ + c@,
{
    let ab = join_text(a, b);
    join_text(ab.as_str(), c)
}

/// Judges a finished download of format `format_id`.
pub fn assess_download(format_id: &str, outcome: &DownloadOutcome, min_size: u64) -> (a:
    Assessment)
    ensures
        assessment_fits(format_id@, *outcome, min_size, a),
        outcome matches DownloadOutcome::Completed { file_size: Ok(size) } ==> (a is Accept
            <==> size >= min_size),
        outcome matches DownloadOutcome::Completed { file_size: Ok(size) } && size < min_size
            ==> a matches Assessment::Retry { discard_file: true, .. },
        !(outcome matches DownloadOutcome::Completed { file_size: Ok(_) }) ==> a matches Assessment::Retry {
            discard_file: false,
            ..
        },
{
    match outcome {
        DownloadOutcome::Completed { file_size: Ok(size) } => {
            if *size >= min_size {
                Assessment::Accept
            } else {
                let head = join3("Format ", format_id, " downloaded but looks invalid (");
                let bytes = decimal_string(*size);
                let notice = join3(
                    head.as_str(),
                    bytes.as_str(),
                    " bytes) - likely throtteled or restricted by yt, trying next option...",
                );
                let error = join3("format ", format_id, " produced an invalid file");
                Assessment::Retry { notice: Some(notice), error, discard_file: true }
            }
        },
        DownloadOutcome::Completed { file_size: Err(why) } => {
            Assessment::Retry { notice: None, error: why.clone(), discard_file: false }
        },
        DownloadOutcome::Failed { reason } => {
            let head = join3("Format ", format_id, " failed to download (");
            let notice = join3(head.as_str(), reason.as_str(), "), trying next option...");
            Assessment::Retry { notice: Some(notice), error: reason.clone(), discard_file: false }
        },
        DownloadOutcome::Canceled => {
            let notice = join3(
                "Format ",
                format_id,
                " download was canceled, trying next option...",
            );
            let error = join3("format ", format_id, " download was canceled");
            Assessment::Retry { notice: Some(notice), error, discard_file: false }
        },
        DownloadOutcome::Unfinished { state } => {
            let head = join3("Format ", format_id, " ended in an unexpected state (");
            let notice = join3(head.as_str(), state.as_str(), "), trying next option...");
            let error = join3("format ", format_id, " ended in an unexpected state");
            Assessment::Retry { notice: Some(notice), error, discard_file: false }
        },
    }
}

/// The error reported when no candidate gave a good file: the last error met, or a
/// generic message when there was none (no candidates).
pub fn give_up_error(last_error: Option<String>) -> (r: String)
    ensures
        match last_error {
            Some(e) => r@ == e@,
            None => r@ == "No working format found"@,
        },
{
    match last_error {
        Some(e) => e,
        None => String::from_str("No working format found"),
    }
}

/// Where the trying of a plan's candidates stands: the position of the next candidate
/// to try, and the error of the last one that did not give a good file.
pub struct Attempts {
    pub next: usize,
    pub last_error: Option<String>,
}

/// What to do next with a plan's candidates.
pub enum AttemptStep {
    /// Download the candidate at this position.
    Try(usize),
    /// No candidate is left: report this error.
    GiveUp(String),
}

/// The start of the trying: the best candidate comes first, and nothing failed yet.
pub fn start_attempts() -> (a: Attempts)
    ensures
        a.next == 0,
        a.last_error is None,
{
    Attempts { next: 0, last_error: None }
}

/// The next step among `count` candidates: try the next one while any is left, else
/// give up with the last error met (or a generic message when there was none).
pub fn next_attempt(a: &Attempts, count: usize) -> (s: AttemptStep)
    ensures
        a.next < count ==> s == AttemptStep::Try(a.next),
        a.next >= count ==> (s matches AttemptStep::GiveUp(e) && match a.last_error {
            Some(last) => e@ == last@,
            None => e@ == "No working format found"@,
        }),
{
    if a.next < count {
        AttemptStep::Try(a.next)
    } else {
        let last: Option<String> = match &a.last_error {
            Some(e) => Some(e.clone()),
            None => None,
        };
        AttemptStep::GiveUp(give_up_error(last))
    }
}

/// The trying after the candidate at `a.next` was downloaded and judged: a good file
/// ends it with that position; otherwise the following candidate is next, and the error
/// is remembered.
pub fn after_download(a: Attempts, verdict: Assessment) -> (r: Result<usize, Attempts>)
    requires
        a.next < usize::MAX,
    ensures
        verdict is Accept ==> r == Ok::<usize, Attempts>(a.next),
        verdict matches Assessment::Retry { error, .. } ==> (r matches Err(b) && b.next == a.next
            + 1 && b.last_error == Some(error)),
{
    match verdict {
        Assessment::Accept => Ok(a.next),
        Assessment::Retry { error, .. } => Err(Attempts { next: a.next + 1, last_error: Some(error) }),
    }
}

} // verus!
