//! Properties that tie the functions of the library together.
use vstd::prelude::*;
use crate::format::{
    FormatKind, MediaFormat, audio_candidates, audio_key, has_original_note, is_ranked,
    is_stable_desc_order, key_ge, kind_of, offers_height, video_key,
};
use crate::plan::{
    Assessment, DownloadOutcome, assessment_fits, at_height, derefs, direct_of_kind, formats_of_kind, is_watchable, of_kind, watchable_of,
};

verus! {

/// In a ranking of video formats the first format is at least as good as every format
/// ranked: the download tries the best one first.
pub proof fn best_video_first(formats: Seq<&MediaFormat>, ranked: Seq<&MediaFormat>)
    requires
        is_ranked(formats, formats.map_values(|f: &MediaFormat| video_key(*f)), ranked),
        ranked.len() > 0,
    ensures
        forall|i: int|
            0 <= i < formats.len() ==> key_ge(video_key(*ranked[0]), video_key(*#[trigger] formats[i])),
{
    let keys = formats.map_values(|f: &MediaFormat| video_key(*f));
    let order = choose|order: Seq<usize>|
        is_stable_desc_order(keys, order) && ranked.len() == order.len() && forall|i: int|
            0 <= i < order.len() ==> ranked[i] == formats[order[i] as int];
    assert forall|i: int| 0 <= i < formats.len() implies key_ge(
        video_key(*ranked[0]),
        video_key(*#[trigger] formats[i]),
    ) by {
        assert(order.contains(i as usize));
        let t = choose|t: int| 0 <= t < order.len() && order[t] == i as usize;
        assert(ranked[0] == formats[order[0] as int]);
        assert(keys[i] == video_key(*formats[i]));
        assert(keys[order[0] as int] == video_key(*formats[order[0] as int]));
        if t > 0 {
            assert(key_ge(keys[order[0] as int], keys[order[t] as int]));
        }
    }
}

/// In a ranking of audio formats the first format is at least as good as every candidate
/// ranked.
pub proof fn best_audio_first(formats: Seq<&MediaFormat>, ranked: Seq<&MediaFormat>)
    requires
        is_ranked(
            audio_candidates(formats),
            audio_candidates(formats).map_values(|f: &MediaFormat| audio_key(*f)),
            ranked,
        ),
        ranked.len() > 0,
    ensures
        forall|i: int|
            0 <= i < audio_candidates(formats).len() ==> key_ge(
                audio_key(*ranked[0]),
                audio_key(*#[trigger] audio_candidates(formats)[i]),
            ),
{
    let cands = audio_candidates(formats);
    let keys = cands.map_values(|f: &MediaFormat| audio_key(*f));
    let order = choose|order: Seq<usize>|
        is_stable_desc_order(keys, order) && ranked.len() == order.len() && forall|i: int|
            0 <= i < order.len() ==> ranked[i] == cands[order[i] as int];
    assert forall|i: int| 0 <= i < cands.len() implies key_ge(
        audio_key(*ranked[0]),
        audio_key(*#[trigger] cands[i]),
    ) by {
        assert(order.contains(i as usize));
        let t = choose|t: int| 0 <= t < order.len() && order[t] == i as usize;
        assert(ranked[0] == cands[order[0] as int]);
        assert(keys[i] == audio_key(*cands[i]));
        assert(keys[order[0] as int] == audio_key(*cands[order[0] as int]));
        if t > 0 {
            assert(key_ge(keys[order[0] as int], keys[order[t] as int]));
        }
    }
}

/// When some audio format is marked original, every audio candidate tried is marked
/// original.
pub proof fn originals_preferred(formats: Seq<&MediaFormat>, ranked: Seq<&MediaFormat>)
    requires
        is_ranked(
            audio_candidates(formats),
            audio_candidates(formats).map_values(|f: &MediaFormat| audio_key(*f)),
            ranked,
        ),
        exists|i: int| 0 <= i < formats.len() && has_original_note(*#[trigger] formats[i]),
    ensures
        forall|j: int| 0 <= j < ranked.len() ==> has_original_note(*#[trigger] ranked[j]),
{
    let pred = |f: &MediaFormat| has_original_note(*f);
    let originals = formats.filter(pred);
    let i = choose|i: int| 0 <= i < formats.len() && has_original_note(*formats[i]);
    formats.lemma_filter_contains(pred, i);
    assert(originals.len() > 0);
    let cands = audio_candidates(formats);
    assert(cands == originals);
    let keys = cands.map_values(|f: &MediaFormat| audio_key(*f));
    let order = choose|order: Seq<usize>|
        is_stable_desc_order(keys, order) && ranked.len() == order.len() && forall|i: int|
            0 <= i < order.len() ==> ranked[i] == cands[order[i] as int];
    assert forall|j: int| 0 <= j < ranked.len() implies has_original_note(
        *#[trigger] ranked[j],
    ) by {
        assert(ranked[j] == cands[order[j] as int]);
        formats.lemma_filter_pred(pred, order[j] as int);
    }
}

/// For the groups that classification gives, every resolution listed for the choice has
/// a format to download at that height, so planning a video at a listed resolution never
/// ends in "Could not find video format".
pub proof fn listed_resolution_has_format(
    formats: Seq<MediaFormat>,
    progressive: Seq<&MediaFormat>,
    video_only: Seq<&MediaFormat>,
    h: u32,
)
    requires
        derefs(progressive) == formats_of_kind(formats, FormatKind::AudioVideo),
        derefs(video_only) == formats_of_kind(formats, FormatKind::Video),
        offers_height(watchable_of(progressive, video_only), h),
    ensures
        of_kind(at_height(watchable_of(progressive, video_only), h), FormatKind::AudioVideo).len()
            > 0 || of_kind(at_height(watchable_of(progressive, video_only), h), FormatKind::Video).len()
            > 0,
{
    let w = watchable_of(progressive, video_only);
    let t = choose|t: int| 0 <= t < w.len() && w[t].height == Some(h);
    let f = w[t];
    let both = progressive + video_only;
    let wpred = |g: &MediaFormat| is_watchable(*g);
    assert(w.contains(f));
    both.lemma_filter_contains_rev(wpred, f);
    let u = choose|u: int| 0 <= u < both.len() && both[u] == f;
    let k = kind_of(*f);
    if u < progressive.len() {
        assert(progressive[u] == f);
        assert(derefs(progressive)[u] == *f);
        let apred = |g: MediaFormat| direct_of_kind(g, FormatKind::AudioVideo);
        formats.lemma_filter_pred(apred, u);
        assert(k == FormatKind::AudioVideo);
    } else {
        assert(video_only[u - progressive.len()] == f);
        assert(derefs(video_only)[u - progressive.len()] == *f);
        let vpred = |g: MediaFormat| direct_of_kind(g, FormatKind::Video);
        formats.lemma_filter_pred(vpred, u - progressive.len());
        assert(k == FormatKind::Video);
    }
    let hpred = |g: &MediaFormat| g.height == Some(h);
    w.lemma_filter_contains(hpred, t);
    let here = at_height(w, h);
    assert(here.contains(f));
    let s = choose|s: int| 0 <= s < here.len() && here[s] == f;
    let kpred = |g: &MediaFormat| kind_of(*g) == k;
    here.lemma_filter_contains(kpred, s);
    assert(of_kind(here, k).contains(f));
}

/// Every real height of a format counts as offered, whatever the format's width: a
/// format with height `h > 0` (a portrait one among them) puts `h` among the resolutions
/// listed for the choice.
pub proof fn every_real_height_is_offered(formats: Seq<&MediaFormat>, i: int)
    requires
        0 <= i < formats.len(),
        formats[i].height is Some,
        formats[i].height->0 > 0,
    ensures
        offers_height(formats, formats[i].height->0),
{
}

/// A completed download is kept exactly when its file holds at least `min_size` bytes;
/// a smaller file is never kept: it is discarded and the next candidate is tried,
/// whatever other size limits the library knows.
pub proof fn small_files_are_never_kept(id: Seq<char>, size: u64, min_size: u64, a: Assessment)
    requires
        assessment_fits(id, DownloadOutcome::Completed { file_size: Ok(size) }, min_size, a),
    ensures
        size >= min_size ==> a is Accept,
        size < min_size ==> a matches Assessment::Retry { discard_file: true, .. },
{
}

} // verus!
