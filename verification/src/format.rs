//! The media formats that a video offers, as plain values: their kind,
//! file extension, ranking for download and the resolutions they cover.
use vstd::prelude::*;
use vstd::string::*;
use crate::text::{contains, contains_piece, same_text, to_lowercase, unicode_lowercase};

verus! {

/// What a format carries: audio, video, both, or something not directly playable.
#[derive(Debug, Clone, Copy, PartialEq, Eq, Structural)]
pub enum FormatKind {
    Audio,
    Video,
    AudioVideo,
    Manifest,
    Storyboard,
    Unknown,
}

/// One format of a video, holding what the download logic reads of it.
///
/// The three keys stand for the format's quality, audio bit rate and total bit rate
/// (each taken as 0 when absent): they order the formats as those numbers do, a larger
/// key for a larger number, equal keys for equal numbers.
pub struct MediaFormat {
    /// The position of the format in the list the video came with.
    pub source: usize,
    pub format_id: String,
    pub format_note: Option<String>,
    /// The file extension the format reports (`bin` when unknown).
    pub ext: String,
    pub has_manifest_url: bool,
    pub has_storyboard_fragments: bool,
    pub has_audio_codec: bool,
    pub has_video_codec: bool,
    pub width: Option<u32>,
    pub height: Option<u32>,
    pub resolution: Option<String>,
    pub quality_key: u64,
    pub audio_rate_key: u64,
    pub total_rate_key: u64,
}

/// The kind of a format: a manifest first, then a storyboard, then by which codecs it has.
pub open spec fn kind_of(f: MediaFormat) -> FormatKind {
    if f.has_manifest_url {
        FormatKind::Manifest
    } else if f.has_storyboard_fragments {
        FormatKind::Storyboard
    } else if f.has_audio_codec && f.has_video_codec {
        FormatKind::AudioVideo
    } else if f.has_audio_codec {
        FormatKind::Audio
    } else if f.has_video_codec {
        FormatKind::Video
    } else {
        FormatKind::Unknown
    }
}

impl MediaFormat {
    /// The kind of this format.
    pub fn format_type(&self) -> (k: FormatKind)
        ensures
            k == kind_of(*self),
    {
        if self.has_manifest_url {
            FormatKind::Manifest
        } else if self.has_storyboard_fragments {
            FormatKind::Storyboard
        } else if self.has_audio_codec && self.has_video_codec {
            FormatKind::AudioVideo
        } else if self.has_audio_codec {
            FormatKind::Audio
        } else if self.has_video_codec {
            FormatKind::Video
        } else {
            FormatKind::Unknown
        }
    }
}

/// A format can be downloaded directly only if it is not a manifest or HLS playlist.
pub fn is_direct(format: &MediaFormat) -> (b: bool)
    ensures
        b == !format.has_manifest_url,
{
    !format.has_manifest_url
}

/// The extension a file of this format gets: the reported one, or `default` when the
/// format reports `bin` (unknown).
pub open spec fn extension_for(f: MediaFormat, default: Seq<char>) -> Seq<char> {
    if f.ext@ == "bin"@ {
        default
    } else {
        f.ext@
    }
}

/// The file extension reported by the format, falling back to `default` when unknown.
pub fn format_extension<'a>(format: &'a MediaFormat, default: &'a str) -> (r: &'a str)
    ensures
        r@ == extension_for(*format, default@),
{
    if same_text(format.ext.as_str(), "bin") {
        default
    } else {
        format.ext.as_str()
    }
}

/// `a` comes no later than `b` in a descending order of key pairs.
pub open spec fn key_ge(a: (u64, u64), b: (u64, u64)) -> bool {
    a.0 > b.0 || (a.0 == b.0 && a.1 >= b.1)
}

/// `order` lists the indices of `keys` once each, by descending key, and indices with
/// equal keys in increasing order: what a stable descending sort of `keys` yields.
pub open spec fn is_stable_desc_order(keys: Seq<(u64, u64)>, order: Seq<usize>) -> bool {
    &&& order.len() == keys.len()
    &&& keys.len() <= usize::MAX
    &&& forall|i: int| 0 <= i < order.len() ==> (#[trigger] order[i]) < keys.len()
    &&& forall|i: int, j: int| 0 <= i < j < order.len() ==> order[i] != order[j]
    &&& forall|j: usize| j < keys.len() ==> #[trigger] order.contains(j)
    &&& forall|i: int, j: int|
        0 <= i < j < order.len() ==> key_ge(keys[order[i] as int], keys[order[j] as int])
    &&& forall|i: int, j: int|
        0 <= i < j < order.len() && keys[order[i] as int] == keys[order[j] as int] ==> order[i]
            < order[j]
}

fn pair_ge(a: (u64, u64), b: (u64, u64)) -> (r: bool)
    ensures
        r == key_ge(a, b),
{
    a.0 > b.0 || (a.0 == b.0 && a.1 >= b.1)
}

/// The indices of `keys` in a stable descending order of their keys.
pub fn stable_order_desc(keys: &Vec<(u64, u64)>) -> (order: Vec<usize>)
    ensures
        is_stable_desc_order(keys@, order@),
{
    let n = keys.len();
    let mut order: Vec<usize> = Vec::new();
    let mut k: usize = 0;
    while k < n
        invariant
            n == keys@.len(),
            k <= n,
            is_stable_desc_order(keys@.take(k as int), order@),
        decreases n - k,
    {
        let key = keys[k];
        let mut p: usize = 0;
        while p < order.len() && pair_ge(keys[order[p]], key)
            invariant
                n == keys@.len(),
                k < n,
                key == keys@[k as int],
                is_stable_desc_order(keys@.take(k as int), order@),
                p <= order@.len(),
                forall|q: int| 0 <= q < p ==> key_ge(keys@[#[trigger] order@[q] as int], key),
            decreases order@.len() - p,
        {
            p = p + 1;
        }
        let ghost old_order = order@;
        proof {
            assert forall|q: int| p <= q < old_order.len() implies !key_ge(
                keys@[#[trigger] old_order[q] as int],
                key,
            ) by {
                let kp = keys@.take(k as int);
                assert(p < old_order.len());
                assert(!key_ge(keys@[old_order[p as int] as int], key));
                assert(old_order[p as int] < kp.len());
                assert(old_order[q] < kp.len());
                assert(kp[old_order[p as int] as int] == keys@[old_order[p as int] as int]);
                assert(kp[old_order[q] as int] == keys@[old_order[q] as int]);
                if q > p {
                    assert(key_ge(kp[old_order[p as int] as int], kp[old_order[q] as int]));
                }
            }
        }
        order.insert(p, k);
        proof {
            let ks = keys@.take(k + 1);
            let kp = keys@.take(k as int);
            assert forall|i: int| 0 <= i < old_order.len() implies #[trigger] ks[old_order[i] as int]
                == keys@[old_order[i] as int] && kp[old_order[i] as int] == keys@[old_order[
                i] as int] by {}
            assert(ks[k as int] == key);
            assert forall|i: int| 0 <= i < order@.len() implies (#[trigger] order@[i]) < ks.len() by {
                if i < p {
                    assert(order@[i] == old_order[i]);
                } else if i > p {
                    assert(order@[i] == old_order[i - 1]);
                }
            }
            assert forall|j: usize| j < ks.len() implies #[trigger] order@.contains(j) by {
                if j == k {
                    assert(order@[p as int] == k);
                } else {
                    assert(old_order.contains(j));
                    let q = choose|q: int| 0 <= q < old_order.len() && old_order[q] == j;
                    if q < p {
                        assert(order@[q] == j);
                    } else {
                        assert(order@[q + 1] == j);
                    }
                }
            }
            assert forall|i: int, j: int| 0 <= i < j < order@.len() implies order@[i] != order@[j]
                && key_ge(ks[order@[i] as int], ks[order@[j] as int]) && (ks[order@[i] as int]
                == ks[order@[j] as int] ==> order@[i] < order@[j]) by {
                if j < p {
                    assert(order@[i] == old_order[i] && order@[j] == old_order[j]);
                } else if j == p {
                    assert(order@[i] == old_order[i]);
                } else if i < p {
                    assert(order@[i] == old_order[i] && order@[j] == old_order[j - 1]);
                } else if i == p {
                    assert(order@[j] == old_order[j - 1]);
                } else {
                    assert(order@[i] == old_order[i - 1] && order@[j] == old_order[j - 1]);
                }
            }
        }
        k = k + 1;
    }
    assert(keys@.take(n as int) =~= keys@);
    order
}

/// The ranking key of a video format: quality first, then total bit rate.
pub open spec fn video_key(f: MediaFormat) -> (u64, u64) {
    (f.quality_key, f.total_rate_key)
}

/// The ranking key of an audio format: audio bit rate first, then quality.
pub open spec fn audio_key(f: MediaFormat) -> (u64, u64) {
    (f.audio_rate_key, f.quality_key)
}

/// `output` is `input` rearranged in a stable descending order of `keys` (one key per
/// input item): best first, ties kept in their input order.
pub open spec fn is_ranked(
    input: Seq<&MediaFormat>,
    keys: Seq<(u64, u64)>,
    output: Seq<&MediaFormat>,
) -> bool {
    exists|order: Seq<usize>|
        #![trigger is_stable_desc_order(keys, order)]
        is_stable_desc_order(keys, order) && output.len() == order.len() && forall|i: int|
            0 <= i < order.len() ==> output[i] == input[order[i] as int]
}

fn rank_by<'a>(formats: &[&'a MediaFormat], keys: &Vec<(u64, u64)>) -> (r: Vec<&'a MediaFormat>)
    requires
        keys@.len() == formats@.len(),
    ensures
        is_ranked(formats@, keys@, r@),
{
    let order = stable_order_desc(keys);
    let mut r: Vec<&'a MediaFormat> = Vec::new();
    let mut i: usize = 0;
    while i < order.len()
        invariant
            is_stable_desc_order(keys@, order@),
            keys@.len() == formats@.len(),
            i <= order@.len(),
            r@.len() == i,
            forall|t: int| 0 <= t < i ==> r@[t] == formats@[order@[t] as int],
        decreases order@.len() - i,
    {
        let f: &'a MediaFormat = formats[order[i]];
        r.push(f);
        i = i + 1;
    }
    r
}

/// Orders video formats best first: by quality, then by total bit rate, both
/// descending; formats that tie keep their order.
pub fn rank_video_formats<'a>(formats: &[&'a MediaFormat]) -> (r: Vec<&'a MediaFormat>)
    ensures
        is_ranked(formats@, formats@.map_values(|f: &MediaFormat| video_key(*f)), r@),
{
    let mut keys: Vec<(u64, u64)> = Vec::new();
    let mut i: usize = 0;
    while i < formats.len()
        invariant
            i <= formats@.len(),
            keys@ == formats@.take(i as int).map_values(|f: &MediaFormat| video_key(*f)),
        decreases formats@.len() - i,
    {
        let f = formats[i];
        keys.push((f.quality_key, f.total_rate_key));
        i = i + 1;
        assert(keys@ =~= formats@.take(i as int).map_values(|f: &MediaFormat| video_key(*f)));
    }
    assert(formats@.take(formats@.len() as int) =~= formats@);
    rank_by(formats, &keys)
}

/// The format's note, lower-cased, mentions "original" (an original-language track).
pub open spec fn has_original_note(f: MediaFormat) -> bool {
    match f.format_note {
        Some(note) => contains_piece(unicode_lowercase(note@), "original"@),
        None => false,
    }
}

/// The audio formats to rank: those marked original when there are any, else all.
pub open spec fn audio_candidates(formats: Seq<&MediaFormat>) -> Seq<&MediaFormat> {
    let originals = formats.filter(|f: &MediaFormat| has_original_note(*f));
    if originals.len() > 0 {
        originals
    } else {
        formats
    }
}

fn is_original(f: &MediaFormat) -> (b: bool)
    ensures
        b == has_original_note(*f),
{
    match &f.format_note {
        Some(note) => {
            let lower = to_lowercase(note.as_str());
            contains(lower.as_str(), "original")
        },
        None => false,
    }
}

/// Orders audio formats best first: formats marked original are preferred when there
/// are any (the others are left out), then by audio bit rate and quality, both
/// descending; formats that tie keep their order.
pub fn rank_audio_formats<'a>(audio_formats: &[&'a MediaFormat]) -> (r: Vec<&'a MediaFormat>)
    ensures
        is_ranked(
            audio_candidates(audio_formats@),
            audio_candidates(audio_formats@).map_values(|f: &MediaFormat| audio_key(*f)),
            r@,
        ),
{
    let ghost pred = |f: &MediaFormat| has_original_note(*f);
    let mut originals: Vec<&'a MediaFormat> = Vec::new();
    let mut i: usize = 0;
    while i < audio_formats.len()
        invariant
            i <= audio_formats@.len(),
            pred == (|f: &MediaFormat| has_original_note(*f)),
            originals@ == audio_formats@.take(i as int).filter(pred),
        decreases audio_formats@.len() - i,
    {
        let f = audio_formats[i];
        proof {
            reveal_with_fuel(Seq::filter, 1);
            assert(audio_formats@.take(i + 1).drop_last() =~= audio_formats@.take(i as int));
        }
        if is_original(f) {
            originals.push(f);
        }
        i = i + 1;
    }
    assert(audio_formats@.take(audio_formats@.len() as int) =~= audio_formats@);
    let candidates: Vec<&'a MediaFormat> = if originals.len() > 0 {
        originals
    } else {
        vstd::slice::slice_to_vec(audio_formats)
    };
    let mut keys: Vec<(u64, u64)> = Vec::new();
    let mut j: usize = 0;
    while j < candidates.len()
        invariant
            j <= candidates@.len(),
            keys@ == candidates@.take(j as int).map_values(|f: &MediaFormat| audio_key(*f)),
        decreases candidates@.len() - j,
    {
        let f = candidates[j];
        keys.push((f.audio_rate_key, f.quality_key));
        j = j + 1;
        assert(keys@ =~= candidates@.take(j as int).map_values(|f: &MediaFormat| audio_key(*f)));
    }
    assert(candidates@.take(candidates@.len() as int) =~= candidates@);
    rank_by(candidates.as_slice(), &keys)
}

/// Some format of `formats` has height `h`, and `h` is a real height (above 0).
pub open spec fn offers_height(formats: Seq<&MediaFormat>, h: u32) -> bool {
    h > 0 && exists|i: int| 0 <= i < formats.len() && formats[i].height == Some(h)
}

/// The distinct video heights of `watchable` that are above 0, highest first.
pub fn available_resolutions(watchable: &Vec<&MediaFormat>) -> (r: Vec<u32>)
    ensures
        forall|i: int, j: int| 0 <= i < j < r@.len() ==> r@[i] > r@[j],
        forall|h: u32| r@.contains(h) <==> offers_height(watchable@, h),
        forall|i: int|
            0 <= i < watchable@.len() && (#[trigger] watchable@[i].height) is Some
                && watchable@[i].height->0 > 0 ==> r@.contains(watchable@[i].height->0),
        forall|k: int|
            0 <= k < r@.len() ==> #[trigger] r@[k] > 0 && exists|i: int|
                0 <= i < watchable@.len() && watchable@[i].height == Some(r@[k]),
{
    let mut r: Vec<u32> = Vec::new();
    let mut i: usize = 0;
    while i < watchable.len()
        invariant
            i <= watchable@.len(),
            forall|a: int, b: int| 0 <= a < b < r@.len() ==> r@[a] > r@[b],
            forall|h: u32| r@.contains(h) <==> offers_height(watchable@.take(i as int), h),
        decreases watchable@.len() - i,
    {
        let f = watchable[i];
        let ghost before = r@;
        let ghost prefix = watchable@.take(i as int);
        let ghost next = watchable@.take(i + 1);
        assert forall|h: u32| offers_height(next, h) <==> offers_height(prefix, h) || (h > 0
            && f.height == Some(h)) by {
            if offers_height(prefix, h) {
                let t = choose|t: int| 0 <= t < prefix.len() && prefix[t].height == Some(h);
                assert(next[t] == prefix[t]);
            }
            if h > 0 && f.height == Some(h) {
                assert(next[i as int] == f);
            }
            if offers_height(next, h) {
                let t = choose|t: int| 0 <= t < next.len() && next[t].height == Some(h);
                if t < i {
                    assert(prefix[t] == next[t]);
                }
            }
        }
        match f.height {
            Some(h) => {
                if h > 0 {
                    let mut p: usize = 0;
                    while p < r.len() && r[p] > h
                        invariant
                            p <= r@.len(),
                            forall|q: int| 0 <= q < p ==> r@[q] > h,
                        decreases r@.len() - p,
                    {
                        p = p + 1;
                    }
                    if p < r.len() && r[p] == h {
                        assert(r@.contains(h) && r@[p as int] == h);
                        assert forall|x: u32| r@.contains(x) <==> offers_height(next, x) by {
                            if x == h {
                                assert(r@.contains(h));
                            }
                        }
                    } else {
                        proof {
                            assert forall|q: int| p <= q < r@.len() implies r@[q] < h by {
                                if q > p {
                                    assert(r@[p as int] > r@[q]);
                                }
                            }
                        }
                        r.insert(p, h);
                        proof {
                            assert forall|a: int, b: int| 0 <= a < b < r@.len() implies r@[a]
                                > r@[b] by {
                                if b < p {
                                    assert(r@[a] == before[a] && r@[b] == before[b]);
                                } else if b == p {
                                    assert(r@[a] == before[a]);
                                } else if a < p {
                                    assert(r@[a] == before[a] && r@[b] == before[b - 1]);
                                } else if a == p {
                                    assert(r@[b] == before[b - 1]);
                                } else {
                                    assert(r@[a] == before[a - 1] && r@[b] == before[b - 1]);
                                }
                            }
                            assert forall|x: u32| r@.contains(x) <==> before.contains(x) || x
                                == h by {
                                if r@.contains(x) {
                                    let t = choose|t: int| 0 <= t < r@.len() && r@[t] == x;
                                    if t < p {
                                        assert(before[t] == x);
                                    } else if t > p {
                                        assert(before[t - 1] == x);
                                    }
                                }
                                if before.contains(x) {
                                    let t = choose|t: int| 0 <= t < before.len() && before[t] == x;
                                    if t < p {
                                        assert(r@[t] == x);
                                    } else {
                                        assert(r@[t + 1] == x);
                                    }
                                }
                                if x == h {
                                    assert(r@[p as int] == h);
                                }
                            }
                            assert forall|x: u32| r@.contains(x) <==> offers_height(next, x) by {
                                assert(r@.contains(x) <==> before.contains(x) || x == h);
                                assert(before.contains(x) <==> offers_height(prefix, x));
                                assert(offers_height(next, x) <==> offers_height(prefix, x) || (x
                                    > 0 && f.height == Some(x)));
                            }
                        }
                    }
                } else {
                    assert forall|x: u32| r@.contains(x) <==> offers_height(next, x) by {
                        assert(before.contains(x) <==> offers_height(prefix, x));
                    }
                }
            },
            None => {
                assert forall|x: u32| r@.contains(x) <==> offers_height(next, x) by {
                    assert(before.contains(x) <==> offers_height(prefix, x));
                }
            },
        }
        i = i + 1;
    }
    assert(watchable@.take(watchable@.len() as int) =~= watchable@);
    assert forall|t: int|
        0 <= t < watchable@.len() && (#[trigger] watchable@[t].height) is Some
            && watchable@[t].height->0 > 0 implies r@.contains(watchable@[t].height->0) by {
        assert(offers_height(watchable@, watchable@[t].height->0));
    }
    assert forall|k: int| 0 <= k < r@.len() implies #[trigger] r@[k] > 0 && exists|t: int|
        0 <= t < watchable@.len() && watchable@[t].height == Some(r@[k]) by {
        assert(r@.contains(r@[k]));
    }
    r
}

} // verus!
