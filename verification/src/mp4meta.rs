//! Speculative container-metadata parsing: the engine feeds the growing
//! prefix of a download to the container parser until a duration and frame
//! size emerge. The parser itself is an outside black box; everything
//! derived from what it reports — the duration arithmetic, the fixed-point
//! frame size, the codec naming — is computed and verified here.

use crate::models::VideoMetadata;
use vstd::prelude::*;
use vstd::string::StringExecFns;

verus! {

/// The raw facts about the first track of a container prefix, exactly as
/// the parser reports them: the media timescale, the duration in timescale
/// units, the header's 16.16 fixed-point frame size, whether the track is
/// a video track, and — when a sample description box is present — the
/// text of its first entry.
#[derive(Debug)]
pub struct TrackRaw {
    pub timescale: Option<u64>,
    pub duration: Option<u64>,
    pub header: Option<(u32, u32)>,
    pub video: bool,
    pub sample_description: Option<Option<String>>,
}

/// The view of a [`TrackRaw`], its description text as characters.
pub open spec fn track_raw_view(t: TrackRaw) -> (
    Option<u64>,
    Option<u64>,
    Option<(u32, u32)>,
    bool,
    Option<Option<Seq<char>>>,
) {
    (
        t.timescale,
        t.duration,
        t.header,
        t.video,
        match t.sample_description {
            Some(d) => Some(
                match d {
                    Some(x) => Some(x@),
                    None => None,
                },
            ),
            None => None,
        },
    )
}

/// What the container parser reports for a byte prefix: nothing on a parse
/// error, no track facts when the container has no track yet, or the raw
/// facts of the first track. The result depends on the bytes alone.
pub uninterp spec fn mp4_probe_of(b: Seq<u8>) -> Option<
    Option<(Option<u64>, Option<u64>, Option<(u32, u32)>, bool, Option<Option<Seq<char>>>)>,
>;

/// Relies on `mp4parse::read_mp4` and the public fields of its `Track`:
/// the parse of a byte prefix depends on the bytes alone. Only fields are
/// moved out; nothing is interpreted here.
#[verifier::external_body]
fn probe_mp4(buf: &[u8]) -> (r: Result<Option<TrackRaw>, ()>)
    ensures
        match r {
            Ok(t) => match t {
                Some(t) => mp4_probe_of(buf@) == Some(Some(track_raw_view(t))),
                None => mp4_probe_of(buf@) == Some(
                    None::<
                        (
                            Option<u64>,
                            Option<u64>,
                            Option<(u32, u32)>,
                            bool,
                            Option<Option<Seq<char>>>,
                        ),
                    >,
                ),
            },
            Err(e) => mp4_probe_of(buf@) is None,
        },
{
    let ctx = match mp4parse::read_mp4(&mut std::io::Cursor::new(buf)) {
        Ok(c) => c,
        Err(_) => return Err(()),
    };
    let t = match ctx.tracks.first() {
        Some(t) => t,
        None => return Ok(None),
    };
    Ok(Some(TrackRaw {
        timescale: t.timescale.map(|s| s.0),
        duration: t.duration.map(|d| d.0),
        header: t.tkhd.as_ref().map(|h| (h.width, h.height)),
        video: matches!(t.track_type, mp4parse::TrackType::Video),
        sample_description: t.stsd.as_ref().map(|s| s.descriptions.first().map(|d| format!("{:?}", d))),
    }))
}

/// The outcome of one speculative parse attempt.
#[derive(Debug)]
pub enum ParseOutcome {
    /// A track with a header was found; its metadata follows.
    Parsed(VideoMetadata),
    /// The prefix parses but names no usable track yet; try again with
    /// more bytes.
    NoMetadata,
    /// The prefix does not parse (yet); also not fatal — try again.
    Failed,
}

/// The whole seconds a track covers: its duration in timescale units
/// divided by the timescale; zero while either is missing or the
/// timescale is zero.
pub open spec fn spec_duration_seconds(timescale: Option<u64>, duration: Option<u64>) -> u64 {
    let ts: u64 = match timescale {
        Some(t) => t,
        None => 0,
    };
    let raw: u64 = match duration {
        Some(d) => d,
        None => 0,
    };
    if ts > 0 {
        (raw as int / ts as int) as u64
    } else {
        0
    }
}

/// The codec text of a track: the first sample description of a video
/// track, `unknown` when the track has none to offer, `non-video` for any
/// other track kind.
pub open spec fn spec_codec_text(video: bool, sd: Option<Option<Seq<char>>>) -> Seq<char> {
    match sd {
        Some(d) => if video {
            match d {
                Some(x) => x,
                None => "unknown"@,
            }
        } else {
            "non-video"@
        },
        None => "unknown"@,
    }
}

/// What a parse attempt over `probe` must yield: a failure or a missing
/// track propagates; a track without a header is not usable yet; a track
/// with one yields the computed duration, codec text and frame size (the
/// header stores both dimensions in 16.16 fixed point).
pub open spec fn outcome_matches(
    r: ParseOutcome,
    probe: Option<
        Option<(Option<u64>, Option<u64>, Option<(u32, u32)>, bool, Option<Option<Seq<char>>>)>,
    >,
) -> bool {
    match probe {
        None => r is Failed,
        Some(p) => match p {
            None => r is NoMetadata,
            Some(t) => match t.2 {
                None => r is NoMetadata,
                Some(wh) => {
                    &&& r matches ParseOutcome::Parsed(m)
                    &&& m.duration_seconds == spec_duration_seconds(t.0, t.1)
                    &&& m.codec@ == spec_codec_text(t.3, t.4)
                    &&& m.width == wh.0 >> 16
                    &&& m.height == wh.1 >> 16
                },
            },
        },
    }
}

/// One speculative parse attempt over the byte prefix received so far.
pub fn parse_mp4_metadata(buf: &[u8]) -> (r: ParseOutcome)
    ensures
        outcome_matches(r, mp4_probe_of(buf@)),
{
    let raw = match probe_mp4(buf) {
        Err(_) => {
            return ParseOutcome::Failed;
        },
        Ok(None) => {
            return ParseOutcome::NoMetadata;
        },
        Ok(Some(t)) => t,
    };
    let (w, h) = match raw.header {
        Some(wh) => wh,
        None => {
            return ParseOutcome::NoMetadata;
        },
    };
    let ts: u64 = match raw.timescale {
        Some(t) => t,
        None => 0,
    };
    let dur: u64 = match raw.duration {
        Some(d) => d,
        None => 0,
    };
    let duration_seconds: u64 = if ts > 0 {
        dur / ts
    } else {
        0
    };
    let codec: String = match raw.sample_description {
        Some(d) => if raw.video {
            match d {
                Some(x) => x,
                None => String::from_str("unknown"),
            }
        } else {
            String::from_str("non-video")
        },
        None => String::from_str("unknown"),
    };
    ParseOutcome::Parsed(
        VideoMetadata { duration_seconds, codec, width: w >> 16, height: h >> 16 },
    )
}

} // verus!
