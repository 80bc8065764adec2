//! The size of a video, from the JSON report that `ffprobe -show_streams`
//! prints about it.
use vstd::prelude::*;

verus! {

/// What the library reads of one stream of a probe report.
pub struct ProbeStream {
    /// The stream's `codec_type`, when it is a string.
    pub codec_type: Option<String>,
    /// The stream's `width`, when it is an unsigned integer.
    pub width: Option<u64>,
    /// The stream's `height`, when it is an unsigned integer.
    pub height: Option<u64>,
}

/// The view of a list of probe streams.
pub open spec fn streams_view(v: Seq<ProbeStream>) -> Seq<(Option<Seq<char>>, Option<u64>, Option<u64>)> {
    v.map_values(
        |s: ProbeStream|
            (
                match s.codec_type {
                    Some(t) => Some(t@),
                    None => None,
                },
                s.width,
                s.height,
            ),
    )
}

/// The streams of a probe report as `serde_json` reads the bytes: for each
/// element of the report's `streams` array, its `codec_type` string, and
/// its `width` and `height` unsigned integers; none when the bytes are no
/// JSON or hold no `streams` array.
pub uninterp spec fn spec_probe_streams(report: Seq<u8>) -> Option<Seq<(Option<Seq<char>>, Option<u64>, Option<u64>)>>;

/// Reads the streams of a probe report with `serde_json::from_slice` into
/// a `serde_json::Value`, and picks from each element of its `streams`
/// array the `codec_type` string and the `width` and `height` integers.
/// The contract ties the result to the bytes by the name
/// `spec_probe_streams`; the JSON grammar itself is not stated.
#[verifier::external_body]
fn probe_streams(report: &[u8]) -> (r: Option<Vec<ProbeStream>>)
    ensures
        match r {
            Some(v) => spec_probe_streams(report@) == Some(streams_view(v@)),
            None => spec_probe_streams(report@) is None,
        },
{
    let json: serde_json::Value = serde_json::from_slice(report).ok()?;
    let streams = json.get("streams")?.as_array()?;
    Some(streams.iter().map(|s| ProbeStream {
        codec_type: s.get("codec_type").and_then(|v| v.as_str()).map(String::from),
        width: s.get("width").and_then(|v| v.as_u64()),
        height: s.get("height").and_then(|v| v.as_u64()),
    }).collect())
}

/// The size of the first video stream among `streams[i..]`: none when a
/// stream before it has no `codec_type`, or when its width or height is
/// missing or does not fit in `u32`.
pub open spec fn spec_video_size_from(streams: Seq<(Option<Seq<char>>, Option<u64>, Option<u64>)>, i: int) -> Option<(u32, u32)>
    decreases streams.len() - i,
{
    if i < 0 || i >= streams.len() {
        None
    } else {
        match streams[i].0 {
            None => None,
            Some(t) => if t == "video"@ {
                match (streams[i].1, streams[i].2) {
                    (Some(w), Some(h)) => if w <= u32::MAX && h <= u32::MAX {
                        Some((w as u32, h as u32))
                    } else {
                        None
                    },
                    _ => None,
                }
            } else {
                spec_video_size_from(streams, i + 1)
            },
        }
    }
}

/// The size `(width, height)` of the first video stream of `streams`, as
/// `spec_video_size_from` states.
pub fn video_size_of_streams(streams: &[ProbeStream]) -> (r: Option<(u32, u32)>)
    ensures
        r == spec_video_size_from(streams_view(streams@), 0),
{
    let ghost sv = streams_view(streams@);
    let video = "video";
    let mut i: usize = 0;
    while i < streams.len()
        invariant
            i <= streams.len(),
            sv == streams_view(streams@),
            video@ == "video"@,
            spec_video_size_from(sv, 0) == spec_video_size_from(sv, i as int),
        decreases streams.len() - i,
    {
        let s = &streams[i];
        match &s.codec_type {
            None => {
                return None;
            },
            Some(t) => {
                if crate::text::str_eq(t.as_str(), video) {
                    match (s.width, s.height) {
                        (Some(w), Some(h)) => {
                            if w <= 4294967295u64 && h <= 4294967295u64 {
                                return Some((w as u32, h as u32));
                            } else {
                                return None;
                            }
                        },
                        _ => {
                            return None;
                        },
                    }
                }
            },
        }
        i = i + 1;
    }
    None
}

/// The size `(width, height)` of a video, from the JSON report that
/// `ffprobe -show_streams` printed about it; none when the report cannot
/// be read or names no usable video stream.
pub fn get_video_size_from_report(report: &[u8]) -> (r: Option<(u32, u32)>)
    ensures
        r == match spec_probe_streams(report@) {
            Some(streams) => spec_video_size_from(streams, 0),
            None => None,
        },
{
    match probe_streams(report) {
        Some(streams) => video_size_of_streams(&streams),
        None => None,
    }
}

} // verus!
