//! The presence text formatting the Discord integration applies: the
//! format placeholders replaced by the current track's fields, and the
//! clock reading the activity timestamps start from.

use vstd::prelude::*;
use crate::entities::Track;
use crate::strutil::{replace, spec_replace};

verus! {

/// What a presence format string renders to for one track: `{track}`,
/// `{artist}` and `{album}` replaced in that order.
pub open spec fn spec_track_string(fmt: Seq<char>, t: Track) -> Seq<char> {
    spec_replace(
        spec_replace(spec_replace(fmt, "{track}"@, t.title@), "{artist}"@, t.artist_name@),
        "{album}"@,
        t.album_title@,
    )
}

pub fn format_track_string(format: &str, track: &Track) -> (r: String)
    ensures
        r@ == spec_track_string(format@, *track),
{
    proof {
        reveal_strlit("{track}");
        reveal_strlit("{artist}");
        reveal_strlit("{album}");
    }
    let s1 = replace(format, "{track}", track.title.as_str());
    let s2 = replace(s1.as_str(), "{artist}", track.artist_name.as_str());
    replace(s2.as_str(), "{album}", track.album_title.as_str())
}

/// The current wall-clock time as Unix seconds, for presence timestamps.
pub fn now_unix_seconds() -> (r: Option<i64>)
    ensures
        r is Some,
{
    Some(crate::queries::utc_now_seconds())
}

} // verus!
