//! Plain helpers of the remote-catalog collaborators: the API version
//! endpoints and the image URL scheme.

use vstd::prelude::*;
use crate::strutil::{replace, spec_replace, spec_digits, u64_to_string};

verus! {

/// Which generation of the remote catalog API a request goes to.
#[derive(Clone, Copy, Debug)]
pub enum ApiVersion {
    V1,
    V2,
    OpenApi,
    Desktop,
    DesktopV2,
}

impl ApiVersion {
    /// The base endpoint of each API generation.
    pub fn base_url(&self) -> (r: &'static str)
        ensures
            r@ == match *self {
                ApiVersion::V1 => "https://api.tidal.com/v1"@,
                ApiVersion::V2 => "https://api.tidal.com/v2"@,
                ApiVersion::OpenApi => "https://openapi.tidal.com/v2"@,
                ApiVersion::Desktop => "https://desktop.tidal.com/v1"@,
                ApiVersion::DesktopV2 => "https://desktop.tidal.com/v2"@,
            },
    {
        match self {
            ApiVersion::V1 => "https://api.tidal.com/v1",
            ApiVersion::V2 => "https://api.tidal.com/v2",
            ApiVersion::OpenApi => "https://openapi.tidal.com/v2",
            ApiVersion::Desktop => "https://desktop.tidal.com/v1",
            ApiVersion::DesktopV2 => "https://desktop.tidal.com/v2",
        }
    }
}

/// The resource URL of a remote image: the dashed id becomes a path, with
/// the requested dimensions; an empty id has no image.
pub open spec fn spec_image_url(id: Seq<char>, width: u32, height: u32) -> Seq<char> {
    "https://resources.tidal.com/images/"@ + spec_replace(id, "-"@, "/"@) + "/"@ + spec_digits(
        width as nat,
    ) + "x"@ + spec_digits(height as nat) + ".jpg"@
}

pub fn get_image_url(id: &str, width: u32, height: u32) -> (r: Option<String>)
    ensures
        (r is Some) <==> id@.len() > 0,
        r matches Some(u) ==> u@ == spec_image_url(id@, width, height),
{
    if id.unicode_len() == 0 {
        return None;
    }
    proof {
        reveal_strlit("-");
    }
    let path = replace(id, "-", "/");
    let mut u = String::from_str("https://resources.tidal.com/images/");
    u.append(path.as_str());
    u.append("/");
    let w = u64_to_string(width as u64);
    u.append(w.as_str());
    u.append("x");
    let h = u64_to_string(height as u64);
    u.append(h.as_str());
    u.append(".jpg");
    Some(u)
}

} // verus!
