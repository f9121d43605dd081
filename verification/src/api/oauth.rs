//! Playlists of connected music services.

use crate::api::{refuse, refused, Refusal};
use crate::text::push_text;
use vstd::prelude::*;

verus! {

/// Query parameters for playlists endpoint
#[derive(Debug)]
pub struct PlaylistsQuery {
    pub limit: Option<i32>,
    pub offset: Option<i32>,
}

impl PlaylistsQuery {
    /// Which playlists are returned: how many, 50 where nothing is asked for and no more
    /// than 50, and from which on.
    pub fn page(&self) -> (r: (i32, i32))
        ensures
            r.0 == match self.limit {
                Some(l) => if l < 50 {
                    l
                } else {
                    50
                },
                None => 50,
            },
            r.1 == match self.offset {
                Some(o) => o,
                None => 0,
            },
    {
        let limit: i32 = match self.limit {
            Some(l) => {
                if l < 50 {
                    l
                } else {
                    50
                }
            },
            None => 50,
        };
        let offset: i32 = match self.offset {
            Some(o) => o,
            None => 0,
        };
        (limit, offset)
    }
}

/// Checks a request that names a service: the service has to be one that exists, and
/// connections have to be offered at all.
pub fn check_service(name: &str, known: bool, available: bool) -> (r: Result<(), Refusal>)
    ensures
        if !known {
            refused(r, 400, "Unknown service: "@ + name@)
        } else if !available {
            refused(r, 503, "OAuth service not available"@)
        } else {
            r is Ok
        },
{
    if !known {
        let mut error = "Unknown service: ".to_owned();
        push_text(&mut error, name);
        return Err(Refusal { status: 400, error });
    }
    if !available {
        return Err(refuse(503, "OAuth service not available"));
    }
    Ok(())
}

/// Checks that a service can be connected to.
pub fn check_configured(name: &str, configured: bool) -> (r: Result<(), Refusal>)
    ensures
        if configured {
            r is Ok
        } else {
            refused(r, 501, name@ + " integration is not configured"@)
        },
{
    if configured {
        return Ok(());
    }
    let mut error = name.to_owned();
    push_text(&mut error, " integration is not configured");
    Err(Refusal { status: 501, error })
}

} // verus!
