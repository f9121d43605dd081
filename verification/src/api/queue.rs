//! Queue API endpoints for managing the search queue

use crate::api::{refuse, refused, Refusal};
use crate::text::{opt_text, push_signed, push_text, signed_decimal, trim, trimmed};
use vstd::prelude::*;

verus! {

/// Response for cancel operation
#[derive(Debug)]
pub struct CancelResponse {
    pub cancelled: bool,
    pub message: String,
}

/// A track that is asked for.
#[derive(Debug)]
pub struct TrackRequest {
    pub track: String,
    pub artist: Option<String>,
}

/// A track that is asked for, with its texts as character sequences.
#[verifier::ext_equal]
pub struct TrackView {
    pub track: Seq<char>,
    pub artist: Option<Seq<char>>,
}

impl View for TrackRequest {
    type V = TrackView;

    open spec fn view(&self) -> TrackView {
        TrackView { track: self.track@, artist: opt_text(self.artist) }
    }
}

/// A track that is searched for: what is asked of the network, and what the user asked.
#[derive(Debug)]
pub struct QueuedTrack {
    pub query: String,
    pub artist: Option<String>,
    pub track: String,
}

/// A track that is searched for, with its texts as character sequences.
#[verifier::ext_equal]
pub struct QueuedTrackView {
    pub query: Seq<char>,
    pub artist: Option<Seq<char>>,
    pub track: Seq<char>,
}

impl View for QueuedTrack {
    type V = QueuedTrackView;

    open spec fn view(&self) -> QueuedTrackView {
        QueuedTrackView {
            query: self.query@,
            artist: opt_text(self.artist),
            track: self.track@,
        }
    }
}

/// What is asked of the network for a track: the artist, where there is one, and the name,
/// each without the whitespace around it.
pub open spec fn query_of(t: TrackView) -> Seq<char> {
    match t.artist {
        Some(artist) => if trimmed(artist).len() > 0 {
            trimmed(artist) + " "@ + trimmed(t.track)
        } else {
            trimmed(t.track)
        },
        None => trimmed(t.track),
    }
}

impl TrackRequest {
    /// Build combined query for Soulseek search
    pub fn search_query(&self) -> (r: String)
        ensures
            r@ == query_of(self@),
    {
        match &self.artist {
            Some(artist) => {
                let mut r = trim(artist.as_str());
                if r.as_str().is_empty() {
                    return trim(self.track.as_str());
                }
                push_text(&mut r, " ");
                let track = trim(self.track.as_str());
                push_text(&mut r, track.as_str());
                r
            },
            None => trim(self.track.as_str()),
        }
    }
}

/// Checks a single track: it needs a name.
pub fn check_track(request: &TrackRequest) -> (r: Result<String, Refusal>)
    ensures
        if trimmed(request.track@).len() == 0 {
            refused(r, 400, "Track name cannot be empty"@)
        } else {
            r matches Ok(query) && query@ == query_of(request@)
        },
{
    let name = trim(request.track.as_str());
    if name.as_str().is_empty() {
        Err(refuse(400, "Track name cannot be empty"))
    } else {
        Ok(request.search_query())
    }
}

/// The tracks of a list that are searched for, in their order: those without a name are
/// left out.
pub open spec fn queued_tracks(tracks: Seq<TrackView>) -> Seq<QueuedTrackView>
    decreases tracks.len(),
{
    if tracks.len() == 0 {
        Seq::empty()
    } else {
        let t = tracks.last();
        let before = queued_tracks(tracks.drop_last());
        if trimmed(t.track).len() == 0 {
            before
        } else {
            before.push(QueuedTrackView { query: query_of(t), artist: t.artist, track: t.track })
        }
    }
}

/// The views of a sequence of tracks that are asked for.
pub open spec fn track_views(v: Seq<TrackRequest>) -> Seq<TrackView> {
    v.map_values(|t: TrackRequest| t@)
}

/// The views of a sequence of tracks that are searched for.
pub open spec fn queued_views(v: Seq<QueuedTrack>) -> Seq<QueuedTrackView> {
    v.map_values(|t: QueuedTrack| t@)
}

/// Copies an optional text.
fn copied(o: &Option<String>) -> (r: Option<String>)
    ensures
        opt_text(r) == opt_text(*o),
{
    match o {
        Some(s) => Some(s.clone()),
        None => None,
    }
}

/// Checks a list of tracks, and gives those that are searched for.
pub fn check_tracks(tracks: &Vec<TrackRequest>) -> (r: Result<Vec<QueuedTrack>, Refusal>)
    ensures
        if tracks@.len() == 0 {
            refused(r, 400, "Tracks list cannot be empty"@)
        } else if queued_tracks(track_views(tracks@)).len() == 0 {
            refused(r, 400, "All tracks are empty"@)
        } else {
            r matches Ok(queued) && queued_views(queued@) == queued_tracks(track_views(tracks@))
        },
{
    if tracks.len() == 0 {
        return Err(refuse(400, "Tracks list cannot be empty"));
    }
    let mut queued: Vec<QueuedTrack> = Vec::new();
    let mut i: usize = 0;
    let ghost all = track_views(tracks@);
    assert(queued_views(queued@) =~= Seq::<QueuedTrackView>::empty());
    while i < tracks.len()
        invariant
            i <= tracks.len(),
            all == track_views(tracks@),
            queued_views(queued@) == queued_tracks(all.take(i as int)),
        decreases tracks.len() - i,
    {
        let t = &tracks[i];
        assert(all.take(i + 1).drop_last() =~= all.take(i as int));
        assert(all.take(i + 1).last() == t@);
        let name = trim(t.track.as_str());
        if !name.as_str().is_empty() {
            let ghost before = queued@;
            let q = QueuedTrack {
                query: t.search_query(),
                artist: copied(&t.artist),
                track: t.track.clone(),
            };
            queued.push(q);
            assert(queued_views(queued@) =~= queued_views(before).push(q@));
        }
        i = i + 1;
    }
    assert(all.take(i as int) =~= all);
    assert(queued_views(queued@).len() == queued@.len());
    if queued.len() == 0 {
        Err(refuse(400, "All tracks are empty"))
    } else {
        Ok(queued)
    }
}

/// Nothing is searched for without a name: every track of a list that is searched for has
/// one, and so has what is asked of the network for it.
pub proof fn law_queued_tracks_have_names(tracks: Seq<TrackView>, i: int)
    requires
        0 <= i < queued_tracks(tracks).len(),
    ensures
        trimmed(queued_tracks(tracks)[i].track).len() > 0,
        queued_tracks(tracks)[i].query.len() > 0,
    decreases tracks.len(),
{
    if i < queued_tracks(tracks.drop_last()).len() {
        law_queued_tracks_have_names(tracks.drop_last(), i);
    }
}

/// Tells whether a search was cancelled.
pub fn cancel_answer(queue_id: i64, cancelled: bool) -> (r: CancelResponse)
    ensures
        r.cancelled == cancelled,
        r.message@ == "Search "@ + signed_decimal(queue_id as int) + if cancelled {
            " cancelled"@
        } else {
            " not found or already processing"@
        },
{
    let mut message = "Search ".to_owned();
    push_signed(&mut message, queue_id);
    if cancelled {
        push_text(&mut message, " cancelled");
    } else {
        push_text(&mut message, " not found or already processing");
    }
    CancelResponse { cancelled, message }
}

/// What is asked of the network for a track is the artist, a space and the name, each without
/// the whitespace around it; without an artist, or one of whitespace alone, it is the name.
pub proof fn law_query_is_artist_and_name(track: Seq<char>, artist: Seq<char>)
    ensures
        query_of(TrackView { track, artist: None }) == trimmed(track),
        trimmed(artist).len() == 0 ==> query_of(TrackView { track, artist: Some(artist) })
            == trimmed(track),
        trimmed(artist).len() > 0 ==> {
            let query = query_of(TrackView { track, artist: Some(artist) });
            let n = trimmed(artist).len() as int;
            &&& query.len() == n + 1 + trimmed(track).len()
            &&& query.take(n) == trimmed(artist)
            &&& query[n] == ' '
            &&& query.skip(n + 1) == trimmed(track)
        },
{
    reveal_strlit(" ");
    if trimmed(artist).len() > 0 {
        let query = query_of(TrackView { track, artist: Some(artist) });
        let n = trimmed(artist).len() as int;
        assert(query.take(n) =~= trimmed(artist));
        assert(query.skip(n + 1) =~= trimmed(track));
    }
}

/// A track with a name is searched for by its query and kept with the artist and the name
/// that the user gave; one without a name is not searched for.
pub proof fn law_track_is_queued_as_it_was_asked(t: TrackView)
    ensures
        trimmed(t.track).len() == 0 ==> queued_tracks(seq![t]).len() == 0,
        trimmed(t.track).len() > 0 ==> queued_tracks(seq![t]).len() == 1 && queued_tracks(
            seq![t],
        )[0].query == query_of(t) && queued_tracks(seq![t])[0].artist == t.artist && queued_tracks(
            seq![t],
        )[0].track == t.track,
{
    assert(seq![t].drop_last() =~= Seq::<TrackView>::empty());
    assert(queued_tracks(Seq::<TrackView>::empty()).len() == 0);
    assert(seq![t].last() == t);
}

/// A list is searched for track by track, in its order.
pub proof fn law_list_is_queued_in_order(earlier: Seq<TrackView>, later: Seq<TrackView>)
    ensures
        queued_tracks(earlier + later) == queued_tracks(earlier) + queued_tracks(later),
    decreases later.len(),
{
    if later.len() == 0 {
        assert(earlier + later =~= earlier);
        assert(queued_tracks(earlier) + queued_tracks(later) =~= queued_tracks(earlier));
    } else {
        law_list_is_queued_in_order(earlier, later.drop_last());
        assert((earlier + later).drop_last() =~= earlier + later.drop_last());
        assert((earlier + later).last() == later.last());
        assert(queued_tracks(earlier + later) =~= queued_tracks(earlier) + queued_tracks(later));
    }
}

} // verus!
