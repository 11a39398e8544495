//! Serving album art by URL (`art://localhost/{track_id}`): the request is
//! answered from an in-memory cache when it can be, otherwise from the
//! database, whose answer is cached. The database read stays with the
//! caller, which hands its result back.

use vstd::prelude::*;
use std::collections::HashMap;
use crate::query::{art_track_id, art_url_track_id};

verus! {

broadcast use vstd::std_specs::hash::group_hash_axioms;

/// What serving an art URL needs first.
#[derive(Debug, Clone)]
pub enum ArtLookup {
    /// The URL names no track id.
    BadRequest,
    /// The art is cached.
    Cached(Vec<u8>),
    /// The art of this track has to be read from the database.
    Fetch(i64),
}

pub enum ArtLookupModel {
    BadRequest,
    Cached(Seq<u8>),
    Fetch(i64),
}

impl View for ArtLookup {
    type V = ArtLookupModel;

    open spec fn view(&self) -> ArtLookupModel {
        match self {
            ArtLookup::BadRequest => ArtLookupModel::BadRequest,
            ArtLookup::Cached(b) => ArtLookupModel::Cached(b@),
            ArtLookup::Fetch(id) => ArtLookupModel::Fetch(*id),
        }
    }
}

/// The first step of serving `url` from `cache`.
pub open spec fn art_lookup(cache: Map<i64, Seq<u8>>, url: Seq<char>) -> ArtLookupModel {
    match art_url_track_id(url) {
        None => ArtLookupModel::BadRequest,
        Some(id) => if cache.contains_key(id) {
            ArtLookupModel::Cached(cache[id])
        } else {
            ArtLookupModel::Fetch(id)
        },
    }
}

/// The cache after the art of `track_id` was read (`None`: there was none).
pub open spec fn cache_after_fetch(cache: Map<i64, Seq<u8>>, track_id: i64, art: Option<Seq<u8>>) -> Map<
    i64,
    Seq<u8>,
> {
    match art {
        Some(b) => cache.insert(track_id, b),
        None => cache,
    }
}

/// The reply to an art request.
#[derive(Debug, Clone)]
pub enum ArtResponse {
    /// Status 400: the URL names no track id.
    BadRequest,
    /// Status 404: the track has no stored art.
    NotFound,
    /// Status 200: the art, sent as `image/jpeg`.
    Jpeg(Vec<u8>),
}

impl ArtResponse {
    /// The HTTP status of the reply.
    pub fn status(&self) -> (r: u16)
        ensures
            r == match self {
                ArtResponse::BadRequest => 400u16,
                ArtResponse::NotFound => 404u16,
                ArtResponse::Jpeg(_) => 200u16,
            },
    {
        match self {
            ArtResponse::BadRequest => 400,
            ArtResponse::NotFound => 404,
            ArtResponse::Jpeg(_) => 200,
        }
    }
}

/// Album art already served, by track id.
pub struct ArtCache {
    entries: HashMap<i64, Vec<u8>>,
}

impl View for ArtCache {
    type V = Map<i64, Seq<u8>>;

    closed spec fn view(&self) -> Map<i64, Seq<u8>> {
        Map::new(|k: i64| self.entries@.contains_key(k), |k: i64| self.entries@[k]@)
    }
}

impl ArtCache {
    /// An empty cache.
    pub fn new() -> (r: Self)
        ensures
            r@ == Map::<i64, Seq<u8>>::empty(),
    {
        let r = ArtCache { entries: HashMap::new() };
        assert(r@ =~= Map::<i64, Seq<u8>>::empty());
        r
    }

    /// The first step of serving `url`: refuse it, answer it from the cache,
    /// or ask for the track's art.
    pub fn lookup(&self, url: &str) -> (r: ArtLookup)
        ensures
            r@ == art_lookup(self@, url@),
    {
        match art_track_id(url) {
            None => ArtLookup::BadRequest,
            Some(id) => match self.entries.get(&id) {
                Some(bytes) => {
                    let b = bytes.clone();
                    assert(b@ == bytes@);
                    ArtLookup::Cached(b)
                },
                None => ArtLookup::Fetch(id),
            },
        }
    }

    /// The second step: the art read for `track_id` (`None` when the track
    /// has none, or the read failed). Found art is cached and sent.
    pub fn fetched(&mut self, track_id: i64, art: Option<Vec<u8>>) -> (r: ArtResponse)
        ensures
            final(self)@ == cache_after_fetch(
                old(self)@,
                track_id,
                match art {
                    Some(b) => Some(b@),
                    None => None,
                },
            ),
            match art {
                Some(b) => r matches ArtResponse::Jpeg(sent) && sent@ == b@,
                None => r is NotFound,
            },
    {
        match art {
            Some(bytes) => {
                let sent = bytes.clone();
                assert(sent@ == bytes@);
                self.entries.insert(track_id, bytes);
                proof {
                    assert(self@ =~= old(self)@.insert(track_id, art.unwrap()@));
                }
                ArtResponse::Jpeg(sent)
            },
            None => ArtResponse::NotFound,
        }
    }
}

/// Art once served from the database is served again from the cache: after
/// the art of a track was read and stored, a request naming that track is
/// answered with it, without another read.
pub proof fn lemma_served_art_is_cached(
    cache: Map<i64, Seq<u8>>,
    track_id: i64,
    art: Seq<u8>,
    url: Seq<char>,
)
    requires
        art_url_track_id(url) == Some(track_id),
    ensures
        art_lookup(cache_after_fetch(cache, track_id, Some(art)), url) == ArtLookupModel::Cached(art),
{
}

/// A request that names no track id is refused, whatever is cached.
pub proof fn lemma_bad_url_refused(cache: Map<i64, Seq<u8>>, url: Seq<char>)
    requires
        art_url_track_id(url) is None,
    ensures
        art_lookup(cache, url) == ArtLookupModel::BadRequest,
{
}

} // verus!
