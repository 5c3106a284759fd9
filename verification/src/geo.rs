//! Places and where they are.
use vstd::prelude::*;

use crate::clock::Interval;
use crate::text::{collapse_whitespace, collapsed};
use crate::text_map::{distinct_keys, lemma_map_take, map_of, TextMap};

verus! {

/// Where places are looked up.
pub const ENDPOINT: &'static str = "https://nominatim.openstreetmap.org/search";

/// The shortest time between two lookups, in milliseconds.
pub const MIN_INTERVAL_MILLIS: u64 = 1100;

/// A place on the map: latitude and longitude in degrees, each held as the bits
/// of the double-precision number.
#[derive(Debug, Clone, Copy, PartialEq, Eq, Structural)]
pub struct Coord {
    pub lat: u64,
    pub lon: u64,
}

impl DeepView for Coord {
    type V = Coord;

    open spec fn deep_view(&self) -> Coord {
        *self
    }
}

/// What lookups have found: `None` for a place that is nowhere.
pub type GeoCache = TextMap<Option<Coord>>;

/// A result of a lookup. The service sends the coordinates as texts; beside
/// each stands the number that the text is read as, if it is one.
#[derive(Debug)]
pub struct NominatimResult {
    pub lat: String,
    pub lon: String,
    pub lat_value: Option<u64>,
    pub lon_value: Option<u64>,
}

/// The value of a [`NominatimResult`].
pub struct PlaceModel {
    pub lat: Seq<char>,
    pub lon: Seq<char>,
    pub lat_value: Option<u64>,
    pub lon_value: Option<u64>,
}

impl DeepView for NominatimResult {
    type V = PlaceModel;

    open spec fn deep_view(&self) -> PlaceModel {
        PlaceModel {
            lat: self.lat@,
            lon: self.lon@,
            lat_value: self.lat_value,
            lon_value: self.lon_value,
        }
    }
}

/// A coordinate that is no number.
#[derive(Debug, PartialEq, Eq)]
pub enum GeoError {
    InvalidLatitude(String),
    InvalidLongitude(String),
}

/// The value of a [`GeoError`].
pub enum GeoErrorModel {
    InvalidLatitude(Seq<char>),
    InvalidLongitude(Seq<char>),
}

impl DeepView for GeoError {
    type V = GeoErrorModel;

    open spec fn deep_view(&self) -> GeoErrorModel {
        match self {
            GeoError::InvalidLatitude(t) => GeoErrorModel::InvalidLatitude(t@),
            GeoError::InvalidLongitude(t) => GeoErrorModel::InvalidLongitude(t@),
        }
    }
}

/// What a lookup found: the first result decides, and its latitude is read
/// before its longitude.
pub open spec fn located(results: Seq<PlaceModel>) -> Result<Option<Coord>, GeoErrorModel> {
    if results.len() == 0 {
        Ok(None)
    } else {
        match (results[0].lat_value, results[0].lon_value) {
            (Some(lat), Some(lon)) => Ok(Some(Coord { lat, lon })),
            (None, _) => Err(GeoErrorModel::InvalidLatitude(results[0].lat)),
            (Some(_), None) => Err(GeoErrorModel::InvalidLongitude(results[0].lon)),
        }
    }
}

/// Reads the results of a lookup. No result at all means that the place is
/// nowhere; a coordinate that is no number is an error.
pub fn parse_nominatim(results: &Vec<NominatimResult>) -> (r: Result<Option<Coord>, GeoError>)
    ensures
        match located(results.deep_view()) {
            Ok(c) => r is Ok && r->Ok_0 == c,
            Err(e) => r is Err && r->Err_0.deep_view() == e,
        },
{
    if results.len() == 0 {
        return Ok(None);
    }
    let first = &results[0];
    assert(results.deep_view()[0] == first.deep_view());
    match first.lat_value {
        Some(lat) => match first.lon_value {
            Some(lon) => Ok(Some(Coord { lat, lon })),
            None => Err(GeoError::InvalidLongitude(first.lon.clone())),
        },
        None => Err(GeoError::InvalidLatitude(first.lat.clone())),
    }
}

/// The name of a place without white space at its ends, and with single spaces
/// between its words.
pub fn normalize_place(s: &str) -> (r: String)
    ensures
        r@ == collapsed(s@),
{
    collapse_whitespace(s)
}

/// The parameters of a lookup: at most one result, and nothing smaller than a
/// settlement if `settlement_only`.
pub open spec fn search_terms(query: Seq<char>, settlement_only: bool) -> Seq<
    (Seq<char>, Seq<char>),
> {
    let terms = seq![("q"@, query), ("format"@, "jsonv2"@), ("limit"@, "1"@)];
    if settlement_only {
        terms.push(("featureType"@, "settlement"@))
    } else {
        terms
    }
}

/// The parameters of a lookup: at most one result, and nothing smaller than a
/// settlement if `settlement_only`.
pub fn search_params(query: &str, settlement_only: bool) -> (r: Vec<(String, String)>)
    ensures
        r.deep_view() == search_terms(query@, settlement_only),
{
    let mut r: Vec<(String, String)> = Vec::new();
    r.push(("q".to_owned(), query.to_owned()));
    r.push(("format".to_owned(), "jsonv2".to_owned()));
    r.push(("limit".to_owned(), "1".to_owned()));
    if settlement_only {
        r.push(("featureType".to_owned(), "settlement".to_owned()));
    }
    assert(r.deep_view() =~= search_terms(query@, settlement_only));
    r
}

/// How long to wait, in nanoseconds, before a lookup when the last one is `n`
/// nanoseconds ago.
pub open spec fn lookup_wait(n: int) -> int {
    if n < MIN_INTERVAL_MILLIS * 1_000_000 {
        MIN_INTERVAL_MILLIS * 1_000_000 - n
    } else {
        0
    }
}

/// How long to wait before a lookup when the last one is `elapsed` ago.
pub fn wait_before_lookup(elapsed: &Interval) -> (r: Interval)
    ensures
        r@ == lookup_wait(elapsed@),
{
    elapsed.left_of_millis(MIN_INTERVAL_MILLIS)
}

/// Two lookups are never less than the shortest time apart.
pub proof fn law_lookups_keep_their_distance(n: int)
    requires
        n >= 0,
    ensures
        lookup_wait(n) >= 0,
        n + lookup_wait(n) >= MIN_INTERVAL_MILLIS * 1_000_000,
{
}

/// The places of `cache` that were found.
pub open spec fn found_places(cache: Map<Seq<char>, Option<Coord>>) -> Map<
    Seq<char>,
    Option<Coord>,
> {
    Map::new(
        |key: Seq<char>| cache.contains_key(key) && cache[key] is Some,
        |key: Seq<char>| cache[key],
    )
}

/// The places of `cache` that were found. What was not found gets another try
/// on the next start.
pub fn keep_found(cache: &GeoCache) -> (r: GeoCache)
    ensures
        r@ == found_places(cache@),
{
    proof {
        use_type_invariant(cache);
    }
    let mut r: GeoCache = TextMap::new();
    let pairs = cache.pairs();
    let mut i: usize = 0;
    assert(r@ =~= found_places(map_of(pairs@.take(0))));
    while i < pairs.len()
        invariant
            i <= pairs.len(),
            pairs@ == cache.listed(),
            distinct_keys(pairs@),
            r@ == found_places(map_of(pairs@.take(i as int))),
        decreases pairs.len() - i,
    {
        proof {
            lemma_map_take(pairs@, i as int);
        }
        if pairs[i].1.is_some() {
            r.insert(pairs[i].0.clone(), pairs[i].1);
        }
        assert(r@ =~= found_places(map_of(pairs@.take(i + 1))));
        i += 1;
    }
    assert(pairs@.take(i as int) =~= pairs@);
    r
}

} // verus!
