use parcli::clock::Interval;
use parcli::geo::{
    keep_found, normalize_place, parse_nominatim, search_params, wait_before_lookup, Coord, GeoError, NominatimResult,
};
use parcli::text_map::TextMap;
use serde_json::Value;

fn coord(lat: f64, lon: f64) -> Coord {
    Coord { lat: lat.to_bits(), lon: lon.to_bits() }
}

/// The results that a JSON body holds.
fn results(body: &str) -> Option<Vec<NominatimResult>> {
    let v: Value = serde_json::from_str(body).ok()?;
    let mut out = vec![];
    for r in v.as_array()? {
        let lat = r.get("lat")?.as_str()?.to_string();
        let lon = r.get("lon")?.as_str()?.to_string();
        let lat_value = lat.parse::<f64>().ok().map(|x| x.to_bits());
        let lon_value = lon.parse::<f64>().ok().map(|x| x.to_bits());
        out.push(NominatimResult { lat, lon, lat_value, lon_value });
    }
    Some(out)
}

#[test]
fn parses_first_result() {
    let body = r#"[{"place_id":1,"lat":"22.5445741","lon":"114.0545429","display_name":"深圳市","addresstype":"city"}]"#;
    assert_eq!(parse_nominatim(&results(body).unwrap()).unwrap(), Some(coord(22.5445741, 114.0545429)));
}

#[test]
fn empty_array_is_none() {
    assert_eq!(parse_nominatim(&results("[]").unwrap()).unwrap(), None);
}

#[test]
fn bad_json_or_bad_numbers_are_errors() {
    assert!(parse_nominatim(&results(r#"[{"lat":"x","lon":"1"}]"#).unwrap()).is_err());
}

#[test]
fn the_latitude_is_read_before_the_longitude() {
    assert_eq!(
        parse_nominatim(&results(r#"[{"lat":"x","lon":"y"}]"#).unwrap()),
        Err(GeoError::InvalidLatitude("x".to_string()))
    );
    assert_eq!(
        parse_nominatim(&results(r#"[{"lat":"1","lon":"y"}]"#).unwrap()),
        Err(GeoError::InvalidLongitude("y".to_string()))
    );
    assert_eq!(
        parse_nominatim(&results(r#"[{"lat":"1","lon":"2"},{"lat":"x","lon":"y"}]"#).unwrap()),
        Ok(Some(coord(1.0, 2.0))),
        "only the first result counts"
    );
}

#[test]
fn normalize_place_collapses_whitespace() {
    assert_eq!(normalize_place("  Roissy   CDG \n"), "Roissy CDG");
}

#[test]
fn normalizing_a_place_twice_changes_nothing() {
    for s in ["", "   ", "a", " a  b\u{a0}c ", "Roissy\tCDG"] {
        let once = normalize_place(s);
        assert_eq!(normalize_place(&once), once);
        assert_eq!(once, s.split_whitespace().collect::<Vec<_>>().join(" "));
    }
}

#[test]
fn lookups_ask_for_one_result_and_for_settlements_if_wanted() {
    let pairs = |q: &str, s: bool| -> Vec<String> {
        search_params(q, s).into_iter().map(|(k, v)| format!("{k}={v}")).collect()
    };
    assert_eq!(pairs("Paris", false), vec!["q=Paris", "format=jsonv2", "limit=1"]);
    assert_eq!(pairs("Paris", true), vec!["q=Paris", "format=jsonv2", "limit=1", "featureType=settlement"]);
}

#[test]
fn lookups_are_spaced() {
    let after = |secs: u64, nanos: u32| wait_before_lookup(&Interval::new(secs, nanos).unwrap());
    assert_eq!((after(0, 0).secs(), after(0, 0).subsec_nanos()), (1, 100_000_000));
    assert_eq!((after(0, 300_000_001).secs(), after(0, 300_000_001).subsec_nanos()), (0, 799_999_999));
    assert_eq!(after(1, 100_000_000), Interval::from_secs(0));
    assert_eq!(after(7, 0), Interval::from_secs(0));
}

#[test]
fn what_was_not_found_is_forgotten() {
    let mut geo = TextMap::new();
    geo.insert("Shenzhen".to_string(), Some(coord(22.5, 114.0)));
    geo.insert("Web Services".to_string(), None);
    geo.insert("Paris".to_string(), Some(coord(48.9, 2.3)));
    let kept = keep_found(&geo);
    assert_eq!(kept.len(), 2);
    assert_eq!(kept.get("Shenzhen"), Some(&Some(coord(22.5, 114.0))));
    assert_eq!(kept.get("Paris"), Some(&Some(coord(48.9, 2.3))));
    assert_eq!(kept.get("Web Services"), None);
}
