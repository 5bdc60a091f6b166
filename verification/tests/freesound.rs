use dndsound::freesound::client::{http_failure, Client, DownloadProgress, HttpFailure};
use dndsound::freesound::license::License;
use dndsound::freesound::response::{search_page, sound_response};
use dndsound::freesound::query::{
    attribution, default_licenses, freesound_license_name, license_filter, sound_page_url,
};

#[test]
fn the_licence_urls_freesound_actually_returns_are_recognised() {
    assert_eq!(
        License::from_url("http://creativecommons.org/publicdomain/zero/1.0/"),
        License::Cc0
    );
    assert_eq!(
        License::from_url("http://creativecommons.org/licenses/by/4.0/"),
        License::CcBy
    );
    assert_eq!(
        License::from_url("https://creativecommons.org/licenses/by/3.0/"),
        License::CcBy
    );
    assert_eq!(
        License::from_url("http://creativecommons.org/licenses/by-nc/4.0/"),
        License::CcByNc
    );
    assert_eq!(
        License::from_url("http://creativecommons.org/licenses/by-sa/3.0/"),
        License::CcBySa
    );
    assert_eq!(
        License::from_url("http://creativecommons.org/licenses/sampling+/1.0/"),
        License::SamplingPlus
    );
}

#[test]
fn by_nc_sa_is_treated_as_non_commercial_not_as_share_alike() {
    assert_eq!(
        License::from_url("http://creativecommons.org/licenses/by-nc-sa/4.0/"),
        License::CcByNc
    );
}

#[test]
fn an_unknown_licence_keeps_its_url_and_claims_nothing() {
    let licence = License::from_url("https://example.com/some-bespoke-terms");
    assert!(matches!(licence, License::Other(_)));
    assert!(licence.requires_attribution());
    assert!(!licence.allows_commercial_use());
}

#[test]
fn only_cc_zero_is_free_of_obligations() {
    assert!(!License::Cc0.requires_attribution());
    for licence in [
        License::CcBy,
        License::CcBySa,
        License::CcByNc,
        License::SamplingPlus,
    ] {
        assert!(licence.requires_attribution(), "{licence:?}");
    }
}

#[test]
fn an_unknown_licence_carries_its_url_verbatim() {
    let url = "HTTPS://Example.com/Terms//";
    assert_eq!(License::from_url(url), License::Other(url.to_string()));
    // Case and trailing slashes do not hide a known licence.
    assert_eq!(
        License::from_url("HTTP://CREATIVECOMMONS.ORG/LICENSES/BY-SA/4.0///"),
        License::CcBySa
    );
}

#[test]
fn short_names_match_the_licence() {
    assert_eq!(License::Cc0.short_name(), "CC0");
    assert_eq!(License::CcBySa.short_name(), "CC-BY-SA");
    assert_eq!(License::Other("x".to_string()).short_name(), "other");
    assert!(License::CcBySa.allows_commercial_use());
    assert!(!License::SamplingPlus.allows_commercial_use());
}

#[test]
fn an_empty_licence_list_means_no_licence_filter() {
    assert_eq!(license_filter(&Vec::new()), None);
    assert_eq!(license_filter(&vec![License::Other("x".to_string())]), None);
}

#[test]
fn the_default_licences_are_commercially_usable() {
    let clause = license_filter(&default_licenses()).expect("a clause");
    assert_eq!(
        clause,
        "license:(\"Creative Commons 0\" OR \"Attribution\" OR \"Attribution Share Alike\")"
    );
    assert!(!clause.contains("Noncommercial"));
    assert_eq!(freesound_license_name(&License::CcByNc), Some("Attribution Noncommercial"));
}

#[test]
fn attribution_names_the_author_the_sound_and_the_licence() {
    let credit = attribution(
        "Wooden_Door_Creaking_03",
        "BlondPanda",
        "https://freesound.org/s/778448/",
        &License::CcBy,
    );
    assert!(credit.contains("BlondPanda"));
    assert!(credit.contains("Wooden_Door_Creaking_03"));
    assert!(credit.contains("freesound.org/s/778448"));
    assert!(credit.contains("CC-BY"));
    assert_eq!(
        credit,
        "\"Wooden_Door_Creaking_03\" by BlondPanda \u{2014} https://freesound.org/s/778448/ (CC-BY)"
    );
}

#[test]
fn a_client_keeps_its_key() {
    let client = Client::new("SECRET-REDACTED");
    assert_eq!(client.api_key(), "SECRET-REDACTED");
    let progress = DownloadProgress { downloaded_bytes: 10, total_bytes: Some(20) };
    assert_eq!(progress.total_bytes, Some(20));
}

#[test]
fn a_sound_page_is_addressed_by_its_id() {
    assert_eq!(sound_page_url(778448), "https://freesound.org/s/778448/");
    assert_eq!(sound_page_url(0), "https://freesound.org/s/0/");
}

#[test]
fn refused_credentials_and_rate_limits_are_told_apart_from_other_failures() {
    assert_eq!(http_failure(Some(401)), HttpFailure::Unauthorized);
    assert_eq!(http_failure(Some(403)), HttpFailure::Unauthorized);
    assert_eq!(http_failure(Some(429)), HttpFailure::RateLimited);
    assert_eq!(http_failure(Some(500)), HttpFailure::Request);
    assert_eq!(http_failure(Some(404)), HttpFailure::Request);
    assert_eq!(http_failure(None), HttpFailure::Request);
}

#[test]
fn every_licence_offered_by_default_permits_commercial_use() {
    let licenses = default_licenses();
    assert_eq!(licenses, vec![License::Cc0, License::CcBy, License::CcBySa]);
    assert!(licenses.iter().all(|l| l.allows_commercial_use()));
    assert!(!licenses.contains(&License::CcByNc));
}

#[test]
fn a_search_page_keeps_the_usable_results_in_order() {
    let text = r#"{
        "count": 42,
        "next": "https://freesound.org/apiv2/search/text/?page=2",
        "results": [
            {"id": 1, "name": "door", "username": "ann", "license": "http://creativecommons.org/publicdomain/zero/1.0/",
             "duration": 1.5, "previews": {"preview-hq-mp3": "https://cdn/1.mp3"}},
            {"id": 2, "name": "no preview", "username": "bob", "license": "x", "previews": {}},
            {"id": 3, "name": "bell", "username": null, "license": 7,
             "previews": {"preview-hq-mp3": "https://cdn/3.mp3"}},
            {"name": "no id", "username": "c", "license": "x", "previews": {"preview-hq-mp3": "p"}},
            {"id": 5, "name": "no username", "license": "x", "previews": {"preview-hq-mp3": "p"}}
        ]
    }"#;
    let page = search_page(text, 1).ok().expect("a page");
    assert_eq!(page.total, 42);
    assert_eq!(page.page, 1);
    assert!(page.has_more);
    assert_eq!(page.results.len(), 2);
    assert_eq!(page.results[0].id, 1);
    assert_eq!(page.results[0].username, "ann");
    assert_eq!(page.results[0].duration.as_deref(), Some("1.5"));
    assert_eq!(page.results[0].preview_url, "https://cdn/1.mp3");
    assert_eq!(page.results[1].id, 3);
    assert_eq!(page.results[1].username, "unknown");
    assert_eq!(page.results[1].license_url, "");
    assert_eq!(page.results[1].duration, None);
}

#[test]
fn a_last_page_and_a_missing_count_are_read_as_such() {
    let page = search_page(r#"{"next": null, "results": []}"#, 3).ok().expect("a page");
    assert_eq!(page.total, 0);
    assert!(!page.has_more);
    assert!(page.results.is_empty());
    let page = search_page(r#"{"results": []}"#, 3).ok().expect("a page");
    assert!(!page.has_more);
}

#[test]
fn a_response_without_results_or_json_is_malformed() {
    match search_page(r#"{"count": 1}"#, 1) {
        Err(m) => assert_eq!(m.reason, "no results array"),
        Ok(_) => panic!("no results array"),
    }
    assert!(search_page("not json", 1).is_err());
}

#[test]
fn one_sound_needs_a_high_quality_preview() {
    let ok = r#"{"id": 9, "name": "thunder", "username": "zed", "license": "l", "duration": 3, "previews": {"preview-hq-mp3": "u"}}"#;
    let sound = sound_response(ok, 9).ok().expect("a sound");
    assert_eq!(sound.name, "thunder");
    assert_eq!(sound.duration.as_deref(), Some("3"));
    match sound_response(r#"{"id": 9, "name": "thunder", "username": "zed", "license": "l"}"#, 9) {
        Err(m) => assert_eq!(m.reason, "sound 9 has no high-quality preview"),
        Ok(_) => panic!("no preview"),
    }
}
