use dndsound::models::catalog::{catalog, find, ModelKind, ModelSpec};
use dndsound::models::store::{
    digest_hex, recorded_digest, to_hex, DownloadProgress, ModelError, ModelStore,
};

#[test]
fn ids_are_unique_and_file_names_do_not_collide() {
    let specs = catalog();
    let mut ids: Vec<&str> = specs.iter().map(|s| s.id).collect();
    ids.sort_unstable();
    let count = ids.len();
    ids.dedup();
    assert_eq!(ids.len(), count, "duplicate model id");

    let mut names: Vec<&str> = specs.iter().map(|s| s.file_name).collect();
    names.sort_unstable();
    let count = names.len();
    names.dedup();
    assert_eq!(names.len(), count, "two models would write to the same file");
}

#[test]
fn every_url_is_https_and_every_file_name_is_a_bare_name() {
    for spec in catalog() {
        assert!(spec.url.starts_with("https://"), "{} is not https", spec.id);
        assert!(
            !spec.file_name.contains('/') && !spec.file_name.contains(".."),
            "{} has a file name that could escape the model folder",
            spec.id
        );
        assert!(spec.approx_bytes > 0, "{} has no size", spec.id);
        assert!(!spec.license.is_empty(), "{} has no license", spec.id);
    }
}

#[test]
fn the_defaults_referenced_elsewhere_exist() {
    assert!(find("silero-vad-16k").is_some());
    assert!(find("large-v3-turbo-q5_0").is_some());
    assert!(find("multilingual-e5-small-int8").is_some());
    assert!(find("nope").is_none());
}

#[test]
fn there_is_exactly_one_vad_model_and_it_is_small() {
    let specs = catalog();
    let vad: Vec<&ModelSpec> = specs.iter().filter(|s| s.kind == ModelKind::Vad).collect();
    assert_eq!(vad.len(), 1);
    assert!(vad[0].approx_bytes < 5_000_000, "the VAD model should be tiny");
}

#[test]
fn an_unknown_model_is_reported_by_name() {
    let store = ModelStore::new("/tmp/models");
    assert!(matches!(
        store.require("no-such-model", false),
        Err(ModelError::UnknownModel(id)) if id == "no-such-model"
    ));
    assert!(matches!(
        store.verify("no-such-model", Some(b"bytes".as_slice()), None),
        Err(ModelError::UnknownModel(_))
    ));
}

#[test]
fn a_model_that_is_not_downloaded_says_so_rather_than_returning_a_bad_path() {
    let store = ModelStore::new("/tmp/models");
    assert!(matches!(
        store.require("silero-vad-16k", false),
        Err(ModelError::NotDownloaded { .. })
    ));
    assert!(matches!(
        store.verify("silero-vad-16k", None, None),
        Err(ModelError::NotDownloaded { .. })
    ));
}

#[test]
fn a_present_model_lives_in_the_store_folder() {
    let store = ModelStore::new("/tmp/models");
    let spec = find("silero-vad-16k").expect("spec");
    assert_eq!(store.dir(), "/tmp/models");
    assert_eq!(store.path_of(&spec), "/tmp/models/silero_vad_16k_op15.onnx");
    assert_eq!(store.digest_path(&spec), "/tmp/models/silero_vad_16k_op15.onnx.sha256");
    match store.require("silero-vad-16k", true) {
        Ok(path) => assert_eq!(path, "/tmp/models/silero_vad_16k_op15.onnx"),
        Err(_) => panic!("a present model must be found"),
    }
}

#[test]
fn digests_round_trip_and_detect_corruption() {
    let store = ModelStore::new("/tmp/models");
    let bytes = b"pretend model bytes".as_slice();

    // First verify records the digest.
    let first = store.verify("silero-vad-16k", Some(bytes), None).ok().expect("verify");
    assert_eq!(first.digest.len(), 64);
    assert!(first.record);

    // Same bytes verify again against what was recorded.
    let recorded = format!("{}\n", first.digest);
    let again = store
        .verify("silero-vad-16k", Some(bytes), Some(&recorded))
        .ok()
        .expect("verify");
    assert_eq!(again.digest, first.digest);
    assert!(!again.record);

    // Changed bytes are caught.
    assert!(matches!(
        store.verify("silero-vad-16k", Some(b"corrupted".as_slice()), Some(&recorded)),
        Err(ModelError::ChecksumMismatch { expected, .. }) if expected == first.digest
    ));
}

#[test]
fn sha256_digests_are_the_standard_ones() {
    assert_eq!(
        digest_hex(b"abc"),
        "ba7816bf8f01cfea414140de5dae2223b00361a396177a9cb410ff61f20015ad"
    );
    assert_eq!(
        digest_hex(b""),
        "e3b0c44298fc1c149afbf4c8996fb92427ae41e4649b934ca495991b7852b855"
    );
}

#[test]
fn hex_is_lowercase_two_digits_a_byte() {
    assert_eq!(to_hex(&[0x00, 0x0f, 0xa0, 0xff]), "000fa0ff");
    assert_eq!(to_hex(&[]), "");
}

#[test]
fn a_digest_file_is_read_only_when_it_holds_a_digest() {
    let digest = "e3b0c44298fc1c149afbf4c8996fb92427ae41e4649b934ca495991b7852b855";
    assert_eq!(recorded_digest(&format!("  {digest}\n")), Some(digest.to_string()));
    assert_eq!(recorded_digest("short"), None);
    assert_eq!(recorded_digest(""), None);
    let progress = DownloadProgress { downloaded_bytes: 1, total_bytes: None };
    assert_eq!(progress.downloaded_bytes, 1);
}

use dndsound::models::store::check_download;
use dndsound::text::decimal_text;

#[test]
fn a_truncated_download_is_refused_with_both_sizes() {
    assert!(check_download("silero-vad-16k", Some(10), 10).is_ok());
    assert!(check_download("silero-vad-16k", None, 3).is_ok());
    match check_download("silero-vad-16k", Some(1_289_626), 1_000) {
        Err(ModelError::Download { id, reason }) => {
            assert_eq!(id, "silero-vad-16k");
            assert_eq!(reason, "expected 1289626 bytes but received 1000");
        }
        _ => panic!("a short download must be refused"),
    }
}

#[test]
fn numbers_are_written_in_decimal() {
    assert_eq!(decimal_text(0), "0");
    assert_eq!(decimal_text(7), "7");
    assert_eq!(decimal_text(1_000), "1000");
    assert_eq!(decimal_text(u64::MAX), u64::MAX.to_string());
}
