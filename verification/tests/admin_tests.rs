use media_nft::error::Error;
use media_nft::media_id::compute_media_id;
use media_nft::state::State;

const OWNER: u64 = 1;
const BACKEND: u64 = 2;
const ALICE: u64 = 10;
const MALLORY: u64 = 66;

#[test]
fn owner_only_operations_reject_others() {
    let mut s = State::new(OWNER);
    assert_eq!(s.set_backend(MALLORY, BACKEND), Err(Error::Unauthorized));
    assert_eq!(s.set_registrar(MALLORY, ALICE, true), Err(Error::Unauthorized));
    assert_eq!(s.set_base_uri(MALLORY, "https://x/"), Err(Error::Unauthorized));
    assert_eq!(s.set_media_uri(MALLORY, "m", "u"), Err(Error::Unauthorized));
    assert_eq!(s.set_media_kind(MALLORY, "m", 1), Err(Error::Unauthorized));
    assert_eq!(s.set_registrar(OWNER, ALICE, true), Ok(()));
}

#[test]
fn backend_gate_moves_with_set_backend() {
    let mut s = State::new(OWNER);
    // at creation the owner also acts as the backend
    let t = s
        .complete_and_register_by_external_id(OWNER, ALICE, 2, "https://e/x", "X")
        .unwrap();
    assert_eq!(t, 1);
    s.set_backend(OWNER, BACKEND).unwrap();
    assert_eq!(
        s.complete_and_register_by_external_id(OWNER, ALICE, 2, "https://e/y", "Y"),
        Err(Error::Unauthorized),
    );
    assert_eq!(
        s.complete_and_register_by_external_id(BACKEND, ALICE, 2, "https://e/y", "Y"),
        Ok(2),
    );
}

#[test]
fn complete_and_register_creates_catalog_entry() {
    let mut s = State::new(OWNER);
    let id = compute_media_id(4, "https://e/book", "A Book");
    assert!(!s.has_completed(ALICE, &id));
    let t = s
        .complete_and_register_by_external_id(OWNER, ALICE, 4, "https://e/book", "A Book")
        .unwrap();
    assert!(s.has_completed(ALICE, &id));
    assert_eq!(s.owner_of(t), Ok(ALICE));
    let (exists, kind, (uri, name)) = s.media_info(&id);
    assert!(exists);
    assert_eq!(kind, 4);
    assert_eq!(uri, "https://e/book");
    assert_eq!(name, "A Book");
    // the same pair cannot complete the same media twice
    assert_eq!(
        s.complete_and_register_by_external_id(OWNER, ALICE, 4, "https://e/book", "A Book"),
        Err(Error::AlreadyCompleted),
    );
    // registration is idempotent: metadata is not overwritten
    s.complete_and_register_by_external_id(OWNER, BACKEND, 4, "https://e/book", "A Book")
        .unwrap();
    let (exists2, kind2, _) = s.media_info(&id);
    assert!(exists2);
    assert_eq!(kind2, 4);
}

#[test]
fn metadata_edits_need_registered_record() {
    let mut s = State::new(OWNER);
    assert_eq!(s.set_media_uri(OWNER, "unknown", "u"), Err(Error::NotFound));
    assert_eq!(s.set_media_kind(OWNER, "unknown", 9), Err(Error::NotFound));
    let id = compute_media_id(6, "https://e/show", "A Show");
    s.complete_and_register_by_external_id(OWNER, ALICE, 6, "https://e/show", "A Show")
        .unwrap();
    s.set_media_uri(OWNER, &id, "https://elsewhere/show").unwrap();
    s.set_media_kind(OWNER, &id, 1).unwrap();
    let (_, kind, (uri, name)) = s.media_info(&id);
    assert_eq!(kind, 1);
    assert_eq!(uri, "https://elsewhere/show");
    assert_eq!(name, "A Show");
}

#[test]
fn token_uri_resolution_order() {
    let mut s = State::new(OWNER);
    assert_eq!(s.token_uri(7), Err(Error::NotFound));
    // a record with an explicit uri wins
    let t1 = s
        .complete_and_register_by_external_id(OWNER, ALICE, 2, "https://e/a", "A")
        .unwrap();
    assert_eq!(s.token_uri(t1), Ok(String::from("https://e/a")));
    // an empty uri falls back to the base prefix plus the media identifier
    let id2 = compute_media_id(2, "", "B");
    let t2 = s
        .complete_and_register_by_external_id(OWNER, ALICE, 2, "", "B")
        .unwrap();
    assert_eq!(s.token_uri(t2), Ok(String::new()));
    s.set_base_uri(OWNER, "https://base/").unwrap();
    assert_eq!(s.token_uri(t2), Ok(format!("https://base/{}", id2)));
    // a token minted without a catalog record behaves like an empty uri
    let t3 = s.record_completion(ALICE, "bare-media").unwrap();
    assert_eq!(s.token_uri(t3), Ok(String::from("https://base/bare-media")));
}
