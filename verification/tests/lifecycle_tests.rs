use media_nft::error::Error;
use media_nft::state::State;

const OWNER: u64 = 1;
const ALICE: u64 = 10;
const BOB: u64 = 11;
const CAROL: u64 = 12;
const DAVE: u64 = 13;

#[test]
fn fresh_state_is_empty() {
    let s = State::new(OWNER);
    assert!(!s.has_completed(ALICE, "m1"));
    assert_eq!(s.owner_of(1), Err(Error::NotFound));
    assert_eq!(s.user_token_ids(ALICE), Vec::<u64>::new());
    assert_eq!(s.group_member_count("m1"), 0);
    let (exists, kind, (uri, name)) = s.media_info("m1");
    assert!(!exists);
    assert_eq!(kind, 0);
    assert_eq!(uri, "");
    assert_eq!(name, "");
}

#[test]
fn record_completion_mints_and_indexes() {
    let mut s = State::new(OWNER);
    let t = s.record_completion(ALICE, "m1").unwrap();
    assert_eq!(t, 1);
    assert!(s.has_completed(ALICE, "m1"));
    assert_eq!(s.owner_of(t), Ok(ALICE));
    assert_eq!(s.user_token_ids(ALICE), vec![1]);
    assert!(!s.has_completed(ALICE, "m2"));
    assert!(!s.has_completed(BOB, "m1"));
}

#[test]
fn record_completion_twice_fails_and_consumes_no_token() {
    let mut s = State::new(OWNER);
    assert_eq!(s.record_completion(ALICE, "m1"), Ok(1));
    assert_eq!(s.record_completion(ALICE, "m1"), Err(Error::AlreadyCompleted));
    // the failed attempt consumed no token identifier
    assert_eq!(s.record_completion(BOB, "m1"), Ok(2));
    assert_eq!(s.user_token_ids(ALICE), vec![1]);
}

#[test]
fn completer_appears_exactly_once() {
    let mut s = State::new(OWNER);
    let ta = s.record_completion(ALICE, "m1").unwrap();
    assert_eq!(s.record_completion(ALICE, "m1"), Err(Error::AlreadyCompleted));
    let _tb = s.record_completion(BOB, "m1").unwrap();
    // seen from Bob's side, Alice is listed once
    let sim = s.get_similars_for_token(ta).unwrap();
    assert_eq!(sim, vec![BOB]);
}

#[test]
fn burn_reverses_mint_completely() {
    let mut s = State::new(OWNER);
    let t = s.record_completion(ALICE, "m1").unwrap();
    let tb = s.record_completion(BOB, "m1").unwrap();
    s.join_group(ALICE, "m1").unwrap();
    assert!(s.is_group_member("m1", ALICE));

    assert_eq!(s.burn(BOB, t), Err(Error::NotOwner));
    s.burn(ALICE, t).unwrap();

    assert_eq!(s.owner_of(t), Err(Error::NotFound));
    assert!(!s.has_completed(ALICE, "m1"));
    assert!(!s.is_group_member("m1", ALICE));
    assert_eq!(s.user_token_ids(ALICE), Vec::<u64>::new());
    // Alice left the completer set: Bob's similars are empty
    assert_eq!(s.get_similars_for_token(tb), Ok(Vec::new()));
    // burned identifiers are never reissued
    assert_eq!(s.record_completion(CAROL, "m9"), Ok(3));
}

#[test]
fn burn_without_group_membership() {
    let mut s = State::new(OWNER);
    let t = s.record_completion(ALICE, "m1").unwrap();
    s.burn(ALICE, t).unwrap();
    assert_eq!(s.owner_of(t), Err(Error::NotFound));
    assert!(!s.has_completed(ALICE, "m1"));
}

#[test]
fn join_group_requires_completion_and_is_idempotent() {
    let mut s = State::new(OWNER);
    assert_eq!(s.join_group(ALICE, "m1"), Err(Error::NotCompleted));
    s.record_completion(ALICE, "m1").unwrap();
    assert!(s.can_join_group(ALICE, "m1"));
    s.join_group(ALICE, "m1").unwrap();
    assert!(!s.can_join_group(ALICE, "m1"));
    // repeat join is a no-op success
    s.join_group(ALICE, "m1").unwrap();
    assert_eq!(s.group_member_count("m1"), 1);
    assert!(s.is_group_member("m1", ALICE));
}

#[test]
fn leave_group_requires_membership() {
    let mut s = State::new(OWNER);
    s.record_completion(ALICE, "m1").unwrap();
    assert_eq!(s.leave_group(ALICE, "m1"), Err(Error::NotMember));
    s.join_group(ALICE, "m1").unwrap();
    s.leave_group(ALICE, "m1").unwrap();
    assert!(!s.is_group_member("m1", ALICE));
    assert_eq!(s.leave_group(ALICE, "m1"), Err(Error::NotMember));
}

#[test]
fn removing_non_last_member_never_resurrects_it() {
    let mut s = State::new(OWNER);
    for u in [ALICE, BOB, CAROL] {
        s.record_completion(u, "m1").unwrap();
        s.join_group(u, "m1").unwrap();
    }
    // Alice sits at the first position; removing her swaps the last member in
    s.leave_group(ALICE, "m1").unwrap();
    assert_eq!(s.group_member_count("m1"), 2);
    assert!(!s.is_group_member("m1", ALICE));
    // appending a new member leaves the removed one absent
    s.record_completion(DAVE, "m1").unwrap();
    s.join_group(DAVE, "m1").unwrap();
    assert_eq!(s.group_member_count("m1"), 3);
    assert!(!s.is_group_member("m1", ALICE));
    // positions enumerate exactly the present members, without gaps
    let mut seen: Vec<u64> = Vec::new();
    for i in 0..s.group_member_count("m1") {
        seen.push(s.group_member_at("m1", i).unwrap());
    }
    seen.sort();
    assert_eq!(seen, vec![BOB, CAROL, DAVE]);
    assert_eq!(s.group_member_at("m1", 3), Err(Error::OutOfRange));
}

#[test]
fn similars_for_token_excludes_owner() {
    let mut s = State::new(OWNER);
    s.record_completion(ALICE, "m1").unwrap();
    let tb = s.record_completion(BOB, "m1").unwrap();
    s.record_completion(CAROL, "m1").unwrap();
    // completers {Alice, Bob, Carol}, token owner Bob: exactly {Alice, Carol}
    assert_eq!(s.get_similars_for_token(tb), Ok(vec![ALICE, CAROL]));
    assert_eq!(s.get_similars_for_token(99), Err(Error::NotFound));
}

#[test]
fn similars_from_tokens_unions_and_deduplicates() {
    let mut s = State::new(OWNER);
    let b1 = s.record_completion(BOB, "m1").unwrap();
    let b2 = s.record_completion(BOB, "m2").unwrap();
    s.record_completion(ALICE, "m1").unwrap();
    s.record_completion(CAROL, "m2").unwrap();
    s.record_completion(ALICE, "m2").unwrap();
    let mut sim = s.get_similars_from_tokens(&vec![b1, b2]).unwrap();
    sim.sort();
    assert_eq!(sim, vec![ALICE, CAROL]);
    assert_eq!(s.get_similars_from_tokens(&Vec::new()), Ok(Vec::new()));
    assert_eq!(s.get_similars_from_tokens(&vec![99]), Err(Error::NotFound));
    let ta = s.user_token_ids(ALICE)[0];
    assert_eq!(s.get_similars_from_tokens(&vec![b1, ta]), Err(Error::NotOwner));
}

#[test]
fn can_text_needs_both_completions() {
    let mut s = State::new(OWNER);
    s.record_completion(ALICE, "m1").unwrap();
    assert!(!s.can_text(ALICE, BOB, "m1"));
    s.record_completion(BOB, "m1").unwrap();
    assert!(s.can_text(ALICE, BOB, "m1"));
    assert!(!s.can_text(ALICE, BOB, "m2"));
}
