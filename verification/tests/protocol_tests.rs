use floxmeta::codec::serialize;
use floxmeta::document::UserMeta;
use floxmeta::memory::MemoryGit;
use floxmeta::transaction::{Floxmeta, GetUserMetaError, ReadOnly, SetUserMetaError, TransactionError};

const UUID_ZERO: &str = "00000000-0000-0000-0000-000000000000";

fn nixpkgs_doc() -> UserMeta {
    UserMeta::new(
        Some(vec![("nixpkgs".to_string(), "github:NixOS/nixpkgs".to_string())]),
        UUID_ZERO.to_string(),
        1,
    )
    .expect("document should be valid")
}

fn remote_with(doc: &UserMeta) -> MemoryGit {
    MemoryGit::with_remote(Some(serialize(doc)))
}

#[test]
fn user_meta() {
    let git = remote_with(&nixpkgs_doc());
    let mut floxmeta: Floxmeta<MemoryGit, ReadOnly> = Floxmeta::open(git);

    let user_meta = floxmeta.user_meta().expect("Should find floxUserMeta");

    let mut floxmeta = floxmeta
        .enter_transaction()
        .expect("Should enter transaction");
    let cleared = UserMeta::new(
        Some(vec![]),
        user_meta.client_uuid().clone(),
        user_meta.metrics_consent(),
    )
    .expect("cleared document should be valid");
    floxmeta
        .set_user_meta(&cleared)
        .expect("Should set usermeta");
    let mut floxmeta = floxmeta
        .commit_transaction("Write user meta")
        .expect("Should commit transaction");

    let user_meta = floxmeta.user_meta().expect("Should find floxUserMeta");

    assert!(user_meta.channels().as_ref().unwrap().is_empty());
}

#[test]
fn load_on_empty_store_reports_object_not_found() {
    let mut handle: Floxmeta<MemoryGit, ReadOnly> = Floxmeta::open(MemoryGit::with_remote(None));
    match handle.user_meta() {
        Err(GetUserMetaError::Show(_)) => {},
        other => panic!("expected a missing-object failure, got {:?}", other.map(|_| ())),
    }
}

#[test]
fn load_fails_when_synchronize_fails() {
    let mut git = remote_with(&nixpkgs_doc());
    git.fail_fetch = true;
    let mut handle: Floxmeta<MemoryGit, ReadOnly> = Floxmeta::open(git);
    match handle.user_meta() {
        Err(GetUserMetaError::Fetch(_)) => {},
        other => panic!("expected a fetch failure, got {:?}", other.map(|_| ())),
    }
}

#[test]
fn load_reports_parse_failure_distinctly() {
    let mut git = MemoryGit::with_remote(Some("{\"version\":2}".to_string()));
    git.fail_fetch = false;
    let mut handle: Floxmeta<MemoryGit, ReadOnly> = Floxmeta::open(git);
    match handle.user_meta() {
        Err(GetUserMetaError::Deserialize(_)) => {},
        other => panic!("expected a parse failure, got {:?}", other.map(|_| ())),
    }
}

#[test]
fn save_then_finalize_then_load_round_trips() {
    let original = nixpkgs_doc();
    let mut handle: Floxmeta<MemoryGit, ReadOnly> = Floxmeta::open(remote_with(&original));
    let loaded = handle.user_meta().expect("load should succeed");
    assert!(loaded == original);
    assert_eq!(loaded.client_uuid(), UUID_ZERO);

    let updated = UserMeta::new(
        Some(vec![
            ("nixpkgs".to_string(), "github:NixOS/nixpkgs".to_string()),
            ("extra".to_string(), "github:flox/extra".to_string()),
        ]),
        loaded.client_uuid().clone(),
        loaded.metrics_consent(),
    )
    .expect("updated document should be valid");

    let mut tx = handle.enter_transaction().expect("transaction should open");
    tx.set_user_meta(&updated).expect("staging should succeed");
    let mut handle = tx
        .commit_transaction("update channels")
        .expect("finalize should succeed");

    let reloaded = handle.user_meta().expect("reload should succeed");
    let cs = reloaded.channels().as_ref().expect("channels should be present");
    assert_eq!(cs.len(), 2);
    assert_eq!(cs[1].0, "extra");
    assert_eq!(reloaded.metrics_consent(), original.metrics_consent());
}

#[test]
fn conflicting_finalizes_let_exactly_one_writer_win() {
    let base = nixpkgs_doc();
    let text = serialize(&base);

    let mut alice: Floxmeta<MemoryGit, ReadOnly> =
        Floxmeta::open(MemoryGit::with_remote(Some(text.clone())));
    let mut bella: Floxmeta<MemoryGit, ReadOnly> =
        Floxmeta::open(MemoryGit::with_remote(Some(text.clone())));

    let a_doc = alice.user_meta().expect("first load should succeed");
    let b_doc = bella.user_meta().expect("second load should succeed");

    let a_new = UserMeta::new(Some(vec![]), a_doc.client_uuid().clone(), 0)
        .expect("first change should be valid");
    let b_new = UserMeta::new(None, b_doc.client_uuid().clone(), 1)
        .expect("second change should be valid");

    let mut a_tx = alice.enter_transaction().expect("first transaction");
    a_tx.set_user_meta(&a_new).expect("first staging");
    let a_done = a_tx
        .commit_transaction("clear channels")
        .expect("the first finalize succeeds");
    let published = serialize(&a_new);

    // The first writer's finalize reached the shared remote before the
    // second writer's; let the second backend observe that.
    let mut b_git = bella.into_git();
    b_git.overwrite_remote(Some(published));
    let bella: Floxmeta<MemoryGit, ReadOnly> = Floxmeta::open(b_git);

    let mut b_tx = bella.enter_transaction().expect("second transaction");
    b_tx.set_user_meta(&b_new).expect("second staging");
    match b_tx.commit_transaction("set consent") {
        Err(TransactionError::Commit(_)) => {},
        Ok(_) => panic!("the second finalize must fail on the conflict"),
        Err(other) => panic!("expected a commit conflict, got {:?}", other),
    }
    drop(a_done);
}

#[test]
fn staging_failures_map_to_their_stage() {
    let doc = nixpkgs_doc();

    let mut git = remote_with(&doc);
    git.fail_checkout = true;
    let handle: Floxmeta<MemoryGit, ReadOnly> = Floxmeta::open(git);
    match handle.enter_transaction() {
        Err(TransactionError::Prepare(_)) => {},
        Ok(_) => panic!("expected transaction entry to fail"),
        Err(other) => panic!("expected a prepare failure, got {:?}", other),
    }

    let mut git = remote_with(&doc);
    git.fail_write = true;
    let mut tx = Floxmeta::<MemoryGit, ReadOnly>::open(git)
        .enter_transaction()
        .expect("transaction should open");
    match tx.set_user_meta(&doc) {
        Err(SetUserMetaError::OpenUserMetaFile(_)) => {},
        other => panic!("expected a write failure, got {:?}", other),
    }

    let mut git = remote_with(&doc);
    git.fail_add = true;
    let mut tx = Floxmeta::<MemoryGit, ReadOnly>::open(git)
        .enter_transaction()
        .expect("transaction should open");
    match tx.set_user_meta(&doc) {
        Err(SetUserMetaError::Add(_)) => {},
        other => panic!("expected a staging failure, got {:?}", other),
    }
}

#[test]
fn any_handle_can_drop_to_read_only() {
    let handle = Floxmeta::<MemoryGit, ReadOnly>::open(remote_with(&nixpkgs_doc()));
    let tx = handle.enter_transaction().expect("transaction should open");
    let mut ro = tx.as_read_only();
    ro.user_meta().expect("read-only load should succeed");
}

#[test]
fn finalize_with_nothing_staged_fails() {
    let tx = Floxmeta::<MemoryGit, ReadOnly>::open(remote_with(&nixpkgs_doc()))
        .enter_transaction()
        .expect("transaction should open");
    match tx.commit_transaction("empty commit") {
        Err(TransactionError::Commit(_)) => {},
        Ok(_) => panic!("expected finalize of an empty transaction to fail"),
        Err(other) => panic!("expected a commit failure, got {:?}", other),
    }
}
