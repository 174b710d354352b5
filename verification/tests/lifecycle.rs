//! End-to-end exercises of the lifecycle manager: create, edit, publish,
//! delete, and the file-consistency behaviour around each step.

use db::blob::BlobOwner;
use db::engine::QueryEngine;
use db::schema::{MaybeNotFound, MaybeNotFoundForbidden, NotFoundBadRequest, NotFoundForbidden};

fn alice() -> String {
    "alice".to_string()
}

fn bob() -> String {
    "bob".to_string()
}

#[test]
fn create_draft_returns_fresh_empty_summary() {
    let mut engine = QueryEngine::new();
    let s = engine.create_draft(alice());
    assert_eq!(s.article_id, None);
    assert_eq!(s.title, "");
    assert_eq!(s.created_at, s.updated_at);
    let d = engine.get_draft(s.id, alice()).expect("the author sees the new draft");
    assert_eq!(d.title, "");
    assert_eq!(d.content, "");
    assert_eq!(d.article_id, None);
    assert!(d.files.is_empty());
}

#[test]
fn publish_makes_one_edition_and_consumes_the_draft() {
    // create a draft, fill it, publish it with notes
    let mut engine = QueryEngine::new();
    let s = engine.create_draft(alice());
    let did = s.id;
    assert_eq!(
        engine.update_draft(did, alice(), "Hello".to_string(), "World".to_string()),
        MaybeNotFound::Done
    );
    let article_id = engine
        .publish_draft(did, alice(), Some("v1".to_string()))
        .expect("publishing a titled draft succeeds");
    let editions = engine.store.list_edition_ids(article_id);
    assert_eq!(editions.len(), 1);
    let e = engine.get_edition(editions[0]).expect("the edition exists");
    assert_eq!(e.article_id, article_id);
    assert_eq!(e.title, "Hello");
    assert_eq!(e.content, "World");
    assert_eq!(e.notes, "v1");
    assert_eq!(e.editions.len(), 1);
    // the draft is gone
    assert!(engine.get_draft(did, alice()).is_none());
    assert_eq!(
        engine.update_draft(did, alice(), "x".to_string(), "y".to_string()),
        MaybeNotFound::NotFound
    );
}

#[test]
fn blank_title_is_rejected_before_any_mutation() {
    let mut engine = QueryEngine::new();
    let s = engine.create_draft(alice());
    assert_eq!(
        engine.update_draft(s.id, alice(), "   ".to_string(), "body".to_string()),
        MaybeNotFound::Done
    );
    assert_eq!(
        engine.publish_draft(s.id, alice(), None),
        Err(NotFoundBadRequest::Bad)
    );
    // no edition was created and the draft still exists
    let d = engine.get_draft(s.id, alice()).expect("the draft survives");
    assert_eq!(d.title, "   ");
    assert_eq!(d.article_id, None);
}

#[test]
fn empty_title_is_rejected_too() {
    let mut engine = QueryEngine::new();
    let s = engine.create_draft(alice());
    assert_eq!(
        engine.publish_draft(s.id, alice(), None),
        Err(NotFoundBadRequest::Bad)
    );
    assert!(engine.get_draft(s.id, alice()).is_some());
}

#[test]
fn duplicate_file_name_is_a_conflict_with_one_blob() {
    let mut engine = QueryEngine::new();
    let s = engine.create_draft(alice());
    let first = engine.create_file(s.id, "photo.png".to_string(), alice());
    assert!(first.is_ok());
    let second = engine.create_file(s.id, "photo.png".to_string(), alice());
    assert_eq!(second, Err(NotFoundBadRequest::Bad));
    // exactly one blob named photo.png under the draft's directory
    assert_eq!(
        engine
            .blobs
            .count_named(BlobOwner::Draft(s.id), &"photo.png".to_string()),
        1
    );
    // a different name is fine
    assert!(engine.create_file(s.id, "photo2.png".to_string(), alice()).is_ok());
}

#[test]
fn delete_file_reports_done_then_not_found() {
    let mut engine = QueryEngine::new();
    let s = engine.create_draft(alice());
    let fid = engine
        .create_file(s.id, "a.txt".to_string(), alice())
        .expect("attaching to an owned draft succeeds");
    assert!(engine
        .blobs
        .has_path(BlobOwner::Draft(s.id), fid, &"a.txt".to_string()));
    assert_eq!(engine.delete_file(fid, alice()), MaybeNotFound::Done);
    assert!(!engine
        .blobs
        .has_path(BlobOwner::Draft(s.id), fid, &"a.txt".to_string()));
    // the second delete finds nothing and removes nothing
    assert_eq!(engine.delete_file(fid, alice()), MaybeNotFound::NotFound);
}

#[test]
fn draft_operations_hide_existence_from_non_owners() {
    let mut engine = QueryEngine::new();
    let s = engine.create_draft(alice());
    assert_eq!(
        engine.update_draft(s.id, bob(), "t".to_string(), "c".to_string()),
        MaybeNotFound::NotFound
    );
    assert_eq!(engine.delete_draft(s.id, bob()), MaybeNotFound::NotFound);
    assert_eq!(
        engine.publish_draft(s.id, bob(), None),
        Err(NotFoundBadRequest::NotFound)
    );
    assert!(engine.get_draft(s.id, bob()).is_none());
    // the owner still sees it
    assert!(engine.get_draft(s.id, alice()).is_some());
}

#[test]
fn article_deletion_reveals_ownership() {
    let mut engine = QueryEngine::new();
    let s = engine.create_draft(alice());
    engine.update_draft(s.id, alice(), "T".to_string(), "C".to_string());
    let article_id = engine.publish_draft(s.id, alice(), None).unwrap();
    assert_eq!(
        engine.delete_article(article_id, bob()),
        MaybeNotFoundForbidden::Forbidden
    );
    assert_eq!(engine.edit_article(bob(), article_id), Err(NotFoundForbidden::Forbidden));
    assert_eq!(
        engine.delete_article(9999, bob()),
        MaybeNotFoundForbidden::NotFound
    );
    assert_eq!(engine.edit_article(bob(), 9999), Err(NotFoundForbidden::NotFound));
    assert_eq!(
        engine.delete_article(article_id, alice()),
        MaybeNotFoundForbidden::Done
    );
    assert_eq!(
        engine.delete_article(article_id, alice()),
        MaybeNotFoundForbidden::NotFound
    );
}

#[test]
fn deleting_the_last_draft_of_an_unpublished_article_removes_the_article() {
    let mut engine = QueryEngine::new();
    let s = engine.create_draft(alice());
    // the draft's article was minted just before the draft itself
    let article_id = s.id - 1;
    assert!(engine.store.get_article_author_id(article_id).is_some());
    assert_eq!(engine.delete_draft(s.id, alice()), MaybeNotFound::Done);
    assert!(engine.store.get_article_author_id(article_id).is_none());
}

#[test]
fn deleting_a_draft_of_a_published_article_keeps_the_article() {
    let mut engine = QueryEngine::new();
    let s = engine.create_draft(alice());
    engine.update_draft(s.id, alice(), "T".to_string(), "C".to_string());
    let article_id = engine.publish_draft(s.id, alice(), None).unwrap();
    let draft2 = engine.edit_article(alice(), article_id).unwrap();
    assert_eq!(engine.delete_draft(draft2, alice()), MaybeNotFound::Done);
    assert!(engine.store.get_article_author_id(article_id).is_some());
    assert_eq!(engine.store.list_edition_ids(article_id).len(), 1);
}

#[test]
fn edit_then_publish_reproduces_the_edition() {
    let mut engine = QueryEngine::new();
    let s = engine.create_draft(alice());
    engine.update_draft(s.id, alice(), "Hello".to_string(), "World".to_string());
    let fid = engine
        .create_file(s.id, "photo.png".to_string(), alice())
        .unwrap();
    let article_id = engine.publish_draft(s.id, alice(), Some("v1".to_string())).unwrap();
    let e1 = engine.store.list_edition_ids(article_id)[0];

    // reopen for editing: a fresh draft seeded from the edition, with the
    // file copied under a new id
    let draft2 = engine.edit_article(alice(), article_id).unwrap();
    let d = engine.get_draft(draft2, alice()).expect("the new draft is owned");
    assert_eq!(d.title, "Hello");
    assert_eq!(d.content, "World");
    assert_eq!(d.article_id, Some(article_id));
    assert_eq!(d.files.len(), 1);
    assert_eq!(d.files[0].name, "photo.png");
    assert_ne!(d.files[0].id, fid);
    assert!(engine
        .blobs
        .has_path(BlobOwner::Draft(draft2), d.files[0].id, &"photo.png".to_string()));

    // publish unchanged: a second edition with the same title, content and
    // file names, the first untouched
    let article_id2 = engine.publish_draft(draft2, alice(), Some("v2".to_string())).unwrap();
    assert_eq!(article_id2, article_id);
    let eds = engine.store.list_edition_ids(article_id);
    assert_eq!(eds.len(), 2);
    let old = engine.get_edition(e1).expect("the old edition is untouched");
    assert_eq!(old.title, "Hello");
    assert_eq!(old.files.len(), 1);
    assert_eq!(old.files[0].id, fid);
    let e2 = if eds[0] == e1 { eds[1] } else { eds[0] };
    let new = engine.get_edition(e2).expect("the new edition exists");
    assert_eq!(new.title, "Hello");
    assert_eq!(new.content, "World");
    assert_eq!(new.notes, "v2");
    assert_eq!(new.files.len(), 1);
    assert_eq!(new.files[0].name, "photo.png");
    assert_ne!(new.files[0].id, fid);
    assert!(engine
        .blobs
        .has_path(BlobOwner::Edition(e1), fid, &"photo.png".to_string()));
    assert!(engine
        .blobs
        .has_path(BlobOwner::Edition(e2), new.files[0].id, &"photo.png".to_string()));
}

#[test]
fn delete_article_sweeps_editions_drafts_files_and_blobs() {
    let mut engine = QueryEngine::new();
    let s = engine.create_draft(alice());
    engine.update_draft(s.id, alice(), "T".to_string(), "C".to_string());
    engine.create_file(s.id, "a.txt".to_string(), alice()).unwrap();
    let article_id = engine.publish_draft(s.id, alice(), None).unwrap();
    // open a new draft with another file on top of the published edition
    let draft2 = engine.edit_article(alice(), article_id).unwrap();
    engine.create_file(draft2, "b.txt".to_string(), alice()).unwrap();
    assert_eq!(engine.delete_article(article_id, alice()), MaybeNotFoundForbidden::Done);
    assert!(engine.store.get_article_author_id(article_id).is_none());
    assert!(engine.get_draft(draft2, alice()).is_none());
    assert_eq!(engine.store.list_edition_ids(article_id).len(), 0);
    assert_eq!(engine.blobs.blobs.len(), 0);
}

#[test]
fn files_move_from_draft_to_edition_at_publish() {
    let mut engine = QueryEngine::new();
    let s = engine.create_draft(alice());
    engine.update_draft(s.id, alice(), "T".to_string(), "C".to_string());
    let fid = engine.create_file(s.id, "a.txt".to_string(), alice()).unwrap();
    let info = engine.get_file_info(fid, alice()).expect("the owner sees the file");
    assert_eq!(info.draft_id, s.id);
    assert_eq!(info.name, "a.txt");
    assert_eq!(info.author_id, "alice");
    // hidden from others
    assert!(engine.get_file_info(fid, bob()).is_none());
    let article_id = engine.publish_draft(s.id, alice(), None).unwrap();
    let e1 = engine.store.list_edition_ids(article_id)[0];
    // the row now belongs to the edition: no longer draft-owned
    assert!(engine.get_file_info(fid, alice()).is_none());
    assert_eq!(engine.delete_file(fid, alice()), MaybeNotFound::NotFound);
    let e = engine.get_edition(e1).unwrap();
    assert_eq!(e.files.len(), 1);
    assert_eq!(e.files[0].id, fid);
    assert!(engine
        .blobs
        .has_path(BlobOwner::Edition(e1), fid, &"a.txt".to_string()));
    assert!(!engine
        .blobs
        .has_path(BlobOwner::Draft(s.id), fid, &"a.txt".to_string()));
}

#[test]
fn create_file_on_a_foreign_or_missing_draft_is_not_found() {
    let mut engine = QueryEngine::new();
    let s = engine.create_draft(alice());
    assert_eq!(
        engine.create_file(s.id, "a.txt".to_string(), bob()),
        Err(NotFoundBadRequest::NotFound)
    );
    assert_eq!(
        engine.create_file(4242, "a.txt".to_string(), alice()),
        Err(NotFoundBadRequest::NotFound)
    );
}

#[test]
fn get_article_draft_id_is_the_authors_view() {
    let mut engine = QueryEngine::new();
    let s = engine.create_draft(alice());
    engine.update_draft(s.id, alice(), "T".to_string(), "C".to_string());
    let article_id = engine.publish_draft(s.id, alice(), None).unwrap();
    assert_eq!(engine.get_article_draft_id(alice(), article_id), None);
    let draft2 = engine.edit_article(alice(), article_id).unwrap();
    assert_eq!(engine.get_article_draft_id(alice(), article_id), Some(draft2));
    assert_eq!(engine.get_article_draft_id(bob(), article_id), None);
}

#[test]
fn edition_history_is_most_recent_first() {
    let mut engine = QueryEngine::new();
    let s = engine.create_draft(alice());
    engine.update_draft(s.id, alice(), "One".to_string(), "1".to_string());
    let article_id = engine.publish_draft(s.id, alice(), None).unwrap();
    let d2 = engine.edit_article(alice(), article_id).unwrap();
    engine.update_draft(d2, alice(), "Two".to_string(), "2".to_string());
    engine.publish_draft(d2, alice(), None).unwrap();
    let eds = engine.store.list_edition_ids(article_id);
    assert_eq!(eds.len(), 2);
    let latest = engine.get_edition(eds[1]).unwrap();
    assert_eq!(latest.title, "Two");
    assert_eq!(latest.editions.len(), 2);
    // most recent first in the history listing
    assert_eq!(latest.editions[0].title, "Two");
    assert_eq!(latest.editions[1].title, "One");
}
