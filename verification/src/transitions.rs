//! The meaning of every lifecycle operation, as a function from the model
//! of the stores to the model after the operation. The executable
//! operations promise exactly these transitions, and the lifecycle laws
//! are proved about them.

use vstd::prelude::*;

use crate::model::{blob_of, is_blank, latest_edition_idx, lemma_article_lookups_extend,
    lemma_blobs_wf_same, lemma_draft_author_eq, lemma_draft_lookups_eq,
    lemma_draft_lookups_extend, lemma_edition_lookups_extend, lemma_lookups_extend, one_owner,
    owner_of, ArticleM, BlobM, BlobOwnerM, DraftM, EditionM, FileM, StateM, StoreM};
use crate::schema::{CreateFileResult, MaybeNotFound, MaybeNotFoundForbidden, NotFoundBadRequest,
    NotFoundForbidden};

verus! {

/// Inserting a fresh article for `author` and an empty draft of it.
/// Returns the new store and the new draft's id; the new article's id is
/// the draft's id minus one.
pub open spec fn store_create_draft(pre: StoreM, author: Seq<char>) -> (StoreM, int) {
    let aid = pre.next_id;
    let did = pre.next_id + 1;
    let now = pre.clock + 1;
    (
        StoreM {
            articles: pre.articles.push(ArticleM { id: aid, author_id: author }),
            drafts: pre.drafts.push(
                DraftM {
                    id: did,
                    article_id: aid,
                    title: Seq::empty(),
                    content: Seq::empty(),
                    created_at: now,
                    updated_at: now,
                },
            ),
            next_id: pre.next_id + 2,
            clock: now,
            ..pre
        },
        did,
    )
}

/// The latest edition of article `aid`: the row `latest_edition_idx` finds.
pub open spec fn latest_edition_of(pre: StoreM, aid: int) -> EditionM {
    pre.editions[latest_edition_idx(pre.editions, aid)]
}

/// The file rows of the latest edition of article `aid`, in table order.
pub open spec fn latest_edition_files(pre: StoreM, aid: int) -> Seq<FileM> {
    let eid = latest_edition_of(pre, aid).id;
    pre.files.filter(|f: FileM| f.edition_id == Some(eid))
}

/// Inserting a draft seeded with the title and content of the latest
/// edition of article `aid`. Returns the new draft's id.
pub open spec fn store_create_draft_from_article(pre: StoreM, aid: int) -> (StoreM, int) {
    let e = latest_edition_of(pre, aid);
    let did = pre.next_id;
    let now = pre.clock + 1;
    (
        StoreM {
            drafts: pre.drafts.push(
                DraftM {
                    id: did,
                    article_id: aid,
                    title: e.title,
                    content: e.content,
                    created_at: now,
                    updated_at: now,
                },
            ),
            next_id: pre.next_id + 1,
            clock: now,
            ..pre
        },
        did,
    )
}

/// Inserting, for every file row of the latest edition of article `aid`,
/// a fresh row attached to draft `did` with the same name. Returns the
/// new store and, for each copied file, its old id, its new id and its
/// name, in table order of the source rows.
pub open spec fn store_copy_files_to_draft(pre: StoreM, aid: int, did: int) -> (
    StoreM,
    Seq<(int, int, Seq<char>)>,
) {
    let src = latest_edition_files(pre, aid);
    let fresh = Seq::new(
        src.len(),
        |k: int|
            FileM { id: pre.next_id + k, draft_id: Some(did), edition_id: None, name: src[k].name },
    );
    (
        StoreM { files: pre.files + fresh, next_id: pre.next_id + src.len(), ..pre },
        Seq::new(src.len(), |k: int| (src[k].id, pre.next_id + k, src[k].name)),
    )
}

/// Setting the title and content of draft `did`, if it exists and `user`
/// owns it through its article. Returns the number of rows affected.
pub open spec fn store_update_draft(
    pre: StoreM,
    did: int,
    user: Seq<char>,
    title: Seq<char>,
    content: Seq<char>,
) -> (StoreM, i64) {
    if pre.draft_owned(did, user) {
        let now = pre.clock + 1;
        (
            StoreM {
                drafts: pre.drafts.map_values(
                    |d: DraftM|
                        if d.id == did {
                            DraftM { title, content, updated_at: now, ..d }
                        } else {
                            d
                        },
                ),
                clock: now,
                ..pre
            },
            1,
        )
    } else {
        (pre, 0)
    }
}

/// Deleting draft `did` if `user` owns it, cascading to its file rows.
/// Returns the owning article's id when a row was deleted.
pub open spec fn store_delete_draft(pre: StoreM, did: int, user: Seq<char>) -> (
    StoreM,
    Option<int>,
) {
    if pre.draft_owned(did, user) {
        (
            StoreM {
                drafts: pre.drafts.filter(|d: DraftM| d.id != did),
                files: pre.files.filter(|f: FileM| f.draft_id != Some(did)),
                ..pre
            },
            Some(pre.draft_by_id(did).article_id),
        )
    } else {
        (pre, None)
    }
}

/// Deleting article `aid` when it has no published edition. Returns the
/// number of rows affected.
pub open spec fn store_delete_article_if_no_editions(pre: StoreM, aid: int) -> (StoreM, u64) {
    if pre.has_article(aid) && !pre.has_edition_of_article(aid) {
        (StoreM { articles: pre.articles.filter(|a: ArticleM| a.id != aid), ..pre }, 1)
    } else {
        (pre, 0)
    }
}

/// Inserting an edition that snapshots draft `did` with release `notes`.
/// Returns the new store with the owning article's id and the new
/// edition's id.
pub open spec fn store_create_edition_from_draft(pre: StoreM, did: int, notes: Seq<char>) -> (
    StoreM,
    (int, int),
) {
    let d = pre.draft_by_id(did);
    let eid = pre.next_id;
    let now = pre.clock + 1;
    (
        StoreM {
            editions: pre.editions.push(
                EditionM {
                    id: eid,
                    article_id: d.article_id,
                    title: d.title,
                    content: d.content,
                    notes,
                    published_at: now,
                },
            ),
            next_id: pre.next_id + 1,
            clock: now,
            ..pre
        },
        (d.article_id, eid),
    )
}

/// Re-pointing every file row of draft `did` to edition `eid`: the one
/// ownership transfer a file ever makes.
pub open spec fn store_move_draft_files_to_edition(pre: StoreM, did: int, eid: int) -> StoreM {
    StoreM {
        files: pre.files.map_values(
            |f: FileM|
                if f.draft_id == Some(did) {
                    FileM { draft_id: None, edition_id: Some(eid), ..f }
                } else {
                    f
                },
        ),
        ..pre
    }
}

/// Whether draft `did` already has a file named `name`.
pub open spec fn draft_has_file_named(pre: StoreM, did: int, name: Seq<char>) -> bool {
    exists|i: int|
        0 <= i < pre.files.len() && (#[trigger] pre.files[i]).draft_id == Some(did)
            && pre.files[i].name == name
}

/// Inserting a file row named `name` into draft `did`, unless the name is
/// already taken within the draft, which is reported as a conflict.
pub open spec fn store_create_file(pre: StoreM, did: int, name: Seq<char>) -> (
    StoreM,
    CreateFileResult,
) {
    if draft_has_file_named(pre, did, name) {
        (pre, CreateFileResult::NameConflict)
    } else {
        let fid = pre.next_id;
        (
            StoreM {
                files: pre.files.push(
                    FileM { id: fid, draft_id: Some(did), edition_id: None, name },
                ),
                next_id: pre.next_id + 1,
                ..pre
            },
            CreateFileResult::Created(fid as i32),
        )
    }
}

/// Deleting file row `fid`.
pub open spec fn store_delete_file(pre: StoreM, fid: int) -> StoreM {
    StoreM { files: pre.files.filter(|f: FileM| f.id != fid), ..pre }
}

/// What the store reveals about a draft-owned file: the owning author
/// (through draft and article), the file's name, and the owning draft's
/// id. `None` for a missing or edition-owned file.
pub open spec fn file_info_for(pre: StoreM, fid: int) -> Option<(Seq<char>, Seq<char>, int)> {
    if pre.has_file(fid) {
        let f = pre.file_by_id(fid);
        match f.draft_id {
            Some(d) => match pre.draft_author(d) {
                Some(a) => Some((a, f.name, d)),
                None => None,
            },
            None => None,
        }
    } else {
        None
    }
}

/// Deleting article `aid`, cascading to its editions, its open draft, and
/// every file row hanging off either.
pub open spec fn store_delete_article(pre: StoreM, aid: int) -> StoreM {
    StoreM {
        articles: pre.articles.filter(|a: ArticleM| a.id != aid),
        drafts: pre.drafts.filter(|d: DraftM| d.article_id != aid),
        editions: pre.editions.filter(|e: EditionM| e.article_id != aid),
        files: pre.files.filter(|f: FileM| pre.file_article(f) != aid),
        ..pre
    }
}

/// The whole-system transition of a successful `create_draft`.
pub open spec fn create_draft_tr(pre: StateM, author: Seq<char>) -> (StateM, int) {
    let r = store_create_draft(pre.rel, author);
    (StateM { rel: r.0, ..pre }, r.1)
}

/// The whole-system transition of a successful `edit_article`: a draft
/// seeded from the latest edition, a fresh file row for each of that
/// edition's files, and a hard link of each blob into the new draft's
/// directory under the fresh file id.
pub open spec fn edit_article_ok(pre: StateM, aid: int) -> (StateM, int) {
    let r1 = store_create_draft_from_article(pre.rel, aid);
    let r2 = store_copy_files_to_draft(r1.0, aid, r1.1);
    let triples = r2.1;
    let linked = Seq::new(
        triples.len(),
        |k: int| BlobM { owner: BlobOwnerM::Draft(r1.1), file_id: triples[k].1, name: triples[k].2 },
    );
    (StateM { rel: r2.0, blobs: pre.blobs + linked }, r1.1)
}

/// The whole-system transition of `edit_article`, all outcomes.
pub open spec fn edit_article_tr(pre: StateM, aid: int, user: Seq<char>) -> (
    StateM,
    Result<i32, NotFoundForbidden>,
) {
    match pre.rel.article_author(aid) {
        None => (pre, Err(NotFoundForbidden::NotFound)),
        Some(a) => if a != user {
            (pre, Err(NotFoundForbidden::Forbidden))
        } else {
            let r = edit_article_ok(pre, aid);
            (r.0, Ok(r.1 as i32))
        },
    }
}

/// The whole-system transition of `update_draft`.
pub open spec fn update_draft_tr(
    pre: StateM,
    did: int,
    user: Seq<char>,
    title: Seq<char>,
    content: Seq<char>,
) -> (StateM, MaybeNotFound) {
    let r = store_update_draft(pre.rel, did, user, title, content);
    (
        StateM { rel: r.0, ..pre },
        if r.1 == 0 {
            MaybeNotFound::NotFound
        } else {
            MaybeNotFound::Done
        },
    )
}

/// The whole-system transition of `delete_draft`: the draft row and its
/// file rows go, the article goes too when it has no edition, and the
/// draft's blob directory is removed.
pub open spec fn delete_draft_tr(pre: StateM, did: int, user: Seq<char>) -> (
    StateM,
    MaybeNotFound,
) {
    let r = store_delete_draft(pre.rel, did, user);
    match r.1 {
        Some(aid) => (
            StateM {
                rel: store_delete_article_if_no_editions(r.0, aid).0,
                blobs: pre.blobs.filter(|b: BlobM| b.owner != BlobOwnerM::Draft(did)),
            },
            MaybeNotFound::Done,
        ),
        None => (pre, MaybeNotFound::NotFound),
    }
}

/// The whole-system transition of a successful `publish_draft`: an
/// edition snapshots the draft, every file row of the draft is re-pointed
/// to the edition, the draft row goes, and the draft's blob directory is
/// renamed to the edition's.
pub open spec fn publish_draft_ok(pre: StateM, did: int, user: Seq<char>, notes: Seq<char>) -> (
    StateM,
    int,
) {
    let r1 = store_create_edition_from_draft(pre.rel, did, notes);
    let eid = r1.1.1;
    let rel2 = store_move_draft_files_to_edition(r1.0, did, eid);
    let rel3 = store_delete_draft(rel2, did, user).0;
    let blobs = pre.blobs.map_values(
        |b: BlobM|
            if b.owner == BlobOwnerM::Draft(did) {
                BlobM { owner: BlobOwnerM::Edition(eid), ..b }
            } else {
                b
            },
    );
    (StateM { rel: rel3, blobs }, r1.1.0)
}

/// The whole-system transition of `publish_draft`, all outcomes: a
/// missing or foreign draft is hidden as `NotFound`; a blank title is
/// rejected before any mutation.
pub open spec fn publish_draft_tr(pre: StateM, did: int, user: Seq<char>, notes: Seq<char>) -> (
    StateM,
    Result<i32, NotFoundBadRequest>,
) {
    if !pre.rel.draft_owned(did, user) {
        (pre, Err(NotFoundBadRequest::NotFound))
    } else if is_blank(pre.rel.draft_by_id(did).title) {
        (pre, Err(NotFoundBadRequest::Bad))
    } else {
        let r = publish_draft_ok(pre, did, user, notes);
        (r.0, Ok(r.1 as i32))
    }
}

/// The whole-system transition of `delete_article`: ownership is visible
/// here, so a foreign article is `Forbidden`; deletion cascades to
/// editions, the open draft, their file rows, and all their blob
/// directories.
pub open spec fn delete_article_tr(pre: StateM, aid: int, user: Seq<char>) -> (
    StateM,
    MaybeNotFoundForbidden,
) {
    match pre.rel.article_author(aid) {
        None => (pre, MaybeNotFoundForbidden::NotFound),
        Some(a) => if a != user {
            (pre, MaybeNotFoundForbidden::Forbidden)
        } else {
            (
                StateM {
                    rel: store_delete_article(pre.rel, aid),
                    blobs: pre.blobs.filter(
                        |b: BlobM| pre.rel.owner_article(b.owner) != aid,
                    ),
                },
                MaybeNotFoundForbidden::Done,
            )
        },
    }
}

/// The whole-system transition of `create_file`: a foreign or missing
/// draft is hidden as `NotFound`; a taken name is a conflict; otherwise a
/// row is inserted and the uploaded blob moves into the draft's directory
/// under the fresh file id.
pub open spec fn create_file_tr(pre: StateM, did: int, name: Seq<char>, user: Seq<char>) -> (
    StateM,
    Result<i32, NotFoundBadRequest>,
) {
    if pre.rel.draft_author(did) != Some(user) {
        (pre, Err(NotFoundBadRequest::NotFound))
    } else if draft_has_file_named(pre.rel, did, name) {
        (pre, Err(NotFoundBadRequest::Bad))
    } else {
        let fid = pre.rel.next_id;
        (
            StateM {
                rel: store_create_file(pre.rel, did, name).0,
                blobs: pre.blobs.push(BlobM { owner: BlobOwnerM::Draft(did), file_id: fid, name }),
            },
            Ok(fid as i32),
        )
    }
}

/// The whole-system transition of `delete_file`: visible only to the
/// owner of a draft-owned file; the row goes and the blob path goes with
/// it.
pub open spec fn delete_file_tr(pre: StateM, fid: int, user: Seq<char>) -> (StateM, MaybeNotFound) {
    match file_info_for(pre.rel, fid) {
        Some(info) => if info.0 == user {
            (
                StateM {
                    rel: store_delete_file(pre.rel, fid),
                    blobs: pre.blobs.filter(|b: BlobM| b.file_id != fid),
                },
                MaybeNotFound::Done,
            )
        } else {
            (pre, MaybeNotFound::NotFound)
        },
        None => (pre, MaybeNotFound::NotFound),
    }
}

/// `create_draft` preserves well-formedness: the fresh article and its
/// fresh empty draft are minted with unused ids, and the new article has
/// an open draft from the start.
pub proof fn create_draft_tr_preserves_inv(pre: StateM, author: Seq<char>)
    requires
        pre.inv(),
    ensures
        create_draft_tr(pre, author).0.inv(),
{
    let post = create_draft_tr(pre, author).0;
    let a = pre.rel;
    let b = post.rel;
    assert(forall|i: int| 0 <= i < a.articles.len() ==> #[trigger] b.articles[i] == a.articles[i]);
    assert(forall|i: int| 0 <= i < a.drafts.len() ==> #[trigger] b.drafts[i] == a.drafts[i]);
    assert(forall|i: int| 0 <= i < a.editions.len() ==> #[trigger] b.editions[i] == a.editions[i]);
    assert(forall|i: int| 0 <= i < a.files.len() ==> #[trigger] b.files[i] == a.files[i]);
    lemma_lookups_extend(a, b);
    assert(b.ids_bounded());
    assert(b.unique_ids()) by {
        assert forall|i: int, j: int|
            0 <= i < j < b.drafts.len() implies (#[trigger] b.drafts[i]).id != (
        #[trigger] b.drafts[j]).id by {
            if j == b.drafts.len() - 1 {
                assert(b.drafts[i] == a.drafts[i]);
            }
        }
        assert forall|i: int, j: int|
            0 <= i < j < b.articles.len() implies (#[trigger] b.articles[i]).id != (
        #[trigger] b.articles[j]).id by {
            if j == b.articles.len() - 1 {
                assert(b.articles[i] == a.articles[i]);
            }
        }
    }
    assert(b.drafts_wf()) by {
        assert forall|i: int|
            0 <= i < b.drafts.len() implies b.has_article(
            (#[trigger] b.drafts[i]).article_id) by {
            if i < a.drafts.len() {
                assert(b.drafts[i] == a.drafts[i]);
                assert(a.has_article(a.drafts[i].article_id));
            } else {
                assert(b.articles[b.articles.len() - 1].id == a.next_id);
            }
        }
        assert forall|i: int, j: int|
            0 <= i < j < b.drafts.len() implies (#[trigger] b.drafts[i]).article_id != (
        #[trigger] b.drafts[j]).article_id by {
            if j == b.drafts.len() - 1 {
                assert(b.drafts[i] == a.drafts[i]);
                assert(a.has_article(a.drafts[i].article_id));
                let w = choose|k: int|
                    0 <= k < a.articles.len() && (#[trigger] a.articles[k]).id
                        == a.drafts[i].article_id;
                assert(a.articles[w].id < a.next_id);
            }
        }
    }
    assert(b.editions_wf()) by {
        assert forall|i: int| 0 <= i < b.editions.len() implies {
            &&& b.has_article((#[trigger] b.editions[i]).article_id)
            &&& b.editions[i].published_at <= b.clock
            &&& !is_blank(b.editions[i].title)
        } by {
            assert(b.editions[i] == a.editions[i]);
            assert(a.has_article(a.editions[i].article_id));
            assert(a.editions[i].published_at <= a.clock);
        }
        assert forall|i: int, j: int|
            0 <= i < j < b.editions.len() implies (#[trigger] b.editions[i]).published_at < (
        #[trigger] b.editions[j]).published_at by {
            assert(b.editions[i] == a.editions[i] && b.editions[j] == a.editions[j]);
        }
    }
    assert(b.files_wf()) by {
        assert forall|i: int| 0 <= i < b.files.len() implies {
            &&& one_owner(#[trigger] b.files[i])
            &&& match b.files[i].draft_id {
                Some(d) => b.has_draft(d),
                None => true,
            }
            &&& match b.files[i].edition_id {
                Some(e) => b.has_edition(e),
                None => true,
            }
        } by {
            assert(b.files[i] == a.files[i]);
            assert(one_owner(a.files[i]));
        }
        assert forall|i: int, j: int|
            0 <= i < j < b.files.len() && owner_of(#[trigger] b.files[i]) == owner_of(
                #[trigger] b.files[j],
            ) implies b.files[i].name != b.files[j].name by {
            assert(b.files[i] == a.files[i] && b.files[j] == a.files[j]);
        }
    }
    assert(b.no_orphan_articles()) by {
        assert forall|i: int|
            0 <= i < b.articles.len() && !b.has_edition_of_article(
                (#[trigger] b.articles[i]).id,
            ) implies b.has_draft_of_article(b.articles[i].id) by {
            if i < a.articles.len() {
                assert(b.articles[i] == a.articles[i]);
                if a.has_edition_of_article(a.articles[i].id) {
                    assert(b.has_edition_of_article(b.articles[i].id));
                } else {
                    assert(a.has_draft_of_article(a.articles[i].id));
                }
            } else {
                assert(b.drafts[b.drafts.len() - 1].article_id == b.articles[i].id);
            }
        }
    }
    assert(post.blobs_wf()) by {
        assert(post.blobs.len() == pre.blobs.len());
        assert(forall|j: int| 0 <= j < pre.blobs.len() ==> #[trigger] post.blobs[j] == pre.blobs[j]);
        lemma_blobs_wf_same(pre, post);
    }
}

/// `update_draft` preserves well-formedness: only the title, content and
/// update time of one draft row change.
pub proof fn update_draft_tr_preserves_inv(
    pre: StateM,
    did: int,
    user: Seq<char>,
    title: Seq<char>,
    content: Seq<char>,
)
    requires
        pre.inv(),
    ensures
        update_draft_tr(pre, did, user, title, content).0.inv(),
{
    let post = update_draft_tr(pre, did, user, title, content).0;
    let a = pre.rel;
    let b = post.rel;
    if a.draft_owned(did, user) {
        assert(b.drafts.len() == a.drafts.len());
        assert(forall|i: int|
            0 <= i < a.drafts.len() ==> (#[trigger] b.drafts[i]).id == a.drafts[i].id && (
            #[trigger] b.drafts[i]).article_id == a.drafts[i].article_id);
        assert(forall|i: int| 0 <= i < a.articles.len() ==> #[trigger] b.articles[i] == a.articles[i]);
        assert(forall|i: int| 0 <= i < a.editions.len() ==> #[trigger] b.editions[i] == a.editions[i]);
        assert(forall|i: int| 0 <= i < a.files.len() ==> #[trigger] b.files[i] == a.files[i]);
        lemma_draft_lookups_eq(a, b);
        lemma_article_lookups_extend(a, b);
        lemma_edition_lookups_extend(a, b);
        assert(b.ids_bounded()) by {
            assert forall|i: int|
                0 <= i < b.drafts.len() implies 1 <= (#[trigger] b.drafts[i]).id
                < b.next_id by {
                assert(b.drafts[i].id == a.drafts[i].id);
            }
        }
        assert(b.unique_ids()) by {
            assert forall|i: int, j: int|
                0 <= i < j < b.drafts.len() implies (#[trigger] b.drafts[i]).id != (
            #[trigger] b.drafts[j]).id by {
                assert(b.drafts[i].id == a.drafts[i].id && b.drafts[j].id == a.drafts[j].id);
            }
        }
        assert(b.drafts_wf()) by {
            assert forall|i: int|
                0 <= i < b.drafts.len() implies b.has_article(
                (#[trigger] b.drafts[i]).article_id) by {
                assert(b.drafts[i].article_id == a.drafts[i].article_id);
                assert(a.has_article(a.drafts[i].article_id));
            }
            assert forall|i: int, j: int|
                0 <= i < j < b.drafts.len() implies (#[trigger] b.drafts[i]).article_id != (
            #[trigger] b.drafts[j]).article_id by {
                assert(b.drafts[i].article_id == a.drafts[i].article_id && b.drafts[j].article_id
                    == a.drafts[j].article_id);
            }
        }
        assert(b.editions_wf()) by {
            assert forall|i: int| 0 <= i < b.editions.len() implies {
                &&& b.has_article((#[trigger] b.editions[i]).article_id)
                &&& b.editions[i].published_at <= b.clock
                &&& !is_blank(b.editions[i].title)
            } by {
                assert(b.editions[i] == a.editions[i]);
                assert(a.has_article(a.editions[i].article_id));
                assert(a.editions[i].published_at <= a.clock);
            }
            assert forall|i: int, j: int|
                0 <= i < j < b.editions.len() implies (#[trigger] b.editions[i]).published_at < (
            #[trigger] b.editions[j]).published_at by {
                assert(b.editions[i] == a.editions[i] && b.editions[j] == a.editions[j]);
            }
        }
        assert(b.files_wf()) by {
            assert forall|i: int| 0 <= i < b.files.len() implies {
                &&& one_owner(#[trigger] b.files[i])
                &&& match b.files[i].draft_id {
                    Some(d) => b.has_draft(d),
                    None => true,
                }
                &&& match b.files[i].edition_id {
                    Some(e) => b.has_edition(e),
                    None => true,
                }
            } by {
                assert(b.files[i] == a.files[i]);
                assert(one_owner(a.files[i]));
            }
            assert forall|i: int, j: int|
                0 <= i < j < b.files.len() && owner_of(#[trigger] b.files[i]) == owner_of(
                    #[trigger] b.files[j],
                ) implies b.files[i].name != b.files[j].name by {
                assert(b.files[i] == a.files[i] && b.files[j] == a.files[j]);
            }
        }
        assert(b.no_orphan_articles()) by {
            assert forall|i: int|
                0 <= i < b.articles.len() && !b.has_edition_of_article(
                    (#[trigger] b.articles[i]).id,
                ) implies b.has_draft_of_article(b.articles[i].id) by {
                assert(b.articles[i] == a.articles[i]);
                if a.has_edition_of_article(a.articles[i].id) {
                    assert(b.has_edition_of_article(b.articles[i].id));
                } else {
                    assert(a.has_draft_of_article(a.articles[i].id));
                }
            }
        }
        assert(post.blobs_wf()) by {
            assert(post.blobs.len() == pre.blobs.len());
            assert(forall|j: int|
                0 <= j < pre.blobs.len() ==> #[trigger] post.blobs[j] == pre.blobs[j]);
            lemma_blobs_wf_same(pre, post);
        }
    }
}

/// `create_file` preserves well-formedness: the new row carries a fresh
/// id, names the one draft it belongs to, and its blob is placed at the
/// derived path in the same step.
pub proof fn create_file_tr_preserves_inv(pre: StateM, did: int, name: Seq<char>, user: Seq<char>)
    requires
        pre.inv(),
    ensures
        create_file_tr(pre, did, name, user).0.inv(),
{
    let post = create_file_tr(pre, did, name, user).0;
    let a = pre.rel;
    let b = post.rel;
    if a.draft_author(did) == Some(user) && !draft_has_file_named(a, did, name) {
        let f = FileM { id: a.next_id, draft_id: Some(did), edition_id: None, name };
        assert(forall|i: int| 0 <= i < a.articles.len() ==> #[trigger] b.articles[i] == a.articles[i]);
        assert(forall|i: int| 0 <= i < a.drafts.len() ==> #[trigger] b.drafts[i] == a.drafts[i]);
        assert(forall|i: int| 0 <= i < a.editions.len() ==> #[trigger] b.editions[i] == a.editions[i]);
        assert(forall|i: int| 0 <= i < a.files.len() ==> #[trigger] b.files[i] == a.files[i]);
        assert(b.files.last() == f);
        assert(a.has_draft(did));
        lemma_lookups_extend(a, b);
        assert(b.ids_bounded());
        assert(b.unique_ids()) by {
            assert forall|i: int, j: int|
                0 <= i < j < b.files.len() implies (#[trigger] b.files[i]).id != (
            #[trigger] b.files[j]).id by {
                if j == b.files.len() - 1 {
                    assert(b.files[i] == a.files[i]);
                }
            }
            assert forall|i: int, j: int|
                0 <= i < j < b.drafts.len() implies (#[trigger] b.drafts[i]).id != (
            #[trigger] b.drafts[j]).id by {
                assert(b.drafts[i] == a.drafts[i] && b.drafts[j] == a.drafts[j]);
            }
            assert forall|i: int, j: int|
                0 <= i < j < b.articles.len() implies (#[trigger] b.articles[i]).id != (
            #[trigger] b.articles[j]).id by {
                assert(b.articles[i] == a.articles[i] && b.articles[j] == a.articles[j]);
            }
            assert forall|i: int, j: int|
                0 <= i < j < b.editions.len() implies (#[trigger] b.editions[i]).id != (
            #[trigger] b.editions[j]).id by {
                assert(b.editions[i] == a.editions[i] && b.editions[j] == a.editions[j]);
            }
        }
        assert(b.drafts_wf()) by {
            assert forall|i: int|
                0 <= i < b.drafts.len() implies b.has_article(
                (#[trigger] b.drafts[i]).article_id) by {
                assert(b.drafts[i] == a.drafts[i]);
                assert(a.has_article(a.drafts[i].article_id));
            }
            assert forall|i: int, j: int|
                0 <= i < j < b.drafts.len() implies (#[trigger] b.drafts[i]).article_id != (
            #[trigger] b.drafts[j]).article_id by {
                assert(b.drafts[i] == a.drafts[i] && b.drafts[j] == a.drafts[j]);
            }
        }
        assert(b.editions_wf()) by {
            assert forall|i: int| 0 <= i < b.editions.len() implies {
                &&& b.has_article((#[trigger] b.editions[i]).article_id)
                &&& b.editions[i].published_at <= b.clock
                &&& !is_blank(b.editions[i].title)
            } by {
                assert(b.editions[i] == a.editions[i]);
                assert(a.has_article(a.editions[i].article_id));
                assert(a.editions[i].published_at <= a.clock);
            }
            assert forall|i: int, j: int|
                0 <= i < j < b.editions.len() implies (#[trigger] b.editions[i]).published_at < (
            #[trigger] b.editions[j]).published_at by {
                assert(b.editions[i] == a.editions[i] && b.editions[j] == a.editions[j]);
            }
        }
        assert(b.files_wf()) by {
            assert forall|i: int| 0 <= i < b.files.len() implies {
                &&& one_owner(#[trigger] b.files[i])
                &&& match b.files[i].draft_id {
                    Some(d) => b.has_draft(d),
                    None => true,
                }
                &&& match b.files[i].edition_id {
                    Some(e) => b.has_edition(e),
                    None => true,
                }
            } by {
                if i < a.files.len() {
                    assert(b.files[i] == a.files[i]);
                    assert(one_owner(a.files[i]));
                } else {
                    assert(b.files[i] == f);
                }
            }
            assert forall|i: int, j: int|
                0 <= i < j < b.files.len() && owner_of(#[trigger] b.files[i]) == owner_of(
                    #[trigger] b.files[j],
                ) implies b.files[i].name != b.files[j].name by {
                if j == b.files.len() - 1 {
                    assert(b.files[i] == a.files[i]);
                    if owner_of(a.files[i]) == owner_of(f) && a.files[i].name == name {
                        assert(a.files[i].draft_id == Some(did));
                        assert(draft_has_file_named(a, did, name));
                    }
                } else {
                    assert(b.files[i] == a.files[i] && b.files[j] == a.files[j]);
                }
            }
        }
        assert(b.no_orphan_articles()) by {
            assert forall|i: int|
                0 <= i < b.articles.len() && !b.has_edition_of_article(
                    (#[trigger] b.articles[i]).id,
                ) implies b.has_draft_of_article(b.articles[i].id) by {
                assert(b.articles[i] == a.articles[i]);
                if a.has_edition_of_article(a.articles[i].id) {
                    assert(b.has_edition_of_article(b.articles[i].id));
                } else {
                    assert(a.has_draft_of_article(a.articles[i].id));
                }
            }
        }
        // blobs: old rows keep their blobs, the new row's blob was pushed
        assert(forall|j: int| 0 <= j < pre.blobs.len() ==> #[trigger] post.blobs[j] == pre.blobs[j]);
        assert(post.blobs.last() == blob_of(f));
        assert forall|j: int|
            0 <= j < pre.blobs.len() implies (#[trigger] pre.blobs[j]).file_id < a.next_id by {
            let i = choose|i: int|
                0 <= i < a.files.len() && blob_of(#[trigger] a.files[i]) == pre.blobs[j];
            assert(a.files[i].id < a.next_id);
        }
        assert(post.blobs_wf()) by {
            assert forall|i: int| 0 <= i < b.files.len() implies post.blobs.contains(
                blob_of(#[trigger] b.files[i]),
            ) by {
                if i < a.files.len() {
                    assert(b.files[i] == a.files[i]);
                    let j = choose|j: int|
                        0 <= j < pre.blobs.len() && pre.blobs[j] == blob_of(a.files[i]);
                    assert(post.blobs[j] == blob_of(b.files[i]));
                } else {
                    assert(post.blobs[post.blobs.len() - 1] == blob_of(b.files[i]));
                }
            }
            assert forall|j: int| 0 <= j < post.blobs.len() implies exists|i: int|
                0 <= i < b.files.len() && blob_of(#[trigger] b.files[i]) == (
                #[trigger] post.blobs[j]) by {
                if j < pre.blobs.len() {
                    let i = choose|i: int|
                        0 <= i < a.files.len() && blob_of(#[trigger] a.files[i]) == pre.blobs[j];
                    assert(blob_of(b.files[i]) == post.blobs[j]);
                } else {
                    assert(blob_of(b.files[b.files.len() - 1]) == post.blobs[j]);
                }
            }
            assert forall|j: int, k: int|
                0 <= j < k < post.blobs.len() implies (#[trigger] post.blobs[j]).file_id != (
            #[trigger] post.blobs[k]).file_id by {
                if k == post.blobs.len() - 1 {
                    assert(post.blobs[j] == pre.blobs[j]);
                } else {
                    assert(post.blobs[j] == pre.blobs[j] && post.blobs[k] == pre.blobs[k]);
                }
            }
        }
    }
}

/// `delete_file` preserves well-formedness: the one row with the deleted
/// id goes, and exactly the one blob keyed by that id goes with it.
pub proof fn delete_file_tr_preserves_inv(pre: StateM, fid: int, user: Seq<char>)
    requires
        pre.inv(),
    ensures
        delete_file_tr(pre, fid, user).0.inv(),
{
    let post = delete_file_tr(pre, fid, user).0;
    let a = pre.rel;
    let b = post.rel;
    let r = file_info_for(a, fid);
    let info = r->0;
    if r is Some && info.0 == user {
        let fp = |f: FileM| f.id != fid;
        let bp = |b0: BlobM| b0.file_id != fid;
        let rid = |x: FileM, y: FileM| x.id != y.id;
        let rnm = |x: FileM, y: FileM| owner_of(x) == owner_of(y) ==> x.name != y.name;
        let rbid = |x: BlobM, y: BlobM| x.file_id != y.file_id;
        assert(b.files == a.files.filter(fp));
        assert(post.blobs == pre.blobs.filter(bp));
        crate::seq_util::lemma_filter_elems(a.files, fp);
        crate::seq_util::lemma_filter_elems(pre.blobs, bp);
        assert(forall|i: int, j: int| 0 <= i < j < a.files.len() ==> #[trigger] rid(
            a.files[i], a.files[j]));
        crate::seq_util::lemma_filter_pairwise(a.files, fp, rid);
        assert(forall|i: int, j: int| 0 <= i < j < a.files.len() ==> #[trigger] rnm(
            a.files[i], a.files[j]));
        crate::seq_util::lemma_filter_pairwise(a.files, fp, rnm);
        assert(forall|i: int, j: int| 0 <= i < j < pre.blobs.len() ==> #[trigger] rbid(
            pre.blobs[i], pre.blobs[j]));
        crate::seq_util::lemma_filter_pairwise(pre.blobs, bp, rbid);
        assert(forall|i: int| 0 <= i < a.articles.len() ==> #[trigger] b.articles[i] == a.articles[i]);
        assert(forall|i: int| 0 <= i < a.drafts.len() ==> #[trigger] b.drafts[i] == a.drafts[i]);
        assert(forall|i: int| 0 <= i < a.editions.len() ==> #[trigger] b.editions[i] == a.editions[i]);
        lemma_lookups_extend(a, b);
        assert(b.ids_bounded()) by {
            assert forall|i: int|
                0 <= i < b.files.len() implies 1 <= (#[trigger] b.files[i]).id < b.next_id by {
                let w = choose|w: int| 0 <= w < a.files.len() && a.files[w] == b.files[i];
                assert(1 <= a.files[w].id < a.next_id);
            }
        }
        assert(b.unique_ids()) by {
            assert forall|i: int, j: int|
                0 <= i < j < b.files.len() implies (#[trigger] b.files[i]).id != (
            #[trigger] b.files[j]).id by {
                assert(rid(b.files[i], b.files[j]));
            }
            assert forall|i: int, j: int|
                0 <= i < j < b.drafts.len() implies (#[trigger] b.drafts[i]).id != (
            #[trigger] b.drafts[j]).id by {
                assert(b.drafts[i] == a.drafts[i] && b.drafts[j] == a.drafts[j]);
            }
            assert forall|i: int, j: int|
                0 <= i < j < b.articles.len() implies (#[trigger] b.articles[i]).id != (
            #[trigger] b.articles[j]).id by {
                assert(b.articles[i] == a.articles[i] && b.articles[j] == a.articles[j]);
            }
            assert forall|i: int, j: int|
                0 <= i < j < b.editions.len() implies (#[trigger] b.editions[i]).id != (
            #[trigger] b.editions[j]).id by {
                assert(b.editions[i] == a.editions[i] && b.editions[j] == a.editions[j]);
            }
        }
        assert(b.drafts_wf()) by {
            assert forall|i: int|
                0 <= i < b.drafts.len() implies b.has_article(
                (#[trigger] b.drafts[i]).article_id) by {
                assert(b.drafts[i] == a.drafts[i]);
                assert(a.has_article(a.drafts[i].article_id));
            }
            assert forall|i: int, j: int|
                0 <= i < j < b.drafts.len() implies (#[trigger] b.drafts[i]).article_id != (
            #[trigger] b.drafts[j]).article_id by {
                assert(b.drafts[i] == a.drafts[i] && b.drafts[j] == a.drafts[j]);
            }
        }
        assert(b.editions_wf()) by {
            assert forall|i: int| 0 <= i < b.editions.len() implies {
                &&& b.has_article((#[trigger] b.editions[i]).article_id)
                &&& b.editions[i].published_at <= b.clock
                &&& !is_blank(b.editions[i].title)
            } by {
                assert(b.editions[i] == a.editions[i]);
                assert(a.has_article(a.editions[i].article_id));
                assert(a.editions[i].published_at <= a.clock);
            }
            assert forall|i: int, j: int|
                0 <= i < j < b.editions.len() implies (#[trigger] b.editions[i]).published_at < (
            #[trigger] b.editions[j]).published_at by {
                assert(b.editions[i] == a.editions[i] && b.editions[j] == a.editions[j]);
            }
        }
        assert(b.files_wf()) by {
            assert forall|i: int| 0 <= i < b.files.len() implies {
                &&& one_owner(#[trigger] b.files[i])
                &&& match b.files[i].draft_id {
                    Some(d) => b.has_draft(d),
                    None => true,
                }
                &&& match b.files[i].edition_id {
                    Some(e) => b.has_edition(e),
                    None => true,
                }
            } by {
                let w = choose|w: int| 0 <= w < a.files.len() && a.files[w] == b.files[i];
                assert(one_owner(a.files[w]));
                match a.files[w].draft_id {
                    Some(d) => {
                        assert(a.has_draft(d));
                    },
                    None => {},
                }
                match a.files[w].edition_id {
                    Some(e) => {
                        assert(a.has_edition(e));
                    },
                    None => {},
                }
            }
            assert forall|i: int, j: int|
                0 <= i < j < b.files.len() && owner_of(#[trigger] b.files[i]) == owner_of(
                    #[trigger] b.files[j],
                ) implies b.files[i].name != b.files[j].name by {
                assert(rnm(b.files[i], b.files[j]));
            }
        }
        assert(b.no_orphan_articles()) by {
            assert forall|i: int|
                0 <= i < b.articles.len() && !b.has_edition_of_article(
                    (#[trigger] b.articles[i]).id,
                ) implies b.has_draft_of_article(b.articles[i].id) by {
                assert(b.articles[i] == a.articles[i]);
                if a.has_edition_of_article(a.articles[i].id) {
                    assert(b.has_edition_of_article(b.articles[i].id));
                } else {
                    assert(a.has_draft_of_article(a.articles[i].id));
                }
            }
        }
        assert(post.blobs_wf()) by {
            assert forall|i: int| 0 <= i < b.files.len() implies post.blobs.contains(
                blob_of(#[trigger] b.files[i]),
            ) by {
                let w = choose|w: int| 0 <= w < a.files.len() && a.files[w] == b.files[i];
                let j = choose|j: int|
                    0 <= j < pre.blobs.len() && pre.blobs[j] == blob_of(a.files[w]);
                assert(pre.blobs[j].file_id == a.files[w].id && a.files[w].id != fid);
                pre.blobs.lemma_filter_contains(bp, j);
            }
            assert forall|j: int| 0 <= j < post.blobs.len() implies exists|i: int|
                0 <= i < b.files.len() && blob_of(#[trigger] b.files[i]) == (
                #[trigger] post.blobs[j]) by {
                let w = choose|w: int| 0 <= w < pre.blobs.len() && pre.blobs[w] == post.blobs[j];
                let i = choose|i: int|
                    0 <= i < a.files.len() && blob_of(#[trigger] a.files[i]) == pre.blobs[w];
                assert(a.files[i].id == pre.blobs[w].file_id && a.files[i].id != fid);
                a.files.lemma_filter_contains(fp, i);
                let k = choose|k: int| 0 <= k < b.files.len() && b.files[k] == a.files[i];
                assert(blob_of(b.files[k]) == post.blobs[j]);
            }
            assert forall|j: int, k: int|
                0 <= j < k < post.blobs.len() implies (#[trigger] post.blobs[j]).file_id != (
            #[trigger] post.blobs[k]).file_id by {
                assert(rbid(post.blobs[j], post.blobs[k]));
            }
        }
    }
}

/// `delete_draft` preserves well-formedness: the draft row, its file
/// rows and its blob directory go together, and an article left with no
/// edition and no draft is cascade-deleted rather than orphaned.
#[verifier::rlimit(60)]
pub proof fn delete_draft_tr_preserves_inv(pre: StateM, did: int, user: Seq<char>)
    requires
        pre.inv(),
    ensures
        delete_draft_tr(pre, did, user).0.inv(),
{
    let post = delete_draft_tr(pre, did, user).0;
    let a = pre.rel;
    let b = post.rel;
    if a.draft_owned(did, user) {
        let aid = a.draft_by_id(did).article_id;
        let dx = a.draft_idx(did);
        assert(0 <= dx < a.drafts.len() && a.drafts[dx].id == did && a.drafts[dx].article_id
            == aid);
        let dp = |d: DraftM| d.id != did;
        let fp = |f: FileM| f.draft_id != Some(did);
        let bp = |b0: BlobM| b0.owner != BlobOwnerM::Draft(did);
        let ap = |x: ArticleM| x.id != aid;
        let rel1 = store_delete_draft(a, did, user).0;
        assert(rel1.articles == a.articles && rel1.editions == a.editions);
        assert(forall|i: int|
            0 <= i < a.articles.len() ==> #[trigger] rel1.articles[i] == a.articles[i]);
        assert(forall|i: int|
            0 <= i < a.editions.len() ==> #[trigger] rel1.editions[i] == a.editions[i]);
        assert(rel1.has_article(aid)) by {
            let w = choose|w: int|
                0 <= w < a.articles.len() && (#[trigger] a.articles[w]).id == aid;
            assert(rel1.articles[w].id == aid);
        }
        let delart = !rel1.has_edition_of_article(aid);
        assert(delart == !a.has_edition_of_article(aid)) by {
            if a.has_edition_of_article(aid) {
                let w = choose|w: int|
                    0 <= w < a.editions.len() && (#[trigger] a.editions[w]).article_id == aid;
                assert(rel1.editions[w].article_id == aid);
            }
            if rel1.has_edition_of_article(aid) {
                let w = choose|w: int|
                    0 <= w < rel1.editions.len() && (#[trigger] rel1.editions[w]).article_id
                        == aid;
                assert(a.editions[w].article_id == aid);
            }
        }
        assert(b.drafts == a.drafts.filter(dp));
        assert(b.files == a.files.filter(fp));
        assert(b.editions == a.editions);
        assert(post.blobs == pre.blobs.filter(bp));
        if delart {
            assert(b.articles == a.articles.filter(ap));
            crate::seq_util::lemma_filter_elems(a.articles, ap);
            let rida = |x: ArticleM, y: ArticleM| x.id != y.id;
            assert(forall|i: int, j: int|
                0 <= i < j < a.articles.len() ==> #[trigger] rida(a.articles[i], a.articles[j]));
            crate::seq_util::lemma_filter_pairwise(a.articles, ap, rida);
        } else {
            assert(b.articles == a.articles);
        }
        crate::seq_util::lemma_filter_elems(a.drafts, dp);
        crate::seq_util::lemma_filter_elems(a.files, fp);
        crate::seq_util::lemma_filter_elems(pre.blobs, bp);
        let ridd = |x: DraftM, y: DraftM| x.id != y.id;
        let rart = |x: DraftM, y: DraftM| x.article_id != y.article_id;
        let ridf = |x: FileM, y: FileM| x.id != y.id;
        let rnm = |x: FileM, y: FileM| owner_of(x) == owner_of(y) ==> x.name != y.name;
        let rbid = |x: BlobM, y: BlobM| x.file_id != y.file_id;
        assert(forall|i: int, j: int|
            0 <= i < j < a.drafts.len() ==> #[trigger] ridd(a.drafts[i], a.drafts[j]));
        crate::seq_util::lemma_filter_pairwise(a.drafts, dp, ridd);
        assert(forall|i: int, j: int|
            0 <= i < j < a.drafts.len() ==> #[trigger] rart(a.drafts[i], a.drafts[j]));
        crate::seq_util::lemma_filter_pairwise(a.drafts, dp, rart);
        assert(forall|i: int, j: int|
            0 <= i < j < a.files.len() ==> #[trigger] ridf(a.files[i], a.files[j]));
        crate::seq_util::lemma_filter_pairwise(a.files, fp, ridf);
        assert(forall|i: int, j: int|
            0 <= i < j < a.files.len() ==> #[trigger] rnm(a.files[i], a.files[j]));
        crate::seq_util::lemma_filter_pairwise(a.files, fp, rnm);
        assert(forall|i: int, j: int|
            0 <= i < j < pre.blobs.len() ==> #[trigger] rbid(pre.blobs[i], pre.blobs[j]));
        crate::seq_util::lemma_filter_pairwise(pre.blobs, bp, rbid);
        // an article other than `aid` is never removed
        assert forall|x: int| x != aid && a.has_article(x) implies b.has_article(x) by {
            let w = choose|w: int| 0 <= w < a.articles.len() && (#[trigger] a.articles[w]).id == x;
            if delart {
                a.articles.lemma_filter_contains(ap, w);
                let k = choose|k: int|
                    0 <= k < b.articles.len() && b.articles[k] == a.articles[w];
                assert(b.articles[k].id == x);
            } else {
                assert(b.articles[w].id == x);
            }
        }
        // a draft other than the deleted one survives
        assert forall|w: int| 0 <= w < a.drafts.len() && a.drafts[w].id != did implies
            b.has_draft(a.drafts[w].id) && b.has_draft_of_article(a.drafts[w].article_id) by {
            a.drafts.lemma_filter_contains(dp, w);
            let k = choose|k: int| 0 <= k < b.drafts.len() && b.drafts[k] == a.drafts[w];
            assert(b.drafts[k].id == a.drafts[w].id);
        }
        assert(b.ids_bounded()) by {
            assert forall|i: int|
                0 <= i < b.articles.len() implies 1 <= (#[trigger] b.articles[i]).id
                < b.next_id by {
                let w = choose|w: int| 0 <= w < a.articles.len() && a.articles[w] == b.articles[i];
                assert(1 <= a.articles[w].id < a.next_id);
            }
            assert forall|i: int|
                0 <= i < b.drafts.len() implies 1 <= (#[trigger] b.drafts[i]).id < b.next_id by {
                let w = choose|w: int| 0 <= w < a.drafts.len() && a.drafts[w] == b.drafts[i];
                assert(1 <= a.drafts[w].id < a.next_id);
            }
            assert forall|i: int|
                0 <= i < b.editions.len() implies 1 <= (#[trigger] b.editions[i]).id
                < b.next_id by {
                assert(b.editions[i] == a.editions[i]);
            }
            assert forall|i: int|
                0 <= i < b.files.len() implies 1 <= (#[trigger] b.files[i]).id < b.next_id by {
                let w = choose|w: int| 0 <= w < a.files.len() && a.files[w] == b.files[i];
                assert(1 <= a.files[w].id < a.next_id);
            }
        }
        assert(b.unique_ids()) by {
            assert forall|i: int, j: int|
                0 <= i < j < b.articles.len() implies (#[trigger] b.articles[i]).id != (
            #[trigger] b.articles[j]).id by {
                if delart {
                    let rida = |x: ArticleM, y: ArticleM| x.id != y.id;
                    assert(rida(b.articles[i], b.articles[j]));
                } else {
                    assert(b.articles[i] == a.articles[i] && b.articles[j] == a.articles[j]);
                }
            }
            assert forall|i: int, j: int|
                0 <= i < j < b.drafts.len() implies (#[trigger] b.drafts[i]).id != (
            #[trigger] b.drafts[j]).id by {
                assert(ridd(b.drafts[i], b.drafts[j]));
            }
            assert forall|i: int, j: int|
                0 <= i < j < b.editions.len() implies (#[trigger] b.editions[i]).id != (
            #[trigger] b.editions[j]).id by {
                assert(b.editions[i] == a.editions[i] && b.editions[j] == a.editions[j]);
            }
            assert forall|i: int, j: int|
                0 <= i < j < b.files.len() implies (#[trigger] b.files[i]).id != (
            #[trigger] b.files[j]).id by {
                assert(ridf(b.files[i], b.files[j]));
            }
        }
        assert(b.drafts_wf()) by {
            assert forall|i: int|
                0 <= i < b.drafts.len() implies b.has_article(
                (#[trigger] b.drafts[i]).article_id) by {
                let w = choose|w: int| 0 <= w < a.drafts.len() && a.drafts[w] == b.drafts[i];
                assert(a.has_article(a.drafts[w].article_id));
                assert(a.drafts[w].id != did);
                if a.drafts[w].article_id == aid {
                    if w < dx {
                        assert(rart(a.drafts[w], a.drafts[dx]));
                    } else if dx < w {
                        assert(rart(a.drafts[dx], a.drafts[w]));
                    }
                    assert(false);
                }
            }
            assert forall|i: int, j: int|
                0 <= i < j < b.drafts.len() implies (#[trigger] b.drafts[i]).article_id != (
            #[trigger] b.drafts[j]).article_id by {
                assert(rart(b.drafts[i], b.drafts[j]));
            }
        }
        assert(b.editions_wf()) by {
            assert forall|i: int| 0 <= i < b.editions.len() implies {
                &&& b.has_article((#[trigger] b.editions[i]).article_id)
                &&& b.editions[i].published_at <= b.clock
                &&& !is_blank(b.editions[i].title)
            } by {
                assert(b.editions[i] == a.editions[i]);
                assert(a.has_article(a.editions[i].article_id));
                assert(a.editions[i].published_at <= a.clock);
                if a.editions[i].article_id == aid {
                    assert(a.has_edition_of_article(aid));
                }
            }
            assert forall|i: int, j: int|
                0 <= i < j < b.editions.len() implies (#[trigger] b.editions[i]).published_at < (
            #[trigger] b.editions[j]).published_at by {
                assert(b.editions[i] == a.editions[i] && b.editions[j] == a.editions[j]);
            }
        }
        assert(b.files_wf()) by {
            assert forall|i: int| 0 <= i < b.files.len() implies {
                &&& one_owner(#[trigger] b.files[i])
                &&& match b.files[i].draft_id {
                    Some(d) => b.has_draft(d),
                    None => true,
                }
                &&& match b.files[i].edition_id {
                    Some(e) => b.has_edition(e),
                    None => true,
                }
            } by {
                let w = choose|w: int| 0 <= w < a.files.len() && a.files[w] == b.files[i];
                assert(one_owner(a.files[w]));
                match a.files[w].draft_id {
                    Some(d) => {
                        assert(a.has_draft(d));
                        assert(d != did);
                        let v = choose|v: int|
                            0 <= v < a.drafts.len() && (#[trigger] a.drafts[v]).id == d;
                        assert(b.has_draft(a.drafts[v].id));
                    },
                    None => {},
                }
                match a.files[w].edition_id {
                    Some(e) => {
                        assert(a.has_edition(e));
                        let v = choose|v: int|
                            0 <= v < a.editions.len() && (#[trigger] a.editions[v]).id == e;
                        assert(b.editions[v].id == e);
                    },
                    None => {},
                }
            }
            assert forall|i: int, j: int|
                0 <= i < j < b.files.len() && owner_of(#[trigger] b.files[i]) == owner_of(
                    #[trigger] b.files[j],
                ) implies b.files[i].name != b.files[j].name by {
                assert(rnm(b.files[i], b.files[j]));
            }
        }
        assert(b.no_orphan_articles()) by {
            assert forall|i: int|
                0 <= i < b.articles.len() && !b.has_edition_of_article(
                    (#[trigger] b.articles[i]).id,
                ) implies b.has_draft_of_article(b.articles[i].id) by {
                let w = choose|w: int| 0 <= w < a.articles.len() && a.articles[w] == b.articles[i];
                let x = a.articles[w].id;
                if delart {
                    assert(x != aid);
                } else {
                    if x == aid {
                        // the article kept its editions, so the rule holds vacuously
                        let v = choose|v: int|
                            0 <= v < a.editions.len() && (#[trigger] a.editions[v]).article_id
                                == aid;
                        assert(b.editions[v].article_id == x);
                        assert(b.has_edition_of_article(x));
                    }
                }
                if x != aid {
                    if a.has_edition_of_article(x) {
                        let v = choose|v: int|
                            0 <= v < a.editions.len() && (#[trigger] a.editions[v]).article_id
                                == x;
                        assert(b.editions[v].article_id == x);
                        assert(b.has_edition_of_article(x));
                    } else {
                        let v = choose|v: int|
                            0 <= v < a.drafts.len() && (#[trigger] a.drafts[v]).article_id == x;
                        assert(a.drafts[v].id != did) by {
                            if a.drafts[v].id == did {
                                if v < dx {
                                    assert(ridd(a.drafts[v], a.drafts[dx]));
                                } else if dx < v {
                                    assert(ridd(a.drafts[dx], a.drafts[v]));
                                }
                                assert(v == dx);
                            }
                        }
                        assert(b.has_draft_of_article(x));
                    }
                }
            }
        }
        assert(post.blobs_wf()) by {
            assert forall|i: int| 0 <= i < b.files.len() implies post.blobs.contains(
                blob_of(#[trigger] b.files[i]),
            ) by {
                let w = choose|w: int| 0 <= w < a.files.len() && a.files[w] == b.files[i];
                let j = choose|j: int|
                    0 <= j < pre.blobs.len() && pre.blobs[j] == blob_of(a.files[w]);
                assert(pre.blobs[j].owner == owner_of(a.files[w]));
                assert(pre.blobs[j].owner != BlobOwnerM::Draft(did));
                pre.blobs.lemma_filter_contains(bp, j);
            }
            assert forall|j: int| 0 <= j < post.blobs.len() implies exists|i: int|
                0 <= i < b.files.len() && blob_of(#[trigger] b.files[i]) == (
                #[trigger] post.blobs[j]) by {
                let w = choose|w: int| 0 <= w < pre.blobs.len() && pre.blobs[w] == post.blobs[j];
                let i = choose|i: int|
                    0 <= i < a.files.len() && blob_of(#[trigger] a.files[i]) == pre.blobs[w];
                assert(owner_of(a.files[i]) == pre.blobs[w].owner);
                assert(a.files[i].draft_id != Some(did));
                a.files.lemma_filter_contains(fp, i);
                let k = choose|k: int| 0 <= k < b.files.len() && b.files[k] == a.files[i];
                assert(blob_of(b.files[k]) == post.blobs[j]);
            }
            assert forall|j: int, k: int|
                0 <= j < k < post.blobs.len() implies (#[trigger] post.blobs[j]).file_id != (
            #[trigger] post.blobs[k]).file_id by {
                assert(rbid(post.blobs[j], post.blobs[k]));
            }
        }
    }
}

/// `delete_article` preserves well-formedness: the article, its editions,
/// its open draft, every file row hanging off either, and every blob
/// directory of those owners all go in one step.
#[verifier::rlimit(80)]
pub proof fn delete_article_tr_preserves_inv(pre: StateM, aid: int, user: Seq<char>)
    requires
        pre.inv(),
    ensures
        delete_article_tr(pre, aid, user).0.inv(),
{
    let post = delete_article_tr(pre, aid, user).0;
    let a = pre.rel;
    let b = post.rel;
    if a.article_author(aid) == Some(user) {
        let ap = |x: ArticleM| x.id != aid;
        let dp = |d: DraftM| d.article_id != aid;
        let ep = |e: EditionM| e.article_id != aid;
        let fp = |f: FileM| a.file_article(f) != aid;
        let bp = |b0: BlobM| a.owner_article(b0.owner) != aid;
        assert(b.articles == a.articles.filter(ap));
        assert(b.drafts == a.drafts.filter(dp));
        assert(b.editions == a.editions.filter(ep));
        assert(b.files == a.files.filter(fp));
        assert(post.blobs == pre.blobs.filter(bp));
        crate::seq_util::lemma_filter_elems(a.articles, ap);
        crate::seq_util::lemma_filter_elems(a.drafts, dp);
        crate::seq_util::lemma_filter_elems(a.editions, ep);
        crate::seq_util::lemma_filter_elems(a.files, fp);
        crate::seq_util::lemma_filter_elems(pre.blobs, bp);
        let rida = |x: ArticleM, y: ArticleM| x.id != y.id;
        let ridd = |x: DraftM, y: DraftM| x.id != y.id;
        let rart = |x: DraftM, y: DraftM| x.article_id != y.article_id;
        let ride = |x: EditionM, y: EditionM| x.id != y.id;
        let rpub = |x: EditionM, y: EditionM| x.published_at < y.published_at;
        let ridf = |x: FileM, y: FileM| x.id != y.id;
        let rnm = |x: FileM, y: FileM| owner_of(x) == owner_of(y) ==> x.name != y.name;
        let rbid = |x: BlobM, y: BlobM| x.file_id != y.file_id;
        assert(forall|i: int, j: int|
            0 <= i < j < a.articles.len() ==> #[trigger] rida(a.articles[i], a.articles[j]));
        crate::seq_util::lemma_filter_pairwise(a.articles, ap, rida);
        assert(forall|i: int, j: int|
            0 <= i < j < a.drafts.len() ==> #[trigger] ridd(a.drafts[i], a.drafts[j]));
        crate::seq_util::lemma_filter_pairwise(a.drafts, dp, ridd);
        assert(forall|i: int, j: int|
            0 <= i < j < a.drafts.len() ==> #[trigger] rart(a.drafts[i], a.drafts[j]));
        crate::seq_util::lemma_filter_pairwise(a.drafts, dp, rart);
        assert(forall|i: int, j: int|
            0 <= i < j < a.editions.len() ==> #[trigger] ride(a.editions[i], a.editions[j]));
        crate::seq_util::lemma_filter_pairwise(a.editions, ep, ride);
        assert(forall|i: int, j: int|
            0 <= i < j < a.editions.len() ==> #[trigger] rpub(a.editions[i], a.editions[j]));
        crate::seq_util::lemma_filter_pairwise(a.editions, ep, rpub);
        assert(forall|i: int, j: int|
            0 <= i < j < a.files.len() ==> #[trigger] ridf(a.files[i], a.files[j]));
        crate::seq_util::lemma_filter_pairwise(a.files, fp, ridf);
        assert(forall|i: int, j: int|
            0 <= i < j < a.files.len() ==> #[trigger] rnm(a.files[i], a.files[j]));
        crate::seq_util::lemma_filter_pairwise(a.files, fp, rnm);
        assert(forall|i: int, j: int|
            0 <= i < j < pre.blobs.len() ==> #[trigger] rbid(pre.blobs[i], pre.blobs[j]));
        crate::seq_util::lemma_filter_pairwise(pre.blobs, bp, rbid);
        assert(b.ids_bounded()) by {
            assert forall|i: int|
                0 <= i < b.articles.len() implies 1 <= (#[trigger] b.articles[i]).id
                < b.next_id by {
                let w = choose|w: int| 0 <= w < a.articles.len() && a.articles[w] == b.articles[i];
                assert(1 <= a.articles[w].id < a.next_id);
            }
            assert forall|i: int|
                0 <= i < b.drafts.len() implies 1 <= (#[trigger] b.drafts[i]).id < b.next_id by {
                let w = choose|w: int| 0 <= w < a.drafts.len() && a.drafts[w] == b.drafts[i];
                assert(1 <= a.drafts[w].id < a.next_id);
            }
            assert forall|i: int|
                0 <= i < b.editions.len() implies 1 <= (#[trigger] b.editions[i]).id
                < b.next_id by {
                let w = choose|w: int| 0 <= w < a.editions.len() && a.editions[w] == b.editions[i];
                assert(1 <= a.editions[w].id < a.next_id);
            }
            assert forall|i: int|
                0 <= i < b.files.len() implies 1 <= (#[trigger] b.files[i]).id < b.next_id by {
                let w = choose|w: int| 0 <= w < a.files.len() && a.files[w] == b.files[i];
                assert(1 <= a.files[w].id < a.next_id);
            }
        }
        assert(b.unique_ids()) by {
            assert forall|i: int, j: int|
                0 <= i < j < b.articles.len() implies (#[trigger] b.articles[i]).id != (
            #[trigger] b.articles[j]).id by {
                assert(rida(b.articles[i], b.articles[j]));
            }
            assert forall|i: int, j: int|
                0 <= i < j < b.drafts.len() implies (#[trigger] b.drafts[i]).id != (
            #[trigger] b.drafts[j]).id by {
                assert(ridd(b.drafts[i], b.drafts[j]));
            }
            assert forall|i: int, j: int|
                0 <= i < j < b.editions.len() implies (#[trigger] b.editions[i]).id != (
            #[trigger] b.editions[j]).id by {
                assert(ride(b.editions[i], b.editions[j]));
            }
            assert forall|i: int, j: int|
                0 <= i < j < b.files.len() implies (#[trigger] b.files[i]).id != (
            #[trigger] b.files[j]).id by {
                assert(ridf(b.files[i], b.files[j]));
            }
        }
        assert(b.drafts_wf()) by {
            assert forall|i: int|
                0 <= i < b.drafts.len() implies b.has_article(
                (#[trigger] b.drafts[i]).article_id) by {
                let w = choose|w: int| 0 <= w < a.drafts.len() && a.drafts[w] == b.drafts[i];
                assert(a.has_article(a.drafts[w].article_id));
                let v = choose|v: int|
                    0 <= v < a.articles.len() && (#[trigger] a.articles[v]).id
                        == a.drafts[w].article_id;
                a.articles.lemma_filter_contains(ap, v);
                let k = choose|k: int|
                    0 <= k < b.articles.len() && b.articles[k] == a.articles[v];
                assert(b.articles[k].id == b.drafts[i].article_id);
            }
            assert forall|i: int, j: int|
                0 <= i < j < b.drafts.len() implies (#[trigger] b.drafts[i]).article_id != (
            #[trigger] b.drafts[j]).article_id by {
                assert(rart(b.drafts[i], b.drafts[j]));
            }
        }
        assert(b.editions_wf()) by {
            assert forall|i: int| 0 <= i < b.editions.len() implies {
                &&& b.has_article((#[trigger] b.editions[i]).article_id)
                &&& b.editions[i].published_at <= b.clock
                &&& !is_blank(b.editions[i].title)
            } by {
                let w = choose|w: int| 0 <= w < a.editions.len() && a.editions[w] == b.editions[i];
                assert(a.has_article(a.editions[w].article_id));
                assert(a.editions[w].published_at <= a.clock);
                let v = choose|v: int|
                    0 <= v < a.articles.len() && (#[trigger] a.articles[v]).id
                        == a.editions[w].article_id;
                a.articles.lemma_filter_contains(ap, v);
                let k = choose|k: int|
                    0 <= k < b.articles.len() && b.articles[k] == a.articles[v];
                assert(b.articles[k].id == b.editions[i].article_id);
            }
            assert forall|i: int, j: int|
                0 <= i < j < b.editions.len() implies (#[trigger] b.editions[i]).published_at < (
            #[trigger] b.editions[j]).published_at by {
                assert(rpub(b.editions[i], b.editions[j]));
            }
        }
        assert(b.files_wf()) by {
            assert forall|i: int| 0 <= i < b.files.len() implies {
                &&& one_owner(#[trigger] b.files[i])
                &&& match b.files[i].draft_id {
                    Some(d) => b.has_draft(d),
                    None => true,
                }
                &&& match b.files[i].edition_id {
                    Some(e) => b.has_edition(e),
                    None => true,
                }
            } by {
                let w = choose|w: int| 0 <= w < a.files.len() && a.files[w] == b.files[i];
                assert(one_owner(a.files[w]));
                match a.files[w].draft_id {
                    Some(d) => {
                        assert(a.has_draft(d));
                        let v = choose|v: int|
                            0 <= v < a.drafts.len() && (#[trigger] a.drafts[v]).id == d;
                        crate::model::lemma_draft_idx(a, v);
                        assert(a.file_article(a.files[w]) == a.drafts[v].article_id);
                        a.drafts.lemma_filter_contains(dp, v);
                        let k = choose|k: int|
                            0 <= k < b.drafts.len() && b.drafts[k] == a.drafts[v];
                        assert(b.drafts[k].id == d);
                    },
                    None => {
                        match a.files[w].edition_id {
                            Some(e) => {
                                assert(a.has_edition(e));
                                let v = choose|v: int|
                                    0 <= v < a.editions.len() && (#[trigger] a.editions[v]).id
                                        == e;
                                crate::model::lemma_edition_idx(a, v);
                                assert(a.file_article(a.files[w]) == a.editions[v].article_id);
                                a.editions.lemma_filter_contains(ep, v);
                                let k = choose|k: int|
                                    0 <= k < b.editions.len() && b.editions[k] == a.editions[v];
                                assert(b.editions[k].id == e);
                            },
                            None => {},
                        }
                    },
                }
            }
            assert forall|i: int, j: int|
                0 <= i < j < b.files.len() && owner_of(#[trigger] b.files[i]) == owner_of(
                    #[trigger] b.files[j],
                ) implies b.files[i].name != b.files[j].name by {
                assert(rnm(b.files[i], b.files[j]));
            }
        }
        assert(b.no_orphan_articles()) by {
            assert forall|i: int|
                0 <= i < b.articles.len() && !b.has_edition_of_article(
                    (#[trigger] b.articles[i]).id,
                ) implies b.has_draft_of_article(b.articles[i].id) by {
                let w = choose|w: int| 0 <= w < a.articles.len() && a.articles[w] == b.articles[i];
                let x = a.articles[w].id;
                assert(x != aid);
                if a.has_edition_of_article(x) {
                    let v = choose|v: int|
                        0 <= v < a.editions.len() && (#[trigger] a.editions[v]).article_id == x;
                    a.editions.lemma_filter_contains(ep, v);
                    let k = choose|k: int|
                        0 <= k < b.editions.len() && b.editions[k] == a.editions[v];
                    assert(b.editions[k].article_id == x);
                    assert(b.has_edition_of_article(x));
                } else {
                    let v = choose|v: int|
                        0 <= v < a.drafts.len() && (#[trigger] a.drafts[v]).article_id == x;
                    a.drafts.lemma_filter_contains(dp, v);
                    let k = choose|k: int| 0 <= k < b.drafts.len() && b.drafts[k] == a.drafts[v];
                    assert(b.drafts[k].article_id == x);
                    assert(b.has_draft_of_article(x));
                }
            }
        }
        assert(post.blobs_wf()) by {
            assert forall|i: int| 0 <= i < b.files.len() implies post.blobs.contains(
                blob_of(#[trigger] b.files[i]),
            ) by {
                let w = choose|w: int| 0 <= w < a.files.len() && a.files[w] == b.files[i];
                let j = choose|j: int|
                    0 <= j < pre.blobs.len() && pre.blobs[j] == blob_of(a.files[w]);
                assert(pre.blobs[j].owner == owner_of(a.files[w]));
                assert(a.owner_article(pre.blobs[j].owner) == a.file_article(a.files[w]));
                pre.blobs.lemma_filter_contains(bp, j);
            }
            assert forall|j: int| 0 <= j < post.blobs.len() implies exists|i: int|
                0 <= i < b.files.len() && blob_of(#[trigger] b.files[i]) == (
                #[trigger] post.blobs[j]) by {
                let w = choose|w: int| 0 <= w < pre.blobs.len() && pre.blobs[w] == post.blobs[j];
                let i = choose|i: int|
                    0 <= i < a.files.len() && blob_of(#[trigger] a.files[i]) == pre.blobs[w];
                assert(owner_of(a.files[i]) == pre.blobs[w].owner);
                assert(a.file_article(a.files[i]) == a.owner_article(pre.blobs[w].owner));
                a.files.lemma_filter_contains(fp, i);
                let k = choose|k: int| 0 <= k < b.files.len() && b.files[k] == a.files[i];
                assert(blob_of(b.files[k]) == post.blobs[j]);
            }
            assert forall|j: int, k: int|
                0 <= j < k < post.blobs.len() implies (#[trigger] post.blobs[j]).file_id != (
            #[trigger] post.blobs[k]).file_id by {
                assert(rbid(post.blobs[j], post.blobs[k]));
            }
        }
    }
}

/// `publish_draft` preserves well-formedness: the new edition carries a
/// fresh id and the latest publication time, every file row of the draft
/// moves to it in place, and the draft's whole blob directory is renamed
/// to the edition's in the same step.
#[verifier::rlimit(80)]
pub proof fn publish_draft_tr_preserves_inv(pre: StateM, did: int, user: Seq<char>, notes: Seq<char>)
    requires
        pre.inv(),
    ensures
        publish_draft_tr(pre, did, user, notes).0.inv(),
{
    let post = publish_draft_tr(pre, did, user, notes).0;
    let a = pre.rel;
    let b = post.rel;
    if a.draft_owned(did, user) && !is_blank(a.draft_by_id(did).title) {
        let dx = a.draft_idx(did);
        let d = a.drafts[dx];
        assert(0 <= dx < a.drafts.len() && d.id == did);
        assert(a.draft_by_id(did) == d);
        let aid = d.article_id;
        let eid = a.next_id;
        let now = a.clock + 1;
        let e = EditionM { id: eid, article_id: aid, title: d.title, content: d.content, notes,
            published_at: now };
        let rel1 = store_create_edition_from_draft(a, did, notes).0;
        let rel2 = store_move_draft_files_to_edition(rel1, did, eid);
        assert(rel1.editions == a.editions.push(e));
        // the draft is still owned after the first two steps, so the final
        // step of the transition takes its deleting branch
        assert(forall|i: int| 0 <= i < a.articles.len() ==> #[trigger] rel2.articles[i] == a.articles[i]);
        assert(forall|i: int| 0 <= i < a.drafts.len() ==> #[trigger] rel2.drafts[i] == a.drafts[i]);
        lemma_draft_author_eq(a, rel2);
        assert(rel2.draft_owned(did, user));
        assert(rel2.draft_by_id(did) == d);
        let dp = |d2: DraftM| d2.id != did;
        let fp = |f: FileM| f.draft_id != Some(did);
        let fm = |f: FileM|
            if f.draft_id == Some(did) {
                FileM { draft_id: None, edition_id: Some(eid), ..f }
            } else {
                f
            };
        let bm = |b0: BlobM|
            if b0.owner == BlobOwnerM::Draft(did) {
                BlobM { owner: BlobOwnerM::Edition(eid), ..b0 }
            } else {
                b0
            };
        assert(rel2.files == a.files.map_values(fm));
        assert(rel2.files.len() == a.files.len());
        assert(forall|i: int| 0 <= i < a.files.len() ==> #[trigger] rel2.files[i] == fm(a.files[i]));
        // no old file row can name the fresh edition id
        assert forall|i: int|
            0 <= i < a.files.len() implies (#[trigger] a.files[i]).edition_id != Some(eid) by {
            match a.files[i].edition_id {
                Some(x) => {
                    assert(a.has_edition(x));
                    let w = choose|w: int|
                        0 <= w < a.editions.len() && (#[trigger] a.editions[w]).id == x;
                    assert(a.editions[w].id < a.next_id);
                },
                None => {},
            }
        }
        // after the move no row names the draft, so the cascade filter of
        // the final delete keeps every row
        assert(forall|i: int|
            0 <= i < rel2.files.len() ==> fp(#[trigger] rel2.files[i]));
        crate::seq_util::lemma_filter_all(rel2.files, fp);
        assert(b.files == rel2.files);
        assert(b.drafts == a.drafts.filter(dp));
        assert(b.editions == a.editions.push(e));
        assert(b.articles == a.articles);
        assert(forall|i: int| 0 <= i < a.articles.len() ==> #[trigger] b.articles[i] == a.articles[i]);
        assert(forall|i: int| 0 <= i < a.editions.len() ==> #[trigger] b.editions[i] == a.editions[i]);
        assert(b.editions[b.editions.len() - 1] == e);
        crate::seq_util::lemma_filter_elems(a.drafts, dp);
        let ridd = |x: DraftM, y: DraftM| x.id != y.id;
        let rart = |x: DraftM, y: DraftM| x.article_id != y.article_id;
        assert(forall|i: int, j: int|
            0 <= i < j < a.drafts.len() ==> #[trigger] ridd(a.drafts[i], a.drafts[j]));
        crate::seq_util::lemma_filter_pairwise(a.drafts, dp, ridd);
        assert(forall|i: int, j: int|
            0 <= i < j < a.drafts.len() ==> #[trigger] rart(a.drafts[i], a.drafts[j]));
        crate::seq_util::lemma_filter_pairwise(a.drafts, dp, rart);
        assert(b.ids_bounded()) by {
            assert forall|i: int|
                0 <= i < b.drafts.len() implies 1 <= (#[trigger] b.drafts[i]).id < b.next_id by {
                let w = choose|w: int| 0 <= w < a.drafts.len() && a.drafts[w] == b.drafts[i];
                assert(1 <= a.drafts[w].id < a.next_id);
            }
            assert forall|i: int|
                0 <= i < b.files.len() implies 1 <= (#[trigger] b.files[i]).id < b.next_id by {
                assert(b.files[i] == fm(a.files[i]));
                assert(1 <= a.files[i].id < a.next_id);
            }
            assert forall|i: int|
                0 <= i < b.editions.len() implies 1 <= (#[trigger] b.editions[i]).id
                < b.next_id by {
                if i < a.editions.len() {
                    assert(b.editions[i] == a.editions[i]);
                }
            }
        }
        assert(b.unique_ids()) by {
            assert forall|i: int, j: int|
                0 <= i < j < b.drafts.len() implies (#[trigger] b.drafts[i]).id != (
            #[trigger] b.drafts[j]).id by {
                assert(ridd(b.drafts[i], b.drafts[j]));
            }
            assert forall|i: int, j: int|
                0 <= i < j < b.editions.len() implies (#[trigger] b.editions[i]).id != (
            #[trigger] b.editions[j]).id by {
                if j == b.editions.len() - 1 {
                    assert(b.editions[i] == a.editions[i]);
                    assert(a.editions[i].id < a.next_id);
                } else {
                    assert(b.editions[i] == a.editions[i] && b.editions[j] == a.editions[j]);
                }
            }
            assert forall|i: int, j: int|
                0 <= i < j < b.files.len() implies (#[trigger] b.files[i]).id != (
            #[trigger] b.files[j]).id by {
                assert(b.files[i] == fm(a.files[i]) && b.files[j] == fm(a.files[j]));
            }
            assert forall|i: int, j: int|
                0 <= i < j < b.articles.len() implies (#[trigger] b.articles[i]).id != (
            #[trigger] b.articles[j]).id by {
                assert(b.articles[i] == a.articles[i] && b.articles[j] == a.articles[j]);
            }
        }
        assert(b.drafts_wf()) by {
            assert forall|i: int|
                0 <= i < b.drafts.len() implies b.has_article(
                (#[trigger] b.drafts[i]).article_id) by {
                let w = choose|w: int| 0 <= w < a.drafts.len() && a.drafts[w] == b.drafts[i];
                assert(a.has_article(a.drafts[w].article_id));
                let v = choose|v: int|
                    0 <= v < a.articles.len() && (#[trigger] a.articles[v]).id
                        == a.drafts[w].article_id;
                assert(b.articles[v].id == b.drafts[i].article_id);
            }
            assert forall|i: int, j: int|
                0 <= i < j < b.drafts.len() implies (#[trigger] b.drafts[i]).article_id != (
            #[trigger] b.drafts[j]).article_id by {
                assert(rart(b.drafts[i], b.drafts[j]));
            }
        }
        assert(b.editions_wf()) by {
            assert(a.has_article(aid));
            let va = choose|v: int|
                0 <= v < a.articles.len() && (#[trigger] a.articles[v]).id == aid;
            assert forall|i: int| 0 <= i < b.editions.len() implies {
                &&& b.has_article((#[trigger] b.editions[i]).article_id)
                &&& b.editions[i].published_at <= b.clock
                &&& !is_blank(b.editions[i].title)
            } by {
                if i < a.editions.len() {
                    assert(b.editions[i] == a.editions[i]);
                    assert(a.has_article(a.editions[i].article_id));
                    let v = choose|v: int|
                        0 <= v < a.articles.len() && (#[trigger] a.articles[v]).id
                            == a.editions[i].article_id;
                    assert(b.articles[v].id == b.editions[i].article_id);
                    assert(a.editions[i].published_at <= a.clock);
                } else {
                    assert(b.editions[i] == e);
                    assert(b.articles[va].id == aid);
                }
            }
            assert forall|i: int, j: int|
                0 <= i < j < b.editions.len() implies (#[trigger] b.editions[i]).published_at < (
            #[trigger] b.editions[j]).published_at by {
                if j == b.editions.len() - 1 {
                    assert(b.editions[i] == a.editions[i]);
                    assert(a.editions[i].published_at <= a.clock);
                } else {
                    assert(b.editions[i] == a.editions[i] && b.editions[j] == a.editions[j]);
                }
            }
        }
        assert(b.files_wf()) by {
            assert forall|i: int| 0 <= i < b.files.len() implies {
                &&& one_owner(#[trigger] b.files[i])
                &&& match b.files[i].draft_id {
                    Some(d2) => b.has_draft(d2),
                    None => true,
                }
                &&& match b.files[i].edition_id {
                    Some(e2) => b.has_edition(e2),
                    None => true,
                }
            } by {
                assert(b.files[i] == fm(a.files[i]));
                assert(one_owner(a.files[i]));
                if a.files[i].draft_id == Some(did) {
                    assert(b.editions[b.editions.len() - 1].id == eid);
                } else {
                    match a.files[i].draft_id {
                        Some(d2) => {
                            assert(a.has_draft(d2));
                            let v = choose|v: int|
                                0 <= v < a.drafts.len() && (#[trigger] a.drafts[v]).id == d2;
                            a.drafts.lemma_filter_contains(dp, v);
                            let k = choose|k: int|
                                0 <= k < b.drafts.len() && b.drafts[k] == a.drafts[v];
                            assert(b.drafts[k].id == d2);
                        },
                        None => {},
                    }
                    match a.files[i].edition_id {
                        Some(e2) => {
                            assert(a.has_edition(e2));
                            let v = choose|v: int|
                                0 <= v < a.editions.len() && (#[trigger] a.editions[v]).id == e2;
                            assert(b.editions[v].id == e2);
                        },
                        None => {},
                    }
                }
            }
            assert forall|i: int, j: int|
                0 <= i < j < b.files.len() && owner_of(#[trigger] b.files[i]) == owner_of(
                    #[trigger] b.files[j],
                ) implies b.files[i].name != b.files[j].name by {
                assert(b.files[i] == fm(a.files[i]) && b.files[j] == fm(a.files[j]));
                if a.files[i].draft_id == Some(did) && a.files[j].draft_id == Some(did) {
                    assert(owner_of(a.files[i]) == owner_of(a.files[j]));
                    assert(a.files[i].name != a.files[j].name);
                } else if a.files[i].draft_id == Some(did) {
                    // the moved row now belongs to the fresh edition, which no
                    // unmoved row can name
                    assert(owner_of(b.files[j]) == owner_of(a.files[j]));
                    assert(a.files[j].edition_id != Some(eid));
                    assert(one_owner(a.files[j]));
                    assert(owner_of(b.files[j]) != BlobOwnerM::Edition(eid));
                } else if a.files[j].draft_id == Some(did) {
                    assert(owner_of(b.files[i]) == owner_of(a.files[i]));
                    assert(a.files[i].edition_id != Some(eid));
                    assert(one_owner(a.files[i]));
                    assert(owner_of(b.files[i]) != BlobOwnerM::Edition(eid));
                } else {
                    assert(owner_of(b.files[i]) == owner_of(a.files[i]) && owner_of(b.files[j])
                        == owner_of(a.files[j]));
                    assert(owner_of(a.files[i]) == owner_of(a.files[j]) ==> a.files[i].name
                        != a.files[j].name);
                }
            }
        }
        assert(b.no_orphan_articles()) by {
            assert forall|i: int|
                0 <= i < b.articles.len() && !b.has_edition_of_article(
                    (#[trigger] b.articles[i]).id,
                ) implies b.has_draft_of_article(b.articles[i].id) by {
                assert(b.articles[i] == a.articles[i]);
                let x = a.articles[i].id;
                assert(b.editions[b.editions.len() - 1].article_id == aid);
                assert(x != aid);
                if a.has_edition_of_article(x) {
                    let v = choose|v: int|
                        0 <= v < a.editions.len() && (#[trigger] a.editions[v]).article_id == x;
                    assert(b.editions[v].article_id == x);
                } else {
                    let v = choose|v: int|
                        0 <= v < a.drafts.len() && (#[trigger] a.drafts[v]).article_id == x;
                    assert(a.drafts[v].id != did) by {
                        if v != dx {
                            if v < dx {
                                assert(ridd(a.drafts[v], a.drafts[dx]));
                            } else {
                                assert(ridd(a.drafts[dx], a.drafts[v]));
                            }
                        }
                    }
                    a.drafts.lemma_filter_contains(dp, v);
                    let k = choose|k: int| 0 <= k < b.drafts.len() && b.drafts[k] == a.drafts[v];
                    assert(b.drafts[k].article_id == x);
                }
            }
        }
        assert(post.blobs_wf()) by {
            assert(post.blobs.len() == pre.blobs.len());
            assert(forall|j: int|
                0 <= j < pre.blobs.len() ==> #[trigger] post.blobs[j] == bm(pre.blobs[j]));
            assert forall|i: int| 0 <= i < b.files.len() implies post.blobs.contains(
                blob_of(#[trigger] b.files[i]),
            ) by {
                let j = choose|j: int|
                    0 <= j < pre.blobs.len() && pre.blobs[j] == blob_of(a.files[i]);
                assert(post.blobs[j] == bm(blob_of(a.files[i])));
                assert(b.files[i] == fm(a.files[i]));
                assert(one_owner(a.files[i]));
                if a.files[i].draft_id == Some(did) {
                    assert(blob_of(b.files[i]) == post.blobs[j]);
                } else {
                    assert(owner_of(a.files[i]) != BlobOwnerM::Draft(did));
                    assert(blob_of(b.files[i]) == post.blobs[j]);
                }
            }
            assert forall|j: int| 0 <= j < post.blobs.len() implies exists|i: int|
                0 <= i < b.files.len() && blob_of(#[trigger] b.files[i]) == (
                #[trigger] post.blobs[j]) by {
                let i = choose|i: int|
                    0 <= i < a.files.len() && blob_of(#[trigger] a.files[i]) == pre.blobs[j];
                assert(b.files[i] == fm(a.files[i]));
                assert(one_owner(a.files[i]));
                if a.files[i].draft_id == Some(did) {
                    assert(blob_of(b.files[i]) == post.blobs[j]);
                } else {
                    assert(owner_of(a.files[i]) != BlobOwnerM::Draft(did));
                    assert(blob_of(b.files[i]) == post.blobs[j]);
                }
            }
            assert forall|j: int, k: int|
                0 <= j < k < post.blobs.len() implies (#[trigger] post.blobs[j]).file_id != (
            #[trigger] post.blobs[k]).file_id by {
                assert(post.blobs[j] == bm(pre.blobs[j]) && post.blobs[k] == bm(pre.blobs[k]));
            }
        }
    }
}

/// `edit_article` preserves well-formedness, provided the article exists
/// and has no open draft yet: the seeded draft and the copied file rows
/// are minted with unused ids, the copied names stay unique within the
/// new draft's directory, and each copied blob is linked in the same step.
#[verifier::rlimit(80)]
pub proof fn edit_article_ok_preserves_inv(pre: StateM, aid: int)
    requires
        pre.inv(),
        pre.rel.has_article(aid),
        !pre.rel.has_draft_of_article(aid),
    ensures
        edit_article_ok(pre, aid).0.inv(),
{
    let post = edit_article_ok(pre, aid).0;
    let a = pre.rel;
    let b = post.rel;
    let did = a.next_id;
    let now = a.clock + 1;
    assert(a.has_edition_of_article(aid)) by {
        let w = choose|w: int| 0 <= w < a.articles.len() && (#[trigger] a.articles[w]).id == aid;
        assert(a.articles[w].id == aid);
        if !a.has_edition_of_article(a.articles[w].id) {
            assert(a.has_draft_of_article(aid));
        }
    }
    crate::model::lemma_latest_edition_idx(a.editions, aid);
    let lx = latest_edition_idx(a.editions, aid);
    let e = a.editions[lx];
    assert(0 <= lx < a.editions.len() && e.article_id == aid);
    let rel1 = store_create_draft_from_article(a, aid).0;
    assert(rel1.editions == a.editions && rel1.files == a.files);
    assert(latest_edition_idx(rel1.editions, aid) == lx);
    assert(latest_edition_of(rel1, aid) == e);
    let srcpred = |f: FileM| f.edition_id == Some(e.id);
    let src = a.files.filter(srcpred);
    assert(latest_edition_files(rel1, aid) == src);
    let nd = DraftM { id: did, article_id: aid, title: e.title, content: e.content,
        created_at: now, updated_at: now };
    let fresh = Seq::new(
        src.len(),
        |k: int| FileM { id: did + 1 + k, draft_id: Some(did), edition_id: None, name: src[k].name },
    );
    assert(b.drafts == a.drafts.push(nd));
    assert(b.files =~= a.files + fresh) by {
        assert(rel1.next_id == did + 1);
    }
    assert(b.articles == a.articles);
    assert(b.editions == a.editions);
    assert(b.next_id == did + 1 + src.len());
    assert(forall|i: int| 0 <= i < a.articles.len() ==> #[trigger] b.articles[i] == a.articles[i]);
    assert(forall|i: int| 0 <= i < a.editions.len() ==> #[trigger] b.editions[i] == a.editions[i]);
    assert(forall|i: int| 0 <= i < a.drafts.len() ==> #[trigger] b.drafts[i] == a.drafts[i]);
    assert(forall|i: int| 0 <= i < a.files.len() ==> #[trigger] b.files[i] == a.files[i]);
    assert(forall|k: int| 0 <= k < src.len() ==> #[trigger] b.files[a.files.len() + k] == fresh[k]);
    crate::seq_util::lemma_filter_elems(a.files, srcpred);
    let rnm = |x: FileM, y: FileM| owner_of(x) == owner_of(y) ==> x.name != y.name;
    assert(forall|i: int, j: int|
        0 <= i < j < a.files.len() ==> #[trigger] rnm(a.files[i], a.files[j]));
    crate::seq_util::lemma_filter_pairwise(a.files, srcpred, rnm);
    // every source row is owned by the latest edition alone
    assert forall|k: int| 0 <= k < src.len() implies owner_of(#[trigger] src[k])
        == BlobOwnerM::Edition(e.id) && src[k].id < a.next_id by {
        let w = choose|w: int| 0 <= w < a.files.len() && a.files[w] == src[k];
        assert(one_owner(a.files[w]));
        assert(1 <= a.files[w].id < a.next_id);
    }
    lemma_lookups_extend(a, b);
    assert(b.ids_bounded()) by {
        assert forall|i: int|
            0 <= i < b.files.len() implies 1 <= (#[trigger] b.files[i]).id < b.next_id by {
            if i < a.files.len() {
                assert(b.files[i] == a.files[i]);
            } else {
                assert(b.files[i] == fresh[i - a.files.len()]);
            }
        }
        assert forall|i: int|
            0 <= i < b.drafts.len() implies 1 <= (#[trigger] b.drafts[i]).id < b.next_id by {
            if i < a.drafts.len() {
                assert(b.drafts[i] == a.drafts[i]);
            }
        }
        assert forall|i: int|
            0 <= i < b.editions.len() implies 1 <= (#[trigger] b.editions[i]).id < b.next_id by {
            assert(b.editions[i] == a.editions[i]);
        }
        assert forall|i: int|
            0 <= i < b.articles.len() implies 1 <= (#[trigger] b.articles[i]).id < b.next_id by {
            assert(b.articles[i] == a.articles[i]);
        }
    }
    assert(b.unique_ids()) by {
        assert forall|i: int, j: int|
            0 <= i < j < b.files.len() implies (#[trigger] b.files[i]).id != (
        #[trigger] b.files[j]).id by {
            if j < a.files.len() {
                assert(b.files[i] == a.files[i] && b.files[j] == a.files[j]);
            } else if i < a.files.len() {
                assert(b.files[i] == a.files[i]);
                assert(b.files[j] == fresh[j - a.files.len()]);
            } else {
                assert(b.files[i] == fresh[i - a.files.len()]);
                assert(b.files[j] == fresh[j - a.files.len()]);
            }
        }
        assert forall|i: int, j: int|
            0 <= i < j < b.drafts.len() implies (#[trigger] b.drafts[i]).id != (
        #[trigger] b.drafts[j]).id by {
            if j == b.drafts.len() - 1 {
                assert(b.drafts[i] == a.drafts[i]);
            } else {
                assert(b.drafts[i] == a.drafts[i] && b.drafts[j] == a.drafts[j]);
            }
        }
        assert forall|i: int, j: int|
            0 <= i < j < b.articles.len() implies (#[trigger] b.articles[i]).id != (
        #[trigger] b.articles[j]).id by {
            assert(b.articles[i] == a.articles[i] && b.articles[j] == a.articles[j]);
        }
        assert forall|i: int, j: int|
            0 <= i < j < b.editions.len() implies (#[trigger] b.editions[i]).id != (
        #[trigger] b.editions[j]).id by {
            assert(b.editions[i] == a.editions[i] && b.editions[j] == a.editions[j]);
        }
    }
    assert(b.drafts_wf()) by {
        assert forall|i: int|
            0 <= i < b.drafts.len() implies b.has_article((#[trigger] b.drafts[i]).article_id) by {
            if i < a.drafts.len() {
                assert(b.drafts[i] == a.drafts[i]);
                assert(a.has_article(a.drafts[i].article_id));
            } else {
                assert(b.drafts[i] == nd);
                assert(a.has_article(aid));
            }
        }
        assert forall|i: int, j: int|
            0 <= i < j < b.drafts.len() implies (#[trigger] b.drafts[i]).article_id != (
        #[trigger] b.drafts[j]).article_id by {
            if j == b.drafts.len() - 1 {
                assert(b.drafts[i] == a.drafts[i]);
                if a.drafts[i].article_id == aid {
                    assert(a.has_draft_of_article(aid));
                }
            } else {
                assert(b.drafts[i] == a.drafts[i] && b.drafts[j] == a.drafts[j]);
            }
        }
    }
    assert(b.editions_wf()) by {
        assert forall|i: int| 0 <= i < b.editions.len() implies {
            &&& b.has_article((#[trigger] b.editions[i]).article_id)
            &&& b.editions[i].published_at <= b.clock
            &&& !is_blank(b.editions[i].title)
        } by {
            assert(b.editions[i] == a.editions[i]);
            assert(a.has_article(a.editions[i].article_id));
            assert(a.editions[i].published_at <= a.clock);
        }
        assert forall|i: int, j: int|
            0 <= i < j < b.editions.len() implies (#[trigger] b.editions[i]).published_at < (
        #[trigger] b.editions[j]).published_at by {
            assert(b.editions[i] == a.editions[i] && b.editions[j] == a.editions[j]);
        }
    }
    assert(b.files_wf()) by {
        assert forall|i: int| 0 <= i < b.files.len() implies {
            &&& one_owner(#[trigger] b.files[i])
            &&& match b.files[i].draft_id {
                Some(d2) => b.has_draft(d2),
                None => true,
            }
            &&& match b.files[i].edition_id {
                Some(e2) => b.has_edition(e2),
                None => true,
            }
        } by {
            if i < a.files.len() {
                assert(b.files[i] == a.files[i]);
                assert(one_owner(a.files[i]));
                match a.files[i].draft_id {
                    Some(d2) => {
                        assert(a.has_draft(d2));
                    },
                    None => {},
                }
                match a.files[i].edition_id {
                    Some(e2) => {
                        assert(a.has_edition(e2));
                    },
                    None => {},
                }
            } else {
                assert(b.files[i] == fresh[i - a.files.len()]);
                assert(b.drafts[b.drafts.len() - 1].id == did);
            }
        }
        assert forall|i: int, j: int|
            0 <= i < j < b.files.len() && owner_of(#[trigger] b.files[i]) == owner_of(
                #[trigger] b.files[j],
            ) implies b.files[i].name != b.files[j].name by {
            if j < a.files.len() {
                assert(rnm(a.files[i], a.files[j]));
            } else if i < a.files.len() {
                // an old row cannot live under the fresh draft's directory
                assert(b.files[i] == a.files[i]);
                assert(b.files[j] == fresh[j - a.files.len()]);
                assert(owner_of(b.files[j]) == BlobOwnerM::Draft(did));
                match a.files[i].draft_id {
                    Some(d2) => {
                        assert(a.has_draft(d2));
                        let w = choose|w: int|
                            0 <= w < a.drafts.len() && (#[trigger] a.drafts[w]).id == d2;
                        assert(a.drafts[w].id < a.next_id);
                        assert(owner_of(a.files[i]) != BlobOwnerM::Draft(did));
                    },
                    None => {
                        assert(owner_of(a.files[i]) != BlobOwnerM::Draft(did));
                    },
                }
            } else {
                let k = i - a.files.len();
                let l = j - a.files.len();
                assert(b.files[i] == fresh[k] && b.files[j] == fresh[l]);
                assert(rnm(src[k], src[l]));
                assert(owner_of(src[k]) == owner_of(src[l]));
            }
        }
    }
    assert(b.no_orphan_articles()) by {
        assert forall|i: int|
            0 <= i < b.articles.len() && !b.has_edition_of_article(
                (#[trigger] b.articles[i]).id,
            ) implies b.has_draft_of_article(b.articles[i].id) by {
            assert(b.articles[i] == a.articles[i]);
            let x = a.articles[i].id;
            if a.has_edition_of_article(x) {
                let v = choose|v: int|
                    0 <= v < a.editions.len() && (#[trigger] a.editions[v]).article_id == x;
                assert(b.editions[v].article_id == x);
            } else {
                assert(a.has_draft_of_article(x));
            }
        }
    }
    assert(post.blobs_wf()) by {
        let linked = Seq::new(
            src.len(),
            |k: int| BlobM { owner: BlobOwnerM::Draft(did), file_id: did + 1 + k, name: src[k].name },
        );
        assert(post.blobs =~= pre.blobs + linked);
        assert(forall|j: int| 0 <= j < pre.blobs.len() ==> #[trigger] post.blobs[j] == pre.blobs[j]);
        assert(forall|k: int|
            0 <= k < src.len() ==> #[trigger] post.blobs[pre.blobs.len() + k] == linked[k]);
        assert forall|j: int|
            0 <= j < pre.blobs.len() implies (#[trigger] pre.blobs[j]).file_id < a.next_id by {
            let w = choose|w: int|
                0 <= w < a.files.len() && blob_of(#[trigger] a.files[w]) == pre.blobs[j];
            assert(a.files[w].id < a.next_id);
        }
        assert forall|i: int| 0 <= i < b.files.len() implies post.blobs.contains(
            blob_of(#[trigger] b.files[i]),
        ) by {
            if i < a.files.len() {
                assert(b.files[i] == a.files[i]);
                let j = choose|j: int|
                    0 <= j < pre.blobs.len() && pre.blobs[j] == blob_of(a.files[i]);
                assert(post.blobs[j] == blob_of(b.files[i]));
            } else {
                let k = i - a.files.len();
                assert(b.files[i] == fresh[k]);
                assert(post.blobs[pre.blobs.len() + k] == blob_of(fresh[k]));
            }
        }
        assert forall|j: int| 0 <= j < post.blobs.len() implies exists|i: int|
            0 <= i < b.files.len() && blob_of(#[trigger] b.files[i]) == (
            #[trigger] post.blobs[j]) by {
            if j < pre.blobs.len() {
                let i = choose|i: int|
                    0 <= i < a.files.len() && blob_of(#[trigger] a.files[i]) == pre.blobs[j];
                assert(blob_of(b.files[i]) == post.blobs[j]);
            } else {
                let k = j - pre.blobs.len();
                assert(blob_of(b.files[a.files.len() + k]) == post.blobs[j]);
            }
        }
        assert forall|j: int, k: int|
            0 <= j < k < post.blobs.len() implies (#[trigger] post.blobs[j]).file_id != (
        #[trigger] post.blobs[k]).file_id by {
            if k < pre.blobs.len() {
                assert(post.blobs[j] == pre.blobs[j] && post.blobs[k] == pre.blobs[k]);
            } else if j < pre.blobs.len() {
                assert(post.blobs[j] == pre.blobs[j]);
                assert(post.blobs[k] == linked[k - pre.blobs.len()]);
            } else {
                assert(post.blobs[j] == linked[j - pre.blobs.len()]);
                assert(post.blobs[k] == linked[k - pre.blobs.len()]);
            }
        }
    }
}

} // verus!
