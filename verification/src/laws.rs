//! The lifecycle laws: properties of the operation transitions that go
//! beyond any single operation's contract, proved once and for all states.

use vstd::prelude::*;

use crate::model::{blob_of, is_blank, latest_edition_idx, lemma_latest_edition_idx, one_owner,
    BlobOwnerM, EditionM, FileM, StateM};
use crate::schema::{MaybeNotFound, MaybeNotFoundForbidden, NotFoundBadRequest};
use crate::transitions::{delete_article_tr, delete_draft_tr, delete_file_tr, edit_article_ok,
    edit_article_tr, latest_edition_files, latest_edition_of, publish_draft_tr,
    store_create_draft_from_article, store_create_edition_from_draft, store_delete_draft,
    store_move_draft_files_to_edition, update_draft_tr};

verus! {

/// The file-consistency invariant, spelled out: in every well-formed
/// state, each file row names exactly one owner — a draft or an edition,
/// never both, never neither — and a blob exists at the path derived from
/// that owner and the row's id.
pub proof fn file_rows_are_consistent(s: StateM, i: int)
    requires
        s.inv(),
        0 <= i < s.rel.files.len(),
    ensures
        one_owner(s.rel.files[i]),
        s.blobs.contains(blob_of(s.rel.files[i])),
{
}

/// An article with no published edition never outlives its last open
/// draft: deleting that draft cascade-deletes the article.
pub proof fn delete_draft_cascades_article(pre: StateM, did: int, user: Seq<char>)
    requires
        pre.inv(),
        pre.rel.draft_owned(did, user),
        !pre.rel.has_edition_of_article(pre.rel.draft_by_id(did).article_id),
    ensures
        delete_draft_tr(pre, did, user).1 == MaybeNotFound::Done,
        !delete_draft_tr(pre, did, user).0.rel.has_article(pre.rel.draft_by_id(did).article_id),
{
    let aid = pre.rel.draft_by_id(did).article_id;
    let rel1 = store_delete_draft(pre.rel, did, user).0;
    assert(rel1.articles == pre.rel.articles && rel1.editions == pre.rel.editions);
    assert(rel1.has_article(aid)) by {
        assert(pre.rel.has_article(aid));
        let w = choose|w: int|
            0 <= w < pre.rel.articles.len() && (#[trigger] pre.rel.articles[w]).id == aid;
        assert(rel1.articles[w].id == aid);
    }
    assert(!rel1.has_edition_of_article(aid)) by {
        if rel1.has_edition_of_article(aid) {
            let w = choose|w: int|
                0 <= w < rel1.editions.len() && (#[trigger] rel1.editions[w]).article_id == aid;
            assert(pre.rel.editions[w].article_id == aid);
        }
    }
    let post = delete_draft_tr(pre, did, user).0;
    assert(post.rel.articles == rel1.articles.filter(|a: crate::model::ArticleM| a.id != aid));
    if post.rel.has_article(aid) {
        let w = choose|w: int|
            0 <= w < post.rel.articles.len() && (#[trigger] post.rel.articles[w]).id == aid;
        crate::seq_util::lemma_filter_elems(
            rel1.articles,
            |a: crate::model::ArticleM| a.id != aid,
        );
    }
}

/// Deleting a file succeeds at most once: after a successful delete, the
/// same call reports `NotFound` and changes nothing, so no blob path is
/// ever removed twice.
pub proof fn delete_file_idempotent(pre: StateM, fid: int, user: Seq<char>)
    requires
        pre.inv(),
        delete_file_tr(pre, fid, user).1 == MaybeNotFound::Done,
    ensures
        ({
            let mid = delete_file_tr(pre, fid, user).0;
            delete_file_tr(mid, fid, user) == (mid, MaybeNotFound::NotFound)
        }),
{
    let mid = delete_file_tr(pre, fid, user).0;
    assert(mid.rel.files == pre.rel.files.filter(|f: FileM| f.id != fid));
    assert(!mid.rel.has_file(fid)) by {
        if mid.rel.has_file(fid) {
            let w = choose|w: int|
                0 <= w < mid.rel.files.len() && (#[trigger] mid.rel.files[w]).id == fid;
            crate::seq_util::lemma_filter_elems(pre.rel.files, |f: FileM| f.id != fid);
        }
    }
    assert(delete_file_tr(mid, fid, user) =~~= (mid, MaybeNotFound::NotFound));
}

/// The draft operations hide existence from a non-owner: called by anyone
/// but the draft's author, `update_draft`, `delete_draft` and
/// `publish_draft` answer `NotFound` and change nothing.
pub proof fn non_owner_sees_not_found(
    pre: StateM,
    did: int,
    user: Seq<char>,
    title: Seq<char>,
    content: Seq<char>,
    notes: Seq<char>,
)
    requires
        pre.inv(),
        pre.rel.has_draft(did),
        pre.rel.draft_author(did) != Some(user),
    ensures
        update_draft_tr(pre, did, user, title, content) == (pre, MaybeNotFound::NotFound),
        delete_draft_tr(pre, did, user) == (pre, MaybeNotFound::NotFound),
        publish_draft_tr(pre, did, user, notes) == (
            pre,
            Err::<i32, NotFoundBadRequest>(NotFoundBadRequest::NotFound),
        ),
{
    assert(update_draft_tr(pre, did, user, title, content) =~~= (pre, MaybeNotFound::NotFound));
    assert(delete_draft_tr(pre, did, user) =~~= (pre, MaybeNotFound::NotFound));
    assert(publish_draft_tr(pre, did, user, notes) =~~= (
        pre,
        Err::<i32, NotFoundBadRequest>(NotFoundBadRequest::NotFound),
    ));
}

/// Article deletion, by contrast, reveals ownership: a non-owner of an
/// existing article is told `Forbidden`, and nothing changes.
pub proof fn foreign_article_is_forbidden(pre: StateM, aid: int, user: Seq<char>)
    requires
        pre.inv(),
        pre.rel.has_article(aid),
        pre.rel.article_author(aid) != Some(user),
    ensures
        delete_article_tr(pre, aid, user) == (pre, MaybeNotFoundForbidden::Forbidden),
        edit_article_tr(pre, aid, user) == (
            pre,
            Err::<i32, crate::schema::NotFoundForbidden>(
                crate::schema::NotFoundForbidden::Forbidden,
            ),
        ),
{
    assert(delete_article_tr(pre, aid, user) =~~= (pre, MaybeNotFoundForbidden::Forbidden));
    assert(edit_article_tr(pre, aid, user) =~~= (
        pre,
        Err::<i32, crate::schema::NotFoundForbidden>(crate::schema::NotFoundForbidden::Forbidden),
    ));
}

/// Appending rows that all belong to a fresh edition, to a table in which
/// nothing names that edition, makes the edition's file listing exactly
/// the appended rows; their names are given.
proof fn lemma_fresh_edition_files(files: Seq<FileM>, moved: Seq<FileM>, src: Seq<FileM>, nid: int)
    requires
        forall|j: int| 0 <= j < files.len() ==> (#[trigger] files[j]).edition_id != Some(nid),
        moved.len() == src.len(),
        forall|k: int|
            0 <= k < moved.len() ==> (#[trigger] moved[k]).edition_id == Some(nid)
                && moved[k].name == src[k].name,
    ensures
        (files + moved).filter(|f: FileM| f.edition_id == Some(nid)).map_values(|f: FileM| f.name)
            == src.map_values(|f: FileM| f.name),
{
    let pnew = |f: FileM| f.edition_id == Some(nid);
    assert(forall|j: int| 0 <= j < files.len() ==> !pnew(#[trigger] files[j]));
    assert(forall|k: int| 0 <= k < moved.len() ==> pnew(#[trigger] moved[k]));
    crate::seq_util::lemma_filter_concat_right(files, moved, pnew);
    assert((files + moved).filter(pnew).map_values(|f: FileM| f.name) =~= src.map_values(
        |f: FileM| f.name,
    ));
}

/// Appending rows of one edition does not change another edition's file
/// listing.
proof fn lemma_other_edition_files(files: Seq<FileM>, moved: Seq<FileM>, oid: int)
    requires
        forall|k: int| 0 <= k < moved.len() ==> (#[trigger] moved[k]).edition_id != Some(oid),
    ensures
        (files + moved).filter(|f: FileM| f.edition_id == Some(oid)) == files.filter(
            |f: FileM| f.edition_id == Some(oid),
        ),
{
    let pold = |f: FileM| f.edition_id == Some(oid);
    assert(forall|k: int| 0 <= k < moved.len() ==> !pold(#[trigger] moved[k]));
    crate::seq_util::lemma_filter_concat_left(files, moved, pold);
}

/// The working part of the round-trip proof, carried out from only the
/// parts of well-formedness it touches.
#[verifier::rlimit(100)]
proof fn round_trip_inner(pre: StateM, aid: int, user: Seq<char>, notes: Seq<char>)
    requires
        pre.rel.ids_bounded(),
        pre.rel.unique_ids(),
        pre.rel.article_author(aid) == Some(user),
        !pre.rel.has_draft_of_article(aid),
        pre.rel.has_edition_of_article(aid),
        !is_blank(latest_edition_of(pre.rel, aid).title),
        forall|j: int|
            0 <= j < pre.rel.files.len() ==> match (#[trigger] pre.rel.files[j]).draft_id {
                Some(d) => d < pre.rel.next_id,
                None => true,
            } && match pre.rel.files[j].edition_id {
                Some(x) => x < pre.rel.next_id,
                None => true,
            },
    ensures
        edit_article_tr(pre, aid, user).1 is Ok,
        ({
            let e = latest_edition_of(pre.rel, aid);
            let mid = edit_article_tr(pre, aid, user).0;
            let did = edit_article_ok(pre, aid).1;
            let p = publish_draft_tr(mid, did, user, notes);
            let post = p.0;
            let e2 = latest_edition_of(post.rel, aid);
            &&& p.1 == Ok::<i32, NotFoundBadRequest>(aid as i32)
            &&& e2.article_id == aid
            &&& e2.title == e.title
            &&& e2.content == e.content
            &&& e2.notes == notes
            &&& e2.id != e.id
            &&& ({
                let nid = e2.id;
                post.rel.files.filter(|f: FileM| f.edition_id == Some(nid)).map_values(
                    |f: FileM| f.name,
                ) == latest_edition_files(pre.rel, aid).map_values(|f: FileM| f.name)
            })
            &&& ({
                let oid = e.id;
                post.rel.files.filter(|f: FileM| f.edition_id == Some(oid))
                    == pre.rel.files.filter(|f: FileM| f.edition_id == Some(oid))
            })
            &&& forall|j: int|
                0 <= j < pre.blobs.len() && (#[trigger] pre.blobs[j]).owner == BlobOwnerM::Edition(
                    e.id,
                ) ==> post.blobs.contains(pre.blobs[j])
        }),
{
    assert(pre.rel.has_article(aid));
    lemma_latest_edition_idx(pre.rel.editions, aid);
    let lx = latest_edition_idx(pre.rel.editions, aid);
    let e = pre.rel.editions[lx];
    assert(0 <= lx < pre.rel.editions.len() && e.article_id == aid);
    assert(1 <= e.id < pre.rel.next_id);
    let mid = edit_article_ok(pre, aid).0;
    let did = pre.rel.next_id;
    assert(edit_article_ok(pre, aid).1 == did);
    let rel1 = store_create_draft_from_article(pre.rel, aid).0;
    let src = latest_edition_files(pre.rel, aid);
    assert(latest_edition_of(rel1, aid) == e);
    assert(latest_edition_files(rel1, aid) == src);
    let nd = crate::model::DraftM {
        id: did,
        article_id: aid,
        title: e.title,
        content: e.content,
        created_at: pre.rel.clock + 1,
        updated_at: pre.rel.clock + 1,
    };
    assert(mid.rel.drafts == pre.rel.drafts.push(nd));
    assert(mid.rel.editions == pre.rel.editions);
    let fresh = Seq::new(
        src.len(),
        |k: int| FileM { id: did + 1 + k, draft_id: Some(did), edition_id: None, name: src[k].name },
    );
    assert(mid.rel.files =~= pre.rel.files + fresh);
    assert(mid.rel.next_id == did + 1 + src.len());
    // the new draft carries a fresh id, so draft lookups in the middle
    // state are unambiguous
    assert(forall|i: int|
        0 <= i < pre.rel.drafts.len() ==> #[trigger] mid.rel.drafts[i] == pre.rel.drafts[i]);
    assert forall|p2: int, q2: int|
        0 <= p2 < q2 < mid.rel.drafts.len() implies (#[trigger] mid.rel.drafts[p2]).id != (
    #[trigger] mid.rel.drafts[q2]).id by {
        if q2 == mid.rel.drafts.len() - 1 {
            assert(mid.rel.drafts[p2] == pre.rel.drafts[p2]);
            assert(pre.rel.drafts[p2].id < pre.rel.next_id);
        } else {
            assert(mid.rel.drafts[p2] == pre.rel.drafts[p2] && mid.rel.drafts[q2]
                == pre.rel.drafts[q2]);
        }
    }
    crate::model::lemma_draft_idx(mid.rel, mid.rel.drafts.len() - 1);
    assert(mid.rel.draft_by_id(did) == nd);
    assert(forall|i: int|
        0 <= i < pre.rel.articles.len() ==> #[trigger] mid.rel.articles[i] == pre.rel.articles[i]);
    crate::model::lemma_article_author_eq(pre.rel, mid.rel);
    assert(mid.rel.draft_owned(did, user));
    // publishing the unchanged draft succeeds
    let p = publish_draft_tr(mid, did, user, notes);
    let post = p.0;
    let eid2 = mid.rel.next_id;
    let relp1 = store_create_edition_from_draft(mid.rel, did, notes).0;
    let relp2 = store_move_draft_files_to_edition(relp1, did, eid2);
    let e2v = EditionM {
        id: eid2,
        article_id: aid,
        title: e.title,
        content: e.content,
        notes,
        published_at: mid.rel.clock + 1,
    };
    assert(relp1.editions == mid.rel.editions.push(e2v));
    assert(p.1 == Ok::<i32, NotFoundBadRequest>(aid as i32));
    // ownership persists to the delete step
    assert(forall|i: int|
        0 <= i < mid.rel.articles.len() ==> #[trigger] relp2.articles[i] == mid.rel.articles[i]);
    assert(forall|i: int|
        0 <= i < mid.rel.drafts.len() ==> #[trigger] relp2.drafts[i] == mid.rel.drafts[i]);
    crate::model::lemma_draft_author_eq(mid.rel, relp2);
    assert(relp2.draft_owned(did, user));
    assert(post.rel == store_delete_draft(relp2, did, user).0);
    assert(post.rel.editions == pre.rel.editions.push(e2v));
    // the new edition is the latest of the article
    assert(latest_edition_idx(post.rel.editions, aid) == post.rel.editions.len() - 1);
    assert(latest_edition_of(post.rel, aid) == e2v);
    assert(e2v.id == eid2 && eid2 > e.id);
    // no old row names the draft or the fresh edition id
    assert(forall|j: int|
        0 <= j < pre.rel.files.len() ==> (#[trigger] pre.rel.files[j]).draft_id != Some(did)
            && pre.rel.files[j].edition_id != Some(eid2) && pre.rel.files[j].edition_id != Some(
            did,
        ));
    // after the move, old rows are unchanged and the fresh rows belong to
    // the new edition
    let moved = Seq::new(
        src.len(),
        |k: int|
            FileM { id: did + 1 + k, draft_id: None, edition_id: Some(eid2), name: src[k].name },
    );
    let fm = |f: FileM|
        if f.draft_id == Some(did) {
            FileM { draft_id: None, edition_id: Some(eid2), ..f }
        } else {
            f
        };
    assert(relp2.files == mid.rel.files.map_values(fm));
    assert(relp2.files =~= pre.rel.files + moved) by {
        assert forall|j: int| 0 <= j < mid.rel.files.len() implies #[trigger] relp2.files[j] == (
            if j < pre.rel.files.len() {
                pre.rel.files[j]
            } else {
                moved[j - pre.rel.files.len()]
            }
        ) by {
            if j < pre.rel.files.len() {
                assert(mid.rel.files[j] == pre.rel.files[j]);
                assert(pre.rel.files[j].draft_id != Some(did));
            } else {
                assert(mid.rel.files[j] == fresh[j - pre.rel.files.len()]);
            }
        }
    }
    // the final cascade filter keeps every row
    assert forall|j: int|
        0 <= j < relp2.files.len() implies (#[trigger] relp2.files[j]).draft_id != Some(did) by {
        if j < pre.rel.files.len() {
            assert(relp2.files[j] == pre.rel.files[j]);
        } else {
            assert(relp2.files[j] == moved[j - pre.rel.files.len()]);
        }
    }
    crate::seq_util::lemma_filter_all(relp2.files, |f: FileM| f.draft_id != Some(did));
    assert(post.rel.files == relp2.files);
    // files of the new edition: exactly the moved rows, with the names of
    // the old edition's rows; the old edition's listing is unchanged
    lemma_fresh_edition_files(pre.rel.files, moved, src, eid2);
    lemma_other_edition_files(pre.rel.files, moved, e.id);
    assert(({
        let nid = latest_edition_of(post.rel, aid).id;
        post.rel.files.filter(|f: FileM| f.edition_id == Some(nid)).map_values(|f: FileM| f.name)
            == latest_edition_files(pre.rel, aid).map_values(|f: FileM| f.name)
    }));
    assert(({
        let oid = e.id;
        post.rel.files.filter(|f: FileM| f.edition_id == Some(oid)) == pre.rel.files.filter(
            |f: FileM| f.edition_id == Some(oid),
        )
    }));
    // blobs of the old edition: untouched
    assert forall|j: int|
        0 <= j < pre.blobs.len() && (#[trigger] pre.blobs[j]).owner == BlobOwnerM::Edition(
            e.id,
        ) implies post.blobs.contains(pre.blobs[j]) by {
        assert(mid.blobs[j] == pre.blobs[j]);
        assert(post.blobs[j] == pre.blobs[j]);
    }
}

/// The ownership round trip: opening a published article for editing and
/// immediately publishing the new draft, unchanged, reproduces the latest
/// edition's title, content and file names under fresh ids — and the old
/// edition's file rows and blobs are untouched.
pub proof fn edit_then_publish_round_trip(pre: StateM, aid: int, user: Seq<char>, notes: Seq<char>)
    requires
        pre.inv(),
        pre.rel.article_author(aid) == Some(user),
        !pre.rel.has_draft_of_article(aid),
    ensures
        edit_article_tr(pre, aid, user).1 is Ok,
        ({
            let e = latest_edition_of(pre.rel, aid);
            let mid = edit_article_tr(pre, aid, user).0;
            let did = edit_article_ok(pre, aid).1;
            let p = publish_draft_tr(mid, did, user, notes);
            let post = p.0;
            let e2 = latest_edition_of(post.rel, aid);
            &&& p.1 == Ok::<i32, NotFoundBadRequest>(aid as i32)
            &&& e2.article_id == aid
            &&& e2.title == e.title
            &&& e2.content == e.content
            &&& e2.notes == notes
            &&& e2.id != e.id
            &&& ({
                let nid = e2.id;
                post.rel.files.filter(|f: FileM| f.edition_id == Some(nid)).map_values(
                    |f: FileM| f.name,
                ) == latest_edition_files(pre.rel, aid).map_values(|f: FileM| f.name)
            })
            &&& ({
                let oid = e.id;
                post.rel.files.filter(|f: FileM| f.edition_id == Some(oid))
                    == pre.rel.files.filter(|f: FileM| f.edition_id == Some(oid))
            })
            &&& forall|j: int|
                0 <= j < pre.blobs.len() && (#[trigger] pre.blobs[j]).owner == BlobOwnerM::Edition(
                    e.id,
                ) ==> post.blobs.contains(pre.blobs[j])
        }),
{
    assert(pre.rel.has_article(aid));
    assert(pre.rel.has_edition_of_article(aid)) by {
        let w = choose|w: int|
            0 <= w < pre.rel.articles.len() && (#[trigger] pre.rel.articles[w]).id == aid;
        assert(pre.rel.articles[w].id == aid);
        if !pre.rel.has_edition_of_article(pre.rel.articles[w].id) {
            assert(pre.rel.has_draft_of_article(aid));
        }
    }
    lemma_latest_edition_idx(pre.rel.editions, aid);
    assert(!is_blank(latest_edition_of(pre.rel, aid).title));
    assert forall|j: int| 0 <= j < pre.rel.files.len() implies match (
    #[trigger] pre.rel.files[j]).draft_id {
        Some(d) => d < pre.rel.next_id,
        None => true,
    } && match pre.rel.files[j].edition_id {
        Some(x) => x < pre.rel.next_id,
        None => true,
    } by {
        match pre.rel.files[j].draft_id {
            Some(d2) => {
                assert(pre.rel.has_draft(d2));
                let v = choose|v: int|
                    0 <= v < pre.rel.drafts.len() && (#[trigger] pre.rel.drafts[v]).id == d2;
                assert(pre.rel.drafts[v].id < pre.rel.next_id);
            },
            None => {},
        }
        match pre.rel.files[j].edition_id {
            Some(x2) => {
                assert(pre.rel.has_edition(x2));
                let v = choose|v: int|
                    0 <= v < pre.rel.editions.len() && (#[trigger] pre.rel.editions[v]).id == x2;
                assert(pre.rel.editions[v].id < pre.rel.next_id);
            },
            None => {},
        }
    }
    round_trip_inner(pre, aid, user, notes);
}

} // verus!
