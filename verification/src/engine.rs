//! The lifecycle manager: every operation opens on the relational store,
//! performs the blob-store writes the relational step calls for, and
//! carries an exact whole-system transition contract. The consistency
//! invariant — every committed file row has its blob at the derived path —
//! is proved preserved by every operation.

use vstd::prelude::*;

use crate::blob::{BlobOwner, BlobStore};
use crate::model::{BlobM, BlobOwnerM, EditionM, FileM, StateM};
use crate::schema::{CreateFileResult, Draft, DraftSummary, Edition, FileInfo, MaybeNotFound,
    MaybeNotFoundForbidden, NotFoundBadRequest, NotFoundForbidden};
use crate::store::{empty_store, Store};
use crate::transitions::{create_draft_tr, create_draft_tr_preserves_inv, create_file_tr,
    create_file_tr_preserves_inv, delete_article_tr, delete_article_tr_preserves_inv,
    delete_draft_tr, delete_draft_tr_preserves_inv, delete_file_tr, delete_file_tr_preserves_inv,
    edit_article_ok, edit_article_ok_preserves_inv, edit_article_tr, file_info_for,
    publish_draft_tr, publish_draft_tr_preserves_inv, store_copy_files_to_draft,
    store_create_draft_from_article, store_create_edition_from_draft,
    store_move_draft_files_to_edition, update_draft_tr, update_draft_tr_preserves_inv};

verus! {

/// The lifecycle manager: the relational store and the blob store it
/// keeps consistent.
pub struct QueryEngine {
    pub store: Store,
    pub blobs: BlobStore,
}

impl View for QueryEngine {
    type V = StateM;

    open spec fn view(&self) -> StateM {
        StateM { rel: self.store@, blobs: self.blobs@ }
    }
}

impl QueryEngine {
    /// Well-formedness of the whole system.
    pub open spec fn wf(self) -> bool {
        self@.inv()
    }

    /// A fresh engine over empty stores.
    pub fn new() -> (r: QueryEngine)
        ensures
            r.wf(),
            r@.rel == empty_store(),
            r@.blobs == Seq::<BlobM>::empty(),
    {
        QueryEngine { store: Store::new(), blobs: BlobStore::new() }
    }

    /// Creates a fresh article for the author with an empty open draft,
    /// and returns the draft's summary.
    pub fn create_draft(&mut self, author_id: String) -> (r: DraftSummary)
        requires
            old(self).wf(),
            old(self)@.rel.next_id + 2 <= i32::MAX as int,
            old(self)@.rel.clock + 1 <= u64::MAX as int,
        ensures
            final(self).wf(),
            final(self)@ == create_draft_tr(old(self)@, author_id@).0,
            r.id as int == create_draft_tr(old(self)@, author_id@).1,
            r.article_id is None,
            r.title@ == Seq::<char>::empty(),
            r.created_at@ == crate::numfmt::dec_str(old(self)@.rel.clock + 1),
            r.updated_at@ == crate::numfmt::dec_str(old(self)@.rel.clock + 1),
    {
        let r = self.store.create_draft(&author_id);
        proof {
            assert(self@ =~= create_draft_tr(old(self)@, author_id@).0);
            create_draft_tr_preserves_inv(old(self)@, author_id@);
        }
        r
    }

    /// The id of the article's open draft, shown only to the author.
    pub fn get_article_draft_id(&self, user_id: String, article_id: i32) -> (r: Option<i32>)
        requires
            self.wf(),
        ensures
            match r {
                Some(d) => self@.rel.article_draft_id(article_id as int, user_id@) == Some(
                    d as int,
                ),
                None => self@.rel.article_draft_id(article_id as int, user_id@) is None,
            },
    {
        self.store.get_article_draft_id(&user_id, article_id)
    }

    /// Sets the title and content of the author's draft; a missing or
    /// foreign draft is hidden as `NotFound`.
    pub fn update_draft(&mut self, id: i32, author_id: String, title: String, body: String) -> (r:
        MaybeNotFound)
        requires
            old(self).wf(),
            old(self)@.rel.clock + 1 <= u64::MAX as int,
        ensures
            final(self).wf(),
            (final(self)@, r) == update_draft_tr(old(self)@, id as int, author_id@, title@, body@),
    {
        let n = self.store.update_draft(id, &author_id, &title, &body);
        proof {
            assert(self@ =~= update_draft_tr(old(self)@, id as int, author_id@, title@, body@).0);
            update_draft_tr_preserves_inv(old(self)@, id as int, author_id@, title@, body@);
        }
        if n == 0 {
            MaybeNotFound::NotFound
        } else {
            MaybeNotFound::Done
        }
    }

    /// The author's own view of a draft, with its attached files.
    pub fn get_draft(&self, id: i32, author_id: String) -> (r: Option<Draft>)
        requires
            self.wf(),
        ensures
            match r {
                Some(d) => {
                    &&& self@.rel.draft_owned(id as int, author_id@)
                    &&& d.id == id
                    &&& ({
                        let dm = self@.rel.draft_by_id(id as int);
                        &&& d.title@ == dm.title
                        &&& d.content@ == dm.content
                        &&& d.created_at@ == crate::numfmt::dec_str(dm.created_at)
                        &&& d.updated_at@ == crate::numfmt::dec_str(dm.updated_at)
                        &&& d.article_id == if self@.rel.has_edition_of_article(dm.article_id) {
                            Some(dm.article_id as i32)
                        } else {
                            None::<i32>
                        }
                    })
                    &&& ({
                        let did = id as int;
                        d.files@.map_values(|f: crate::schema::File| (f.id as int, f.name@))
                            == self@.rel.files.filter(|f: FileM| f.draft_id == Some(did)).map_values(
                            |f: FileM| (f.id, f.name),
                        )
                    })
                },
                None => !self@.rel.draft_owned(id as int, author_id@),
            },
    {
        match self.store.get_draft(id, &author_id) {
            Some(d) => {
                let files = self.store.list_draft_files(id);
                Some(Draft { files, ..d })
            },
            None => None,
        }
    }

    /// What a caller may learn about a draft-owned file; hidden from
    /// everyone but the owner.
    pub fn get_file_info(&self, file_id: i32, user_id: String) -> (r: Option<FileInfo>)
        requires
            self.wf(),
        ensures
            match r {
                Some(fi) => file_info_for(self@.rel, file_id as int) == Some(
                    (fi.author_id@, fi.name@, fi.draft_id as int),
                ) && fi.author_id@ == user_id@,
                None => ({
                    let s = file_info_for(self@.rel, file_id as int);
                    s is None || (s->0).0 != user_id@
                }),
            },
    {
        match self.store.get_file_info(file_id) {
            Some(fi) => {
                if fi.author_id == user_id {
                    Some(fi)
                } else {
                    None
                }
            },
            None => None,
        }
    }

    /// Attaches an uploaded file to the author's draft: the row is
    /// inserted and the blob moves into the draft's directory under the
    /// fresh file id, in one step. A taken name is a conflict; a missing
    /// or foreign draft is hidden as `NotFound`.
    pub fn create_file(&mut self, draft_id: i32, name: String, user_id: String) -> (r: Result<
        i32,
        NotFoundBadRequest,
    >)
        requires
            old(self).wf(),
            old(self)@.rel.next_id + 1 <= i32::MAX as int,
        ensures
            final(self).wf(),
            (final(self)@, r) == create_file_tr(old(self)@, draft_id as int, name@, user_id@),
    {
        let author = self.store.get_draft_author(draft_id);
        let owned = match &author {
            Some(a) => *a == user_id,
            None => false,
        };
        if !owned {
            proof {
                assert(self@ =~= create_file_tr(old(self)@, draft_id as int, name@, user_id@).0);
            }
            return Err(NotFoundBadRequest::NotFound);
        }
        match self.store.create_file(draft_id, &name) {
            CreateFileResult::NameConflict => {
                proof {
                    assert(self@ =~= create_file_tr(
                        old(self)@,
                        draft_id as int,
                        name@,
                        user_id@,
                    ).0);
                }
                Err(NotFoundBadRequest::Bad)
            },
            CreateFileResult::Created(fid) => {
                self.blobs.place(BlobOwner::Draft(draft_id), fid, name);
                proof {
                    assert(self@ =~= create_file_tr(
                        old(self)@,
                        draft_id as int,
                        name@,
                        user_id@,
                    ).0);
                    create_file_tr_preserves_inv(old(self)@, draft_id as int, name@, user_id@);
                }
                Ok(fid)
            },
        }
    }

    /// Deletes a draft-owned file: the row and the blob path go together.
    /// Visible only to the owner; repeating the call reports `NotFound`
    /// and touches nothing.
    pub fn delete_file(&mut self, file_id: i32, user_id: String) -> (r: MaybeNotFound)
        requires
            old(self).wf(),
        ensures
            final(self).wf(),
            (final(self)@, r) == delete_file_tr(old(self)@, file_id as int, user_id@),
    {
        let info = self.store.get_file_info(file_id);
        let owned = match &info {
            Some(fi) => fi.author_id == user_id,
            None => false,
        };
        if !owned {
            return MaybeNotFound::NotFound;
        }
        self.store.delete_file(file_id);
        self.blobs.remove_file(file_id);
        proof {
            assert(self@ =~= delete_file_tr(old(self)@, file_id as int, user_id@).0);
            delete_file_tr_preserves_inv(old(self)@, file_id as int, user_id@);
        }
        MaybeNotFound::Done
    }

    /// The public view of one edition, with the article's edition history
    /// (most recent first) and the edition's files.
    pub fn get_edition(&self, edition_id: i32) -> (r: Option<Edition>)
        requires
            self.wf(),
        ensures
            match r {
                Some(e) => self@.rel.has_edition(edition_id as int) && ({
                    let em = self@.rel.edition_by_id(edition_id as int);
                    &&& e.id == edition_id
                    &&& e.article_id as int == em.article_id
                    &&& e.title@ == em.title
                    &&& e.content@ == em.content
                    &&& e.notes@ == em.notes
                    &&& e.published_at@ == crate::numfmt::dec_str(em.published_at)
                    &&& ({
                        let aid = em.article_id;
                        e.editions@.map_values(
                            |s: crate::schema::EditionSummary| (s.id as int, s.title@, s.notes@, s.published_at@),
                        ) == self@.rel.editions.filter(
                            |e2: EditionM| e2.article_id == aid,
                        ).map_values(
                            |e2: EditionM| (e2.id, e2.title, e2.notes, crate::numfmt::dec_str(
                                e2.published_at,
                            )),
                        ).reverse()
                    })
                    &&& ({
                        let eid = edition_id as int;
                        e.files@.map_values(|f: crate::schema::File| (f.id as int, f.name@))
                            == self@.rel.files.filter(
                            |f: FileM| f.edition_id == Some(eid),
                        ).map_values(|f: FileM| (f.id, f.name))
                    })
                }),
                None => !self@.rel.has_edition(edition_id as int),
            },
    {
        match self.store.get_edition(edition_id) {
            Some(e) => {
                let editions = self.store.list_editions(e.article_id);
                let files = self.store.list_edition_files(edition_id);
                Some(Edition { editions, files, ..e })
            },
            None => None,
        }
    }
}

impl QueryEngine {
    /// Opens an article for editing: seeds a draft from the latest
    /// edition and hard-links every one of that edition's blobs into the
    /// new draft's directory under a fresh file id. Only the author may
    /// do this, and only while no draft of the article is open.
    #[verifier::loop_isolation(false)]
    pub fn edit_article(&mut self, user_id: String, article_id: i32) -> (r: Result<
        i32,
        NotFoundForbidden,
    >)
        requires
            old(self).wf(),
            old(self)@.rel.next_id + old(self)@.rel.files.len() + 2 <= i32::MAX as int,
            old(self)@.rel.clock + 1 <= u64::MAX as int,
            old(self)@.rel.article_author(article_id as int) == Some(user_id@) ==> !old(
                self,
            )@.rel.has_draft_of_article(article_id as int),
        ensures
            final(self).wf(),
            (final(self)@, r) == edit_article_tr(old(self)@, article_id as int, user_id@),
    {
        let ghost aid: int = article_id as int;
        let ghost pre = old(self)@;
        let author = self.store.get_article_author_id(article_id);
        let a = match author {
            None => {
                return Err(NotFoundForbidden::NotFound);
            },
            Some(a) => a,
        };
        if !(a == user_id) {
            return Err(NotFoundForbidden::Forbidden);
        }
        proof {
            // the article is published: owned, without an open draft, the
            // orphan rule leaves it an edition
            assert(pre.rel.has_article(aid));
            let w = choose|w: int|
                0 <= w < pre.rel.articles.len() && (#[trigger] pre.rel.articles[w]).id == aid;
            assert(pre.rel.articles[w].id == aid);
            if !pre.rel.has_edition_of_article(pre.rel.articles[w].id) {
                assert(pre.rel.has_draft_of_article(aid));
            }
            assert(pre.rel.has_edition_of_article(aid));
        }
        let draft_id = self.store.create_draft_from_article(article_id);
        let ghost did: int = draft_id as int;
        proof {
            assert(self.store@.has_edition_of_article(aid)) by {
                let w = choose|w: int|
                    0 <= w < pre.rel.editions.len() && (#[trigger] pre.rel.editions[w]).article_id
                        == aid;
                assert(self.store@.editions[w].article_id == aid);
            }
        }
        let files = self.store.copy_article_files_to_draft(article_id, draft_id);
        let ghost rel2 = self.store@;
        let ghost triples = store_copy_files_to_draft(
            store_create_draft_from_article(pre.rel, aid).0,
            aid,
            did,
        ).1;
        let mut k: usize = 0;
        while k < files.len()
            invariant
                k <= files.len(),
                self.store@ == rel2,
                files@.map_values(|t: (i32, i32, String)| (t.0 as int, t.1 as int, t.2@))
                    == triples,
                self.blobs@ == pre.blobs + Seq::new(
                    k as nat,
                    |q: int| BlobM { owner: BlobOwnerM::Draft(did), file_id: triples[q].1, name: triples[q].2 },
                ),
            decreases files.len() - k,
        {
            let new_id = files[k].1;
            let fname = files[k].2.clone();
            proof {
                assert(files@.map_values(
                    |t: (i32, i32, String)| (t.0 as int, t.1 as int, t.2@),
                )[k as int] == triples[k as int]);
            }
            self.blobs.place(BlobOwner::Draft(draft_id), new_id, fname);
            proof {
                assert(self.blobs@ =~= pre.blobs + Seq::new(
                    (k + 1) as nat,
                    |q: int| BlobM { owner: BlobOwnerM::Draft(did), file_id: triples[q].1, name: triples[q].2 },
                ));
            }
            k = k + 1;
        }
        proof {
            assert(triples.len() == files@.len());
            assert(self@.blobs =~= edit_article_ok(pre, aid).0.blobs);
            assert(self@ =~= edit_article_tr(pre, aid, user_id@).0);
            edit_article_ok_preserves_inv(pre, aid);
        }
        Ok(draft_id)
    }

    /// Deletes the author's draft: the row, its file rows and the whole
    /// draft blob directory go together, and an article thereby left with
    /// no edition and no draft is deleted too. A missing or foreign draft
    /// is hidden as `NotFound`.
    pub fn delete_draft(&mut self, id: i32, author_id: String) -> (r: MaybeNotFound)
        requires
            old(self).wf(),
        ensures
            final(self).wf(),
            (final(self)@, r) == delete_draft_tr(old(self)@, id as int, author_id@),
    {
        let ghost did: int = id as int;
        let ghost pre = old(self)@;
        let deleted = self.store.delete_draft(id, &author_id);
        match deleted {
            Some(article_id) => {
                self.store.delete_article_if_no_editions(article_id);
                self.blobs.remove_dir(BlobOwner::Draft(id));
                proof {
                    let o: BlobOwnerM = (BlobOwner::Draft(id))@;
                    assert(o == BlobOwnerM::Draft(did));
                    crate::seq_util::lemma_filter_congruence(
                        pre.blobs,
                        |b: BlobM| b.owner != o,
                        |b: BlobM| b.owner != BlobOwnerM::Draft(did),
                    );
                    assert(self@ =~= delete_draft_tr(pre, did, author_id@).0);
                    delete_draft_tr_preserves_inv(pre, did, author_id@);
                }
                MaybeNotFound::Done
            },
            None => MaybeNotFound::NotFound,
        }
    }

    /// Publishes the author's draft: a new immutable edition snapshots the
    /// title, content and notes; every file row of the draft is re-pointed
    /// to the edition; the draft row goes; and the draft's blob directory
    /// is renamed to the edition's. A blank title is rejected before any
    /// mutation; a missing or foreign draft is hidden as `NotFound`.
    #[verifier::rlimit(50)]
    pub fn publish_draft(&mut self, id: i32, author_id: String, notes: Option<String>) -> (r:
        Result<i32, NotFoundBadRequest>)
        requires
            old(self).wf(),
            old(self)@.rel.next_id + 1 <= i32::MAX as int,
            old(self)@.rel.clock + 1 <= u64::MAX as int,
        ensures
            final(self).wf(),
            ({
                let nt = match notes {
                    Some(n) => n@,
                    None => Seq::<char>::empty(),
                };
                (final(self)@, r) == publish_draft_tr(old(self)@, id as int, author_id@, nt)
            }),
    {
        let ghost did: int = id as int;
        let ghost pre = old(self)@;
        let ghost nt: Seq<char> = match &notes {
            Some(n) => n@,
            None => Seq::<char>::empty(),
        };
        let d = match self.store.get_draft(id, &author_id) {
            Some(d) => d,
            None => {
                return Err(NotFoundBadRequest::NotFound);
            },
        };
        if crate::model::title_is_blank(&d.title) {
            return Err(NotFoundBadRequest::Bad);
        }
        let notes_s = match notes {
            Some(n) => n,
            None => String::new(),
        };
        proof {
            assert(notes_s@ == nt);
        }
        let ids = self.store.create_edition_from_draft(id, &author_id, &notes_s);
        let article_id = ids.0;
        let edition_id = ids.1;
        let ghost eid: int = edition_id as int;
        self.store.move_draft_files_to_edition(id, edition_id);
        let ghost rel1 = store_create_edition_from_draft(pre.rel, did, nt).0;
        let ghost rel2 = store_move_draft_files_to_edition(rel1, did, eid);
        proof {
            assert(self.store@ == rel2);
            // lookups and ownership persist across the first two steps
            assert(forall|i: int|
                0 <= i < pre.rel.articles.len() ==> #[trigger] rel2.articles[i]
                    == pre.rel.articles[i]);
            assert(forall|i: int|
                0 <= i < pre.rel.drafts.len() ==> #[trigger] rel2.drafts[i] == pre.rel.drafts[i]);
            crate::model::lemma_draft_author_eq(pre.rel, rel2);
            assert(rel2.draft_owned(did, author_id@));
            // the mid-state keeps every table keyed
            assert(rel2.keyed()) by {
                assert forall|i: int, j: int|
                    0 <= i < j < rel2.articles.len() implies (#[trigger] rel2.articles[i]).id != (
                #[trigger] rel2.articles[j]).id by {
                    assert(rel2.articles[i] == pre.rel.articles[i] && rel2.articles[j]
                        == pre.rel.articles[j]);
                }
                assert forall|i: int, j: int|
                    0 <= i < j < rel2.drafts.len() implies (#[trigger] rel2.drafts[i]).id != (
                #[trigger] rel2.drafts[j]).id && (#[trigger] rel2.drafts[i]).article_id != (
                #[trigger] rel2.drafts[j]).article_id by {
                    assert(rel2.drafts[i] == pre.rel.drafts[i] && rel2.drafts[j]
                        == pre.rel.drafts[j]);
                }
                assert forall|i: int, j: int|
                    0 <= i < j < rel2.editions.len() implies (#[trigger] rel2.editions[i]).id != (
                #[trigger] rel2.editions[j]).id by {
                    if j == rel2.editions.len() - 1 {
                        assert(rel2.editions[i] == pre.rel.editions[i]);
                        assert(pre.rel.editions[i].id < pre.rel.next_id);
                    } else {
                        assert(rel2.editions[i] == pre.rel.editions[i] && rel2.editions[j]
                            == pre.rel.editions[j]);
                    }
                }
                assert forall|i: int, j: int|
                    0 <= i < j < rel2.files.len() implies (#[trigger] rel2.files[i]).id != (
                #[trigger] rel2.files[j]).id by {
                    assert(rel2.files[i].id == pre.rel.files[i].id && rel2.files[j].id
                        == pre.rel.files[j].id);
                }
            }
        }
        self.store.delete_draft(id, &author_id);
        self.blobs.rename_dir(BlobOwner::Draft(id), BlobOwner::Edition(edition_id));
        proof {
            assert(self.blobs@ =~= pre.blobs.map_values(
                |b: BlobM|
                    if b.owner == BlobOwnerM::Draft(did) {
                        BlobM { owner: BlobOwnerM::Edition(eid), ..b }
                    } else {
                        b
                    },
            ));
            assert(self@ =~= publish_draft_tr(pre, did, author_id@, nt).0);
            publish_draft_tr_preserves_inv(pre, did, author_id@, nt);
        }
        Ok(article_id)
    }

    /// Deletes the author's article outright: the row cascades to its
    /// editions, its open draft and their file rows, and every one of
    /// their blob directories is removed. Ownership is visible here, so a
    /// foreign article is `Forbidden`.
    #[verifier::loop_isolation(false)]
    #[verifier::rlimit(80)]
    pub fn delete_article(&mut self, id: i32, user_id: String) -> (r: MaybeNotFoundForbidden)
        requires
            old(self).wf(),
        ensures
            final(self).wf(),
            (final(self)@, r) == delete_article_tr(old(self)@, id as int, user_id@),
    {
        let ghost aid: int = id as int;
        let ghost pre = old(self)@;
        let author = self.store.get_article_author_id(id);
        let a = match author {
            None => {
                return MaybeNotFoundForbidden::NotFound;
            },
            Some(a) => a,
        };
        if !(a == user_id) {
            return MaybeNotFoundForbidden::Forbidden;
        }
        // collect every blob directory belonging to the article
        let eds = self.store.list_edition_ids(id);
        let mut owners: Vec<BlobOwner> = Vec::new();
        let mut k: usize = 0;
        while k < eds.len()
            invariant
                k <= eds.len(),
                self == old(self),
                owners@.map_values(|x: BlobOwner| x@) == eds@.take(k as int).map_values(
                    |x: i32| BlobOwnerM::Edition(x as int),
                ),
            decreases eds.len() - k,
        {
            let ghost owners0 = owners@;
            owners.push(BlobOwner::Edition(eds[k]));
            proof {
                assert(owners@.map_values(|x: BlobOwner| x@) =~= owners0.map_values(
                    |x: BlobOwner| x@,
                ).push(BlobOwnerM::Edition(eds@[k as int] as int)));
                assert forall|j: int|
                    0 <= j < k + 1 implies eds@.take(k + 1).map_values(
                    |x: i32| BlobOwnerM::Edition(x as int),
                )[j] == BlobOwnerM::Edition(eds@[j] as int) by {
                    assert(eds@.take(k + 1)[j] == eds@[j]);
                }
                assert(owners@.map_values(|x: BlobOwner| x@) =~= eds@.take(k + 1).map_values(
                    |x: i32| BlobOwnerM::Edition(x as int),
                ));
            }
            k = k + 1;
        }
        proof {
            assert(eds@.take(eds@.len() as int) =~= eds@);
        }
        let draft = self.store.get_article_draft_id(&user_id, id);
        let ghost owners_eds = owners@.map_values(|x: BlobOwner| x@);
        match draft {
            Some(dr) => {
                owners.push(BlobOwner::Draft(dr));
                proof {
                    assert(owners@.map_values(|x: BlobOwner| x@) =~= owners_eds.push(
                        BlobOwnerM::Draft(dr as int),
                    ));
                }
            },
            None => {},
        }
        let ghost os: Seq<BlobOwnerM> = owners@.map_values(|x: BlobOwner| x@);
        self.store.delete_article(id);
        self.blobs.remove_dirs(&owners);
        proof {
            let eseq = pre.rel.editions.filter(
                |e: EditionM| e.article_id == aid,
            ).map_values(|e: EditionM| e.id);
            assert(eds@.map_values(|x: i32| x as int) == eseq);
            crate::seq_util::lemma_filter_elems(
                pre.rel.editions,
                |e: EditionM| e.article_id == aid,
            );
            // the collected directories are exactly those whose article is
            // the deleted one, for every blob in the store
            assert forall|i: int|
                0 <= i < pre.blobs.len() implies (os.contains(
                (#[trigger] pre.blobs[i]).owner,
            ) <==> pre.rel.owner_article(pre.blobs[i].owner) == aid) by {
                let b = pre.blobs[i];
                let w = choose|w: int|
                    0 <= w < pre.rel.files.len() && crate::model::blob_of(
                        #[trigger] pre.rel.files[w],
                    ) == b;
                assert(crate::model::one_owner(pre.rel.files[w]));
                match b.owner {
                    BlobOwnerM::Draft(dv) => {
                        assert(pre.rel.files[w].draft_id == Some(dv));
                        assert(pre.rel.has_draft(dv));
                        let v = choose|v: int|
                            0 <= v < pre.rel.drafts.len() && (#[trigger] pre.rel.drafts[v]).id
                                == dv;
                        crate::model::lemma_draft_idx(pre.rel, v);
                        assert(pre.rel.owner_article(b.owner) == pre.rel.drafts[v].article_id);
                        if pre.rel.drafts[v].article_id == aid {
                            crate::model::lemma_draft_of_article_idx(pre.rel, v);
                            assert(pre.rel.article_draft_id(aid, user_id@) == Some(dv));
                            assert(os[os.len() - 1] == BlobOwnerM::Draft(dv));
                        } else {
                            if os.contains(b.owner) {
                                let q = choose|q: int| 0 <= q < os.len() && os[q] == b.owner;
                                if q < owners_eds.len() {
                                    assert(os[q] == BlobOwnerM::Edition(eds@[q] as int));
                                    assert(false);
                                } else {
                                    // the draft slot: that draft belongs to the article
                                    let dr2 = match pre.rel.article_draft_id(aid, user_id@) {
                                        Some(x) => x,
                                        None => 0,
                                    };
                                    assert(pre.rel.article_draft_id(aid, user_id@) == Some(dr2));
                                    assert(os[q] == BlobOwnerM::Draft(dr2));
                                    assert(dr2 == dv);
                                    let u = pre.rel.draft_of_article_idx(aid);
                                    assert(0 <= u < pre.rel.drafts.len()
                                        && pre.rel.drafts[u].article_id == aid);
                                    assert(pre.rel.drafts[u].id == dr2);
                                    if u < v {
                                        assert(pre.rel.drafts[u].id != pre.rel.drafts[v].id);
                                    } else if v < u {
                                        assert(pre.rel.drafts[v].id != pre.rel.drafts[u].id);
                                    }
                                    assert(false);
                                }
                            }
                        }
                    },
                    BlobOwnerM::Edition(ev) => {
                        assert(pre.rel.files[w].draft_id is None);
                        assert(pre.rel.files[w].edition_id == Some(ev));
                        assert(pre.rel.has_edition(ev));
                        let v = choose|v: int|
                            0 <= v < pre.rel.editions.len() && (#[trigger] pre.rel.editions[v]).id
                                == ev;
                        crate::model::lemma_edition_idx(pre.rel, v);
                        assert(pre.rel.owner_article(b.owner) == pre.rel.editions[v].article_id);
                        if pre.rel.editions[v].article_id == aid {
                            pre.rel.editions.lemma_filter_contains(
                                |e: EditionM| e.article_id == aid,
                                v,
                            );
                            let fseq = pre.rel.editions.filter(
                                |e: EditionM| e.article_id == aid,
                            );
                            let q = choose|q: int|
                                0 <= q < fseq.len() && fseq[q] == pre.rel.editions[v];
                            assert(eseq[q] == ev);
                            assert(eds@.map_values(|x: i32| x as int)[q] == ev);
                            assert(eds@.map_values(|x: i32| x as int).len() == eds@.len());
                            assert(eseq.len() == fseq.len());
                            assert(q < eds@.len());
                            assert(eds@.map_values(|x: i32| x as int)[q] == eds@[q] as int);
                            assert(eds@[q] as int == ev);
                            assert(owners_eds == eds@.map_values(
                                |x: i32| BlobOwnerM::Edition(x as int)));
                            assert(owners_eds[q] == BlobOwnerM::Edition(eds@[q] as int));
                            assert(owners_eds[q] == BlobOwnerM::Edition(ev));
                            assert(os.contains(b.owner)) by {
                                if os.len() == owners_eds.len() {
                                    assert(os[q] == BlobOwnerM::Edition(ev));
                                } else {
                                    assert(os[q] == owners_eds[q]);
                                }
                            }
                        } else {
                            if os.contains(b.owner) {
                                let q = choose|q: int| 0 <= q < os.len() && os[q] == b.owner;
                                if q < owners_eds.len() {
                                    assert(owners_eds == eds@.map_values(
                                        |x: i32| BlobOwnerM::Edition(x as int)));
                                    assert(os[q] == owners_eds[q]);
                                    assert(os[q] == BlobOwnerM::Edition(eds@[q] as int));
                                    let fseq = pre.rel.editions.filter(
                                        |e: EditionM| e.article_id == aid,
                                    );
                                    crate::seq_util::lemma_filter_elems(
                                        pre.rel.editions,
                                        |e: EditionM| e.article_id == aid,
                                    );
                                    assert(eds@.map_values(|x: i32| x as int).len()
                                        == eds@.len());
                                    assert(eseq.len() == fseq.len());
                                    assert(q < fseq.len());
                                    assert(eds@.map_values(|x: i32| x as int)[q]
                                        == eds@[q] as int);
                                    assert(eseq[q] == eds@[q] as int);
                                    assert(eseq[q] == fseq[q].id);
                                    assert(fseq[q].id == ev && fseq[q].article_id == aid);
                                    let u = choose|u: int|
                                        0 <= u < pre.rel.editions.len() && pre.rel.editions[u]
                                            == fseq[q];
                                    if u < v {
                                        assert(pre.rel.editions[u].id != pre.rel.editions[v].id);
                                    } else if v < u {
                                        assert(pre.rel.editions[v].id != pre.rel.editions[u].id);
                                    }
                                    assert(false);
                                } else {
                                    assert(false);
                                }
                            }
                        }
                    },
                }
            }
            crate::seq_util::lemma_filter_congruence(
                pre.blobs,
                |b: BlobM| !os.contains(b.owner),
                |b: BlobM| pre.rel.owner_article(b.owner) != aid,
            );
            assert(self@ =~= delete_article_tr(pre, aid, user_id@).0);
            delete_article_tr_preserves_inv(pre, aid, user_id@);
        }
        MaybeNotFoundForbidden::Done
    }
}

} // verus!
