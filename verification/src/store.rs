//! The executable model of the relational store: one vector per table, a
//! shared id mint and a logical clock. Each method carries the exact
//! transition or lookup it performs on the mathematical store model.

use vstd::prelude::*;

use crate::model::{lemma_article_idx, lemma_draft_idx, lemma_draft_of_article_idx,
    lemma_edition_idx, lemma_file_idx, lemma_latest_edition_idx, latest_edition_idx, ArticleM,
    DraftM, EditionM, FileM, StoreM};
use crate::transitions::latest_edition_of;
use crate::schema::CreateFileResult;
use crate::transitions::{store_create_draft, store_create_draft_from_article, store_create_file,
    store_create_edition_from_draft, store_delete_article, store_delete_article_if_no_editions,
    store_delete_draft, store_delete_file, store_move_draft_files_to_edition, store_update_draft};

verus! {

/// An article row: the unit of ownership.
pub struct ArticleRow {
    pub id: i32,
    pub author_id: String,
}

impl View for ArticleRow {
    type V = ArticleM;

    open spec fn view(&self) -> ArticleM {
        ArticleM { id: self.id as int, author_id: self.author_id@ }
    }
}

/// A draft row: the mutable working copy of an article.
pub struct DraftRow {
    pub id: i32,
    pub article_id: i32,
    pub title: String,
    pub content: String,
    pub created_at: u64,
    pub updated_at: u64,
}

impl View for DraftRow {
    type V = DraftM;

    open spec fn view(&self) -> DraftM {
        DraftM {
            id: self.id as int,
            article_id: self.article_id as int,
            title: self.title@,
            content: self.content@,
            created_at: self.created_at as int,
            updated_at: self.updated_at as int,
        }
    }
}

/// An edition row: an immutable snapshot made at publish time.
pub struct EditionRow {
    pub id: i32,
    pub article_id: i32,
    pub title: String,
    pub content: String,
    pub notes: String,
    pub published_at: u64,
}

impl View for EditionRow {
    type V = EditionM;

    open spec fn view(&self) -> EditionM {
        EditionM {
            id: self.id as int,
            article_id: self.article_id as int,
            title: self.title@,
            content: self.content@,
            notes: self.notes@,
            published_at: self.published_at as int,
        }
    }
}

/// A file row, owned by exactly one draft or edition.
pub struct FileRow {
    pub id: i32,
    pub draft_id: Option<i32>,
    pub edition_id: Option<i32>,
    pub name: String,
}

impl View for FileRow {
    type V = FileM;

    open spec fn view(&self) -> FileM {
        FileM {
            id: self.id as int,
            draft_id: match self.draft_id {
                Some(d) => Some(d as int),
                None => None,
            },
            edition_id: match self.edition_id {
                Some(e) => Some(e as int),
                None => None,
            },
            name: self.name@,
        }
    }
}

/// The relational store.
pub struct Store {
    pub articles: Vec<ArticleRow>,
    pub drafts: Vec<DraftRow>,
    pub editions: Vec<EditionRow>,
    pub files: Vec<FileRow>,
    pub next_id: i32,
    pub clock: u64,
}

impl View for Store {
    type V = StoreM;

    open spec fn view(&self) -> StoreM {
        StoreM {
            articles: self.articles@.map_values(|r: ArticleRow| r@),
            drafts: self.drafts@.map_values(|r: DraftRow| r@),
            editions: self.editions@.map_values(|r: EditionRow| r@),
            files: self.files@.map_values(|r: FileRow| r@),
            next_id: self.next_id as int,
            clock: self.clock as int,
        }
    }
}

/// The model of a store with no rows at all.
pub open spec fn empty_store() -> StoreM {
    StoreM {
        articles: Seq::empty(),
        drafts: Seq::empty(),
        editions: Seq::empty(),
        files: Seq::empty(),
        next_id: 1,
        clock: 0,
    }
}

impl Store {
    /// Well-formedness of the store's model.
    pub open spec fn wf(self) -> bool {
        self@.inv()
    }

    /// An empty store: no rows, the id mint at one, the clock at zero.
    pub fn new() -> (r: Store)
        ensures
            r.wf(),
            r@ == empty_store(),
    {
        let r = Store {
            articles: Vec::new(),
            drafts: Vec::new(),
            editions: Vec::new(),
            files: Vec::new(),
            next_id: 1,
            clock: 0,
        };
        proof {
            assert(r@ =~= empty_store());
        }
        r
    }

    /// Finds the index of the article row with the given id.
    #[verifier::loop_isolation(false)]
    fn find_article(&self, id: i32) -> (r: Option<usize>)
        ensures
            match r {
                Some(i) => i < self@.articles.len() && self@.articles[i as int].id == id as int,
                None => forall|j: int|
                    0 <= j < self@.articles.len() ==> (#[trigger] self@.articles[j]).id != id as int,
            },
    {
        let mut i: usize = 0;
        while i < self.articles.len()
            invariant
                i <= self.articles.len(),
                forall|j: int|
                    0 <= j < i ==> (#[trigger] self@.articles[j]).id != id as int,
            decreases self.articles.len() - i,
        {
            if self.articles[i].id == id {
                return Some(i);
            }
            i = i + 1;
        }
        None
    }

    /// Finds the index of the draft row with the given id.
    #[verifier::loop_isolation(false)]
    fn find_draft(&self, id: i32) -> (r: Option<usize>)
        ensures
            match r {
                Some(i) => i < self@.drafts.len() && self@.drafts[i as int].id == id as int,
                None => forall|j: int|
                    0 <= j < self@.drafts.len() ==> (#[trigger] self@.drafts[j]).id != id as int,
            },
    {
        let mut i: usize = 0;
        while i < self.drafts.len()
            invariant
                i <= self.drafts.len(),
                forall|j: int| 0 <= j < i ==> (#[trigger] self@.drafts[j]).id != id as int,
            decreases self.drafts.len() - i,
        {
            if self.drafts[i].id == id {
                return Some(i);
            }
            i = i + 1;
        }
        None
    }

    /// Finds the index of the edition row with the given id.
    #[verifier::loop_isolation(false)]
    fn find_edition(&self, id: i32) -> (r: Option<usize>)
        ensures
            match r {
                Some(i) => i < self@.editions.len() && self@.editions[i as int].id == id as int,
                None => forall|j: int|
                    0 <= j < self@.editions.len() ==> (#[trigger] self@.editions[j]).id != id as int,
            },
    {
        let mut i: usize = 0;
        while i < self.editions.len()
            invariant
                i <= self.editions.len(),
                forall|j: int| 0 <= j < i ==> (#[trigger] self@.editions[j]).id != id as int,
            decreases self.editions.len() - i,
        {
            if self.editions[i].id == id {
                return Some(i);
            }
            i = i + 1;
        }
        None
    }

    /// Finds the index of the file row with the given id.
    #[verifier::loop_isolation(false)]
    fn find_file(&self, id: i32) -> (r: Option<usize>)
        ensures
            match r {
                Some(i) => i < self@.files.len() && self@.files[i as int].id == id as int,
                None => forall|j: int|
                    0 <= j < self@.files.len() ==> (#[trigger] self@.files[j]).id != id as int,
            },
    {
        let mut i: usize = 0;
        while i < self.files.len()
            invariant
                i <= self.files.len(),
                forall|j: int| 0 <= j < i ==> (#[trigger] self@.files[j]).id != id as int,
            decreases self.files.len() - i,
        {
            if self.files[i].id == id {
                return Some(i);
            }
            i = i + 1;
        }
        None
    }

    /// Finds the index of the open draft of the given article.
    #[verifier::loop_isolation(false)]
    fn find_draft_of_article(&self, article_id: i32) -> (r: Option<usize>)
        ensures
            match r {
                Some(i) => i < self@.drafts.len() && self@.drafts[i as int].article_id
                    == article_id as int,
                None => forall|j: int|
                    0 <= j < self@.drafts.len() ==> (#[trigger] self@.drafts[j]).article_id
                        != article_id as int,
            },
    {
        let mut i: usize = 0;
        while i < self.drafts.len()
            invariant
                i <= self.drafts.len(),
                forall|j: int|
                    0 <= j < i ==> (#[trigger] self@.drafts[j]).article_id != article_id as int,
            decreases self.drafts.len() - i,
        {
            if self.drafts[i].article_id == article_id {
                return Some(i);
            }
            i = i + 1;
        }
        None
    }

    /// The author of the given article, straight off its row.
    pub fn get_article_author_id(&self, id: i32) -> (r: Option<String>)
        requires
            self@.keyed(),
        ensures
            match r {
                Some(a) => self@.article_author(id as int) == Some(a@),
                None => self@.article_author(id as int) is None,
            },
    {
        match self.find_article(id) {
            Some(i) => {
                proof {
                    lemma_article_idx(self@, i as int);
                }
                Some(self.articles[i].author_id.clone())
            },
            None => {
                proof {
                    if self@.has_article(id as int) {
                        let w = choose|w: int|
                            0 <= w < self@.articles.len() && (#[trigger] self@.articles[w]).id
                                == id as int;
                    }
                }
                None
            },
        }
    }

    /// The author that owns the given draft, through its article.
    pub fn get_draft_author(&self, id: i32) -> (r: Option<String>)
        requires
            self@.keyed(),
        ensures
            match r {
                Some(a) => self@.draft_author(id as int) == Some(a@),
                None => self@.draft_author(id as int) is None,
            },
    {
        match self.find_draft(id) {
            Some(i) => {
                proof {
                    lemma_draft_idx(self@, i as int);
                }
                self.get_article_author_id(self.drafts[i].article_id)
            },
            None => {
                proof {
                    if self@.has_draft(id as int) {
                        let w = choose|w: int|
                            0 <= w < self@.drafts.len() && (#[trigger] self@.drafts[w]).id
                                == id as int;
                    }
                }
                None
            },
        }
    }

    /// The id of the open draft of the given article, visible only to the
    /// article's author.
    pub fn get_article_draft_id(&self, user_id: &String, article_id: i32) -> (r: Option<i32>)
        requires
            self@.keyed(),
        ensures
            match r {
                Some(d) => self@.article_draft_id(article_id as int, user_id@) == Some(d as int),
                None => self@.article_draft_id(article_id as int, user_id@) is None,
            },
    {
        match self.find_draft_of_article(article_id) {
            Some(i) => {
                proof {
                    lemma_draft_of_article_idx(self@, i as int);
                }
                match self.get_article_author_id(article_id) {
                    Some(a) => {
                        if a == *user_id {
                            Some(self.drafts[i].id)
                        } else {
                            None
                        }
                    },
                    None => None,
                }
            },
            None => {
                proof {
                    if self@.has_draft_of_article(article_id as int) {
                        let w = choose|w: int|
                            0 <= w < self@.drafts.len() && (#[trigger] self@.drafts[w]).article_id
                                == article_id as int;
                    }
                }
                None
            },
        }
    }
}

impl Clone for ArticleRow {
    /// A field-for-field copy.
    fn clone(&self) -> (r: Self)
        ensures
            r@ == self@,
    {
        ArticleRow { id: self.id, author_id: self.author_id.clone() }
    }
}

impl Clone for DraftRow {
    /// A field-for-field copy.
    fn clone(&self) -> (r: Self)
        ensures
            r@ == self@,
    {
        DraftRow {
            id: self.id,
            article_id: self.article_id,
            title: self.title.clone(),
            content: self.content.clone(),
            created_at: self.created_at,
            updated_at: self.updated_at,
        }
    }
}

impl Clone for EditionRow {
    /// A field-for-field copy.
    fn clone(&self) -> (r: Self)
        ensures
            r@ == self@,
    {
        EditionRow {
            id: self.id,
            article_id: self.article_id,
            title: self.title.clone(),
            content: self.content.clone(),
            notes: self.notes.clone(),
            published_at: self.published_at,
        }
    }
}

impl Clone for FileRow {
    /// A field-for-field copy.
    fn clone(&self) -> (r: Self)
        ensures
            r@ == self@,
    {
        FileRow {
            id: self.id,
            draft_id: self.draft_id,
            edition_id: self.edition_id,
            name: self.name.clone(),
        }
    }
}

impl Store {
    /// Inserts a fresh article for the author and an empty draft of it,
    /// and returns the new draft's summary.
    pub fn create_draft(&mut self, author_id: &String) -> (r: crate::schema::DraftSummary)
        requires
            old(self)@.next_id + 2 <= i32::MAX as int,
            old(self)@.clock + 1 <= u64::MAX as int,
        ensures
            final(self)@ == store_create_draft(old(self)@, author_id@).0,
            r.id as int == store_create_draft(old(self)@, author_id@).1,
            r.article_id is None,
            r.title@ == Seq::<char>::empty(),
            r.created_at@ == crate::numfmt::dec_str(old(self)@.clock + 1),
            r.updated_at@ == crate::numfmt::dec_str(old(self)@.clock + 1),
    {
        let aid = self.next_id;
        let did = self.next_id + 1;
        self.next_id = self.next_id + 2;
        self.clock = self.clock + 1;
        self.articles.push(ArticleRow { id: aid, author_id: author_id.clone() });
        self.drafts.push(
            DraftRow {
                id: did,
                article_id: aid,
                title: String::new(),
                content: String::new(),
                created_at: self.clock,
                updated_at: self.clock,
            },
        );
        let ts = crate::numfmt::u64_to_string(self.clock);
        proof {
            assert(self@ =~~= store_create_draft(old(self)@, author_id@).0);
        }
        crate::schema::DraftSummary {
            id: did,
            article_id: None,
            title: String::new(),
            created_at: ts.clone(),
            updated_at: ts,
        }
    }

    /// Sets the title and content of the draft if the author owns it, and
    /// returns the number of rows affected.
    pub fn update_draft(&mut self, id: i32, author_id: &String, title: &String, content: &String)
        -> (r: i64)
        requires
            old(self)@.keyed(),
            old(self)@.clock + 1 <= u64::MAX as int,
        ensures
            (final(self)@, r) == store_update_draft(
                old(self)@,
                id as int,
                author_id@,
                title@,
                content@,
            ),
    {
        let found = self.find_draft(id);
        match found {
            Some(i) => {
                proof {
                    lemma_draft_idx(old(self)@, i as int);
                }
                let author = self.get_article_author_id(self.drafts[i].article_id);
                let owned = match author {
                    Some(a) => a == *author_id,
                    None => false,
                };
                if owned {
                    self.clock = self.clock + 1;
                    let row = DraftRow {
                        id: self.drafts[i].id,
                        article_id: self.drafts[i].article_id,
                        title: title.clone(),
                        content: content.clone(),
                        created_at: self.drafts[i].created_at,
                        updated_at: self.clock,
                    };
                    self.drafts.set(i, row);
                    proof {
                        let did = id as int;
                        let now = old(self)@.clock + 1;
                        let postm = store_update_draft(
                            old(self)@,
                            did,
                            author_id@,
                            title@,
                            content@,
                        ).0;
                        assert forall|j: int| 0 <= j < self@.drafts.len() implies self@.drafts[j]
                            == postm.drafts[j] by {
                            if j != i {
                                if j < i {
                                    assert(old(self)@.drafts[j].id != old(self)@.drafts[i as int].id);
                                } else {
                                    assert(old(self)@.drafts[i as int].id != old(self)@.drafts[j].id);
                                }
                            }
                        }
                        assert(self@.drafts =~= postm.drafts);
                        assert(self@ =~= postm);
                    }
                    1
                } else {
                    proof {
                        assert(!old(self)@.draft_owned(id as int, author_id@));
                    }
                    0
                }
            },
            None => {
                proof {
                    if self@.has_draft(id as int) {
                        let w = choose|w: int|
                            0 <= w < self@.drafts.len() && (#[trigger] self@.drafts[w]).id
                                == id as int;
                    }
                    assert(!old(self)@.draft_owned(id as int, author_id@));
                }
                0
            },
        }
    }

    /// Inserts a file row named `name` into the draft, unless the name is
    /// already taken within it.
    #[verifier::loop_isolation(false)]
    pub fn create_file(&mut self, draft_id: i32, name: &String) -> (r: CreateFileResult)
        requires
            old(self)@.next_id + 1 <= i32::MAX as int,
        ensures
            (final(self)@, r) == store_create_file(old(self)@, draft_id as int, name@),
    {
        let ghost did: int = draft_id as int;
        let mut i: usize = 0;
        while i < self.files.len()
            invariant
                i <= self.files.len(),
                self == old(self),
                forall|j: int|
                    0 <= j < i ==> !((#[trigger] self@.files[j]).draft_id == Some(did)
                        && self@.files[j].name == name@),
            decreases self.files.len() - i,
        {
            let hit = match self.files[i].draft_id {
                Some(d) => d == draft_id && self.files[i].name == *name,
                None => false,
            };
            if hit {
                proof {
                    assert(self@.files[i as int].draft_id == Some(did));
                    assert(self@.files[i as int].name == name@);
                    assert(old(self)@.files[i as int] == self@.files[i as int]);
                    assert(crate::transitions::draft_has_file_named(old(self)@, did, name@));
                }
                return CreateFileResult::NameConflict;
            }
            i = i + 1;
        }
        proof {
            if crate::transitions::draft_has_file_named(old(self)@, did, name@) {
                let w = choose|w: int|
                    0 <= w < old(self)@.files.len() && (#[trigger] old(self)@.files[w]).draft_id
                        == Some(did) && old(self)@.files[w].name == name@;
            }
        }
        let fid = self.next_id;
        self.next_id = self.next_id + 1;
        self.files.push(
            FileRow { id: fid, draft_id: Some(draft_id), edition_id: None, name: name.clone() },
        );
        proof {
            assert(self@ =~~= store_create_file(old(self)@, did, name@).0);
        }
        CreateFileResult::Created(fid)
    }

    /// Deletes the file row with the given id.
    #[verifier::loop_isolation(false)]
    pub fn delete_file(&mut self, file_id: i32)
        ensures
            final(self)@ == store_delete_file(old(self)@, file_id as int),
    {
        let ghost fid: int = file_id as int;
        let mut kept: Vec<FileRow> = Vec::new();
        let mut i: usize = 0;
        while i < self.files.len()
            invariant
                i <= self.files.len(),
                self == old(self),
                kept@.map_values(|r: FileRow| r@) == old(self)@.files.take(i as int).filter(
                    |f: FileM| f.id != fid,
                ),
            decreases self.files.len() - i,
        {
            proof {
                crate::seq_util::lemma_filter_take_step(
                    old(self)@.files,
                    |f: FileM| f.id != fid,
                    i as int,
                );
                assert(old(self)@.files[i as int] == self@.files[i as int]);
            }
            let ghost kept0 = kept@;
            if self.files[i].id != file_id {
                let row = self.files[i].clone();
                proof {
                    assert(row@ == old(self)@.files[i as int]);
                }
                kept.push(row);
                proof {
                    assert(kept@.map_values(|r: FileRow| r@) =~= kept0.map_values(
                        |r: FileRow| r@,
                    ).push(old(self)@.files[i as int]));
                    assert(kept@.map_values(|r: FileRow| r@) =~= old(self)@.files.take(
                        i + 1,
                    ).filter(|f: FileM| f.id != fid));
                }
            } else {
                proof {
                    assert(old(self)@.files.take(i + 1).filter(|f: FileM| f.id != fid)
                        == old(self)@.files.take(i as int).filter(|f: FileM| f.id != fid));
                }
            }
            i = i + 1;
        }
        proof {
            assert(old(self)@.files.take(self.files@.len() as int) =~= old(self)@.files);
        }
        self.files = kept;
        proof {
            assert(self@ =~= store_delete_file(old(self)@, fid));
        }
    }

    /// Re-points every file row of the draft to the edition.
    #[verifier::loop_isolation(false)]
    pub fn move_draft_files_to_edition(&mut self, draft_id: i32, edition_id: i32)
        ensures
            final(self)@ == store_move_draft_files_to_edition(
                old(self)@,
                draft_id as int,
                edition_id as int,
            ),
    {
        let ghost did: int = draft_id as int;
        let ghost eid: int = edition_id as int;
        let mut i: usize = 0;
        while i < self.files.len()
            invariant
                i <= self.files.len(),
                self.files@.len() == old(self)@.files.len(),
                self.articles == old(self).articles,
                self.drafts == old(self).drafts,
                self.editions == old(self).editions,
                self.next_id == old(self).next_id,
                self.clock == old(self).clock,
                forall|j: int|
                    0 <= j < i ==> #[trigger] self@.files[j] == (if old(self)@.files[j].draft_id
                        == Some(did) {
                        FileM { draft_id: None, edition_id: Some(eid), ..old(self)@.files[j] }
                    } else {
                        old(self)@.files[j]
                    }),
                forall|j: int|
                    i <= j < self@.files.len() ==> #[trigger] self@.files[j] == old(self)@.files[j],
            decreases self.files.len() - i,
        {
            let is_mine = match self.files[i].draft_id {
                Some(d) => d == draft_id,
                None => false,
            };
            let ghost pre_iter = self@;
            proof {
                assert(self@.files[i as int] == old(self)@.files[i as int]);
            }
            if is_mine {
                let row = FileRow {
                    id: self.files[i].id,
                    draft_id: None,
                    edition_id: Some(edition_id),
                    name: self.files[i].name.clone(),
                };
                proof {
                    assert(row@ == (FileM {
                        draft_id: None,
                        edition_id: Some(eid),
                        ..old(self)@.files[i as int]
                    }));
                }
                self.files.set(i, row);
                proof {
                    assert forall|j: int|
                        0 <= j < self@.files.len() && j != i implies #[trigger] self@.files[j]
                        == pre_iter.files[j] by {
                        assert(self@.files[j] == self.files@[j]@);
                    }
                    assert(self@.files[i as int] == row@);
                }
            } else {
                proof {
                    assert(old(self)@.files[i as int].draft_id != Some(did));
                }
            }
            i = i + 1;
        }
        proof {
            assert(self@.files =~= store_move_draft_files_to_edition(old(self)@, did, eid).files);
            assert(self@ =~= store_move_draft_files_to_edition(old(self)@, did, eid));
        }
    }

    /// Deletes the article when it has no published edition, and returns
    /// the number of rows affected.
    #[verifier::loop_isolation(false)]
    pub fn delete_article_if_no_editions(&mut self, id: i32) -> (r: u64)
        ensures
            (final(self)@, r) == store_delete_article_if_no_editions(old(self)@, id as int),
    {
        let ghost aid: int = id as int;
        let found = self.find_article(id);
        let has_ed = self.has_edition_of(id);
        proof {
            if found is None && old(self)@.has_article(aid) {
                let w = choose|w: int|
                    0 <= w < old(self)@.articles.len() && (#[trigger] old(self)@.articles[w]).id
                        == aid;
            }
        }
        if found.is_none() || has_ed {
            return 0;
        }
        let mut kept: Vec<ArticleRow> = Vec::new();
        let mut i: usize = 0;
        while i < self.articles.len()
            invariant
                i <= self.articles.len(),
                self == old(self),
                kept@.map_values(|r: ArticleRow| r@) == old(self)@.articles.take(i as int).filter(
                    |a: ArticleM| a.id != aid,
                ),
            decreases self.articles.len() - i,
        {
            proof {
                crate::seq_util::lemma_filter_take_step(
                    old(self)@.articles,
                    |a: ArticleM| a.id != aid,
                    i as int,
                );
                assert(old(self)@.articles[i as int] == self@.articles[i as int]);
            }
            let ghost kept0 = kept@;
            if self.articles[i].id != id {
                let row = self.articles[i].clone();
                proof {
                    assert(row@ == old(self)@.articles[i as int]);
                }
                kept.push(row);
                proof {
                    assert(kept@.map_values(|r: ArticleRow| r@) =~= kept0.map_values(
                        |r: ArticleRow| r@,
                    ).push(old(self)@.articles[i as int]));
                    assert(kept@.map_values(|r: ArticleRow| r@) =~= old(self)@.articles.take(
                        i + 1,
                    ).filter(|a: ArticleM| a.id != aid));
                }
            } else {
                proof {
                    assert(old(self)@.articles.take(i + 1).filter(|a: ArticleM| a.id != aid)
                        == old(self)@.articles.take(i as int).filter(|a: ArticleM| a.id != aid));
                }
            }
            i = i + 1;
        }
        proof {
            assert(old(self)@.articles.take(self.articles@.len() as int) =~= old(self)@.articles);
        }
        self.articles = kept;
        proof {
            assert(self@ =~= store_delete_article_if_no_editions(old(self)@, aid).0);
        }
        1
    }

    /// Whether the article has at least one published edition.
    #[verifier::loop_isolation(false)]
    pub fn has_edition_of(&self, article_id: i32) -> (r: bool)
        ensures
            r == self@.has_edition_of_article(article_id as int),
    {
        let mut i: usize = 0;
        while i < self.editions.len()
            invariant
                i <= self.editions.len(),
                forall|j: int|
                    0 <= j < i ==> (#[trigger] self@.editions[j]).article_id != article_id as int,
            decreases self.editions.len() - i,
        {
            if self.editions[i].article_id == article_id {
                proof {
                    assert(self@.editions[i as int].article_id == article_id as int);
                    assert(self@.has_edition_of_article(article_id as int));
                }
                return true;
            }
            i = i + 1;
        }
        proof {
            if self@.has_edition_of_article(article_id as int) {
                let w = choose|w: int|
                    0 <= w < self@.editions.len() && (#[trigger] self@.editions[w]).article_id
                        == article_id as int;
            }
        }
        false
    }
}

impl Store {
    /// Finds the index of the latest edition of the article: the greatest
    /// index among its rows.
    #[verifier::loop_isolation(false)]
    fn find_latest_edition(&self, article_id: i32) -> (r: Option<usize>)
        ensures
            match r {
                Some(i) => i < self@.editions.len() && latest_edition_idx(
                    self@.editions,
                    article_id as int,
                ) == i as int && self@.editions[i as int].article_id == article_id as int
                    && self@.has_edition_of_article(article_id as int),
                None => !self@.has_edition_of_article(article_id as int),
            },
    {
        proof {
            lemma_latest_edition_idx(self@.editions, article_id as int);
        }
        let mut i: usize = self.editions.len();
        while i > 0
            invariant
                i <= self.editions.len(),
                forall|j: int|
                    i <= j < self@.editions.len() ==> (#[trigger] self@.editions[j]).article_id
                        != article_id as int,
            decreases i,
        {
            i = i - 1;
            if self.editions[i].article_id == article_id {
                proof {
                    assert(self@.editions[i as int].article_id == article_id as int);
                    assert(self@.has_edition_of_article(article_id as int));
                    let l = latest_edition_idx(self@.editions, article_id as int);
                    assert(l == i as int);
                }
                return Some(i);
            }
        }
        proof {
            if self@.has_edition_of_article(article_id as int) {
                let w = choose|w: int|
                    0 <= w < self@.editions.len() && (#[trigger] self@.editions[w]).article_id
                        == article_id as int;
            }
        }
        None
    }

    /// Deletes the draft if the author owns it, cascading to its file
    /// rows, and returns the owning article's id when a row went.
    #[verifier::loop_isolation(false)]
    pub fn delete_draft(&mut self, id: i32, author_id: &String) -> (r: Option<i32>)
        requires
            old(self)@.keyed(),
        ensures
            final(self)@ == store_delete_draft(old(self)@, id as int, author_id@).0,
            match r {
                Some(aid) => store_delete_draft(old(self)@, id as int, author_id@).1 == Some(
                    aid as int,
                ),
                None => store_delete_draft(old(self)@, id as int, author_id@).1 is None,
            },
    {
        let ghost did: int = id as int;
        let found = self.find_draft(id);
        let i = match found {
            Some(i) => i,
            None => {
                proof {
                    if self@.has_draft(did) {
                        let w = choose|w: int|
                            0 <= w < self@.drafts.len() && (#[trigger] self@.drafts[w]).id == did;
                    }
                    assert(!old(self)@.draft_owned(did, author_id@));
                }
                return None;
            },
        };
        proof {
            lemma_draft_idx(old(self)@, i as int);
        }
        let author = self.get_article_author_id(self.drafts[i].article_id);
        let owned = match author {
            Some(a) => a == *author_id,
            None => false,
        };
        if !owned {
            proof {
                assert(!old(self)@.draft_owned(did, author_id@));
            }
            return None;
        }
        let article_id = self.drafts[i].article_id;
        proof {
            assert(old(self)@.draft_owned(did, author_id@));
            assert(old(self)@.draft_by_id(did).article_id == article_id as int);
        }
        // remove the draft row
        let mut kept_d: Vec<DraftRow> = Vec::new();
        let mut j: usize = 0;
        while j < self.drafts.len()
            invariant
                j <= self.drafts.len(),
                self == old(self),
                kept_d@.map_values(|r: DraftRow| r@) == old(self)@.drafts.take(j as int).filter(
                    |d: DraftM| d.id != did,
                ),
            decreases self.drafts.len() - j,
        {
            proof {
                crate::seq_util::lemma_filter_take_step(
                    old(self)@.drafts,
                    |d: DraftM| d.id != did,
                    j as int,
                );
                assert(old(self)@.drafts[j as int] == self@.drafts[j as int]);
            }
            let ghost kept0 = kept_d@;
            if self.drafts[j].id != id {
                let row = self.drafts[j].clone();
                proof {
                    assert(row@ == old(self)@.drafts[j as int]);
                }
                kept_d.push(row);
                proof {
                    assert(kept_d@.map_values(|r: DraftRow| r@) =~= kept0.map_values(
                        |r: DraftRow| r@,
                    ).push(old(self)@.drafts[j as int]));
                    assert(kept_d@.map_values(|r: DraftRow| r@) =~= old(self)@.drafts.take(
                        j + 1,
                    ).filter(|d: DraftM| d.id != did));
                }
            }
            j = j + 1;
        }
        proof {
            assert(old(self)@.drafts.take(self.drafts@.len() as int) =~= old(self)@.drafts);
        }
        self.drafts = kept_d;
        // cascade to the draft's file rows
        let mut kept_f: Vec<FileRow> = Vec::new();
        let mut k: usize = 0;
        while k < self.files.len()
            invariant
                k <= self.files.len(),
                self.files == old(self).files,
                kept_f@.map_values(|r: FileRow| r@) == old(self)@.files.take(k as int).filter(
                    |f: FileM| f.draft_id != Some(did),
                ),
            decreases self.files.len() - k,
        {
            proof {
                crate::seq_util::lemma_filter_take_step(
                    old(self)@.files,
                    |f: FileM| f.draft_id != Some(did),
                    k as int,
                );
                assert(old(self)@.files[k as int] == self.files@[k as int]@);
            }
            let ghost kept0 = kept_f@;
            let mine = match self.files[k].draft_id {
                Some(d) => d == id,
                None => false,
            };
            if !mine {
                let row = self.files[k].clone();
                proof {
                    assert(row@ == old(self)@.files[k as int]);
                }
                kept_f.push(row);
                proof {
                    assert(kept_f@.map_values(|r: FileRow| r@) =~= kept0.map_values(
                        |r: FileRow| r@,
                    ).push(old(self)@.files[k as int]));
                    assert(kept_f@.map_values(|r: FileRow| r@) =~= old(self)@.files.take(
                        k + 1,
                    ).filter(|f: FileM| f.draft_id != Some(did)));
                }
            }
            k = k + 1;
        }
        proof {
            assert(old(self)@.files.take(self.files@.len() as int) =~= old(self)@.files);
        }
        self.files = kept_f;
        proof {
            assert(self@ =~= store_delete_draft(old(self)@, did, author_id@).0);
        }
        Some(article_id)
    }

    /// Inserts a draft seeded from the latest edition of the article, and
    /// returns the new draft's id.
    pub fn create_draft_from_article(&mut self, article_id: i32) -> (r: i32)
        requires
            old(self)@.has_edition_of_article(article_id as int),
            old(self)@.next_id + 1 <= i32::MAX as int,
            old(self)@.clock + 1 <= u64::MAX as int,
        ensures
            final(self)@ == store_create_draft_from_article(old(self)@, article_id as int).0,
            r as int == store_create_draft_from_article(old(self)@, article_id as int).1,
    {
        let le = self.find_latest_edition(article_id);
        let lei = match le {
            Some(i) => i,
            None => {
                proof {
                    assert(false);
                }
                return 0;
            },
        };
        let did = self.next_id;
        self.next_id = self.next_id + 1;
        self.clock = self.clock + 1;
        let row = DraftRow {
            id: did,
            article_id,
            title: self.editions[lei].title.clone(),
            content: self.editions[lei].content.clone(),
            created_at: self.clock,
            updated_at: self.clock,
        };
        self.drafts.push(row);
        proof {
            assert(latest_edition_of(old(self)@, article_id as int)
                == old(self)@.editions[lei as int]);
            assert(self@ =~~= store_create_draft_from_article(old(self)@, article_id as int).0);
        }
        did
    }

    /// Inserts, for every file of the article's latest edition, a fresh
    /// row attached to the draft with the same name, and returns each
    /// copied file's old id, new id and name.
    #[verifier::loop_isolation(false)]
    pub fn copy_article_files_to_draft(&mut self, article_id: i32, draft_id: i32) -> (r: Vec<
        (i32, i32, String),
    >)
        requires
            old(self)@.has_edition_of_article(article_id as int),
            old(self)@.next_id + old(self)@.files.len() <= i32::MAX as int,
        ensures
            final(self)@ == crate::transitions::store_copy_files_to_draft(
                old(self)@,
                article_id as int,
                draft_id as int,
            ).0,
            r@.map_values(|t: (i32, i32, String)| (t.0 as int, t.1 as int, t.2@))
                == crate::transitions::store_copy_files_to_draft(
                old(self)@,
                article_id as int,
                draft_id as int,
            ).1,
    {
        let ghost aid: int = article_id as int;
        let ghost did: int = draft_id as int;
        let le = self.find_latest_edition(article_id);
        let lei = match le {
            Some(i) => i,
            None => {
                proof {
                    assert(false);
                }
                return Vec::new();
            },
        };
        let eid_row = self.editions[lei].id;
        let ghost eid: int = latest_edition_of(old(self)@, aid).id;
        proof {
            assert(latest_edition_of(old(self)@, aid) == old(self)@.editions[lei as int]);
            assert(eid_row as int == eid);
        }
        let orig_len = self.files.len();
        let mut triples: Vec<(i32, i32, String)> = Vec::new();
        let mut i: usize = 0;
        while i < orig_len
            invariant
                i <= orig_len,
                orig_len <= self.files@.len(),
                self.articles == old(self).articles,
                self.drafts == old(self).drafts,
                self.editions == old(self).editions,
                self.clock == old(self).clock,
                ({
                    let src = old(self)@.files.take(i as int).filter(
                        |f: FileM| f.edition_id == Some(eid),
                    );
                    &&& src.len() <= i
                    &&& self@.next_id == old(self)@.next_id + src.len()
                    &&& self@.files == old(self)@.files + Seq::new(
                        src.len(),
                        |k: int|
                            FileM {
                                id: old(self)@.next_id + k,
                                draft_id: Some(did),
                                edition_id: None,
                                name: src[k].name,
                            },
                    )
                    &&& triples@.map_values(|t: (i32, i32, String)| (t.0 as int, t.1 as int, t.2@))
                        == Seq::new(
                        src.len(),
                        |k: int| (src[k].id, old(self)@.next_id + k, src[k].name),
                    )
                }),
            decreases orig_len - i,
        {
            proof {
                crate::seq_util::lemma_filter_take_step(
                    old(self)@.files,
                    |f: FileM| f.edition_id == Some(eid),
                    i as int,
                );
                assert(self@.files[i as int] == old(self)@.files[i as int]);
            }
            let ghost src0 = old(self)@.files.take(i as int).filter(
                |f: FileM| f.edition_id == Some(eid),
            );
            let ghost pre_iter = self@;
            let ghost triples0 = triples@;
            let matches_e = match self.files[i].edition_id {
                Some(e) => e == eid_row,
                None => false,
            };
            if matches_e {
                let new_id = self.next_id;
                self.next_id = self.next_id + 1;
                let name = self.files[i].name.clone();
                let old_id = self.files[i].id;
                self.files.push(
                    FileRow { id: new_id, draft_id: Some(draft_id), edition_id: None, name: name.clone() },
                );
                triples.push((old_id, new_id, name));
                proof {
                    let src1 = old(self)@.files.take(i + 1).filter(
                        |f: FileM| f.edition_id == Some(eid),
                    );
                    assert(src1 == src0.push(old(self)@.files[i as int]));
                    assert(forall|k: int| 0 <= k < src0.len() ==> #[trigger] src1[k] == src0[k]);
                    assert(src1[src0.len() as int] == old(self)@.files[i as int]);
                    assert(self@.files =~= pre_iter.files.push(
                        FileM {
                            id: new_id as int,
                            draft_id: Some(did),
                            edition_id: None,
                            name: old(self)@.files[i as int].name,
                        },
                    ));
                    assert(new_id as int == old(self)@.next_id + src0.len());
                    assert(triples@.map_values(
                        |t: (i32, i32, String)| (t.0 as int, t.1 as int, t.2@),
                    ) =~= triples0.map_values(
                        |t: (i32, i32, String)| (t.0 as int, t.1 as int, t.2@),
                    ).push((old(self)@.files[i as int].id, new_id as int,
                        old(self)@.files[i as int].name)));
                    assert(self@.files =~= old(self)@.files + Seq::new(
                        src1.len(),
                        |k: int|
                            FileM {
                                id: old(self)@.next_id + k,
                                draft_id: Some(did),
                                edition_id: None,
                                name: src1[k].name,
                            },
                    ));
                    assert(triples@.map_values(
                        |t: (i32, i32, String)| (t.0 as int, t.1 as int, t.2@),
                    ) =~= Seq::new(
                        src1.len(),
                        |k: int| (src1[k].id, old(self)@.next_id + k, src1[k].name),
                    ));
                }
            } else {
                proof {
                    assert(old(self)@.files[i as int].edition_id != Some(eid));
                }
            }
            i = i + 1;
        }
        proof {
            assert(old(self)@.files.take(orig_len as int) =~= old(self)@.files);
            assert(crate::transitions::latest_edition_files(old(self)@, aid)
                == old(self)@.files.filter(|f: FileM| f.edition_id == Some(eid)));
            assert(self@ =~~= crate::transitions::store_copy_files_to_draft(
                old(self)@,
                aid,
                did,
            ).0);
        }
        triples
    }

    /// Inserts an edition snapshotting the owned draft with the release
    /// notes, and returns the owning article's id and the new edition's id.
    pub fn create_edition_from_draft(&mut self, id: i32, author_id: &String, notes: &String) -> (r:
        (i32, i32))
        requires
            old(self)@.keyed(),
            old(self)@.draft_owned(id as int, author_id@),
            old(self)@.next_id + 1 <= i32::MAX as int,
            old(self)@.clock + 1 <= u64::MAX as int,
        ensures
            final(self)@ == store_create_edition_from_draft(old(self)@, id as int, notes@).0,
            (r.0 as int, r.1 as int) == store_create_edition_from_draft(
                old(self)@,
                id as int,
                notes@,
            ).1,
    {
        let found = self.find_draft(id);
        let i = match found {
            Some(i) => i,
            None => {
                proof {
                    if old(self)@.has_draft(id as int) {
                        let w = choose|w: int|
                            0 <= w < old(self)@.drafts.len() && (#[trigger] old(
                                self,
                            )@.drafts[w]).id == id as int;
                    }
                    assert(false);
                }
                return (0, 0);
            },
        };
        proof {
            lemma_draft_idx(old(self)@, i as int);
        }
        let eid = self.next_id;
        self.next_id = self.next_id + 1;
        self.clock = self.clock + 1;
        let article_id = self.drafts[i].article_id;
        let row = EditionRow {
            id: eid,
            article_id,
            title: self.drafts[i].title.clone(),
            content: self.drafts[i].content.clone(),
            notes: notes.clone(),
            published_at: self.clock,
        };
        self.editions.push(row);
        proof {
            assert(self@ =~~= store_create_edition_from_draft(old(self)@, id as int, notes@).0);
        }
        (article_id, eid)
    }
}

impl Store {
    /// Deletes the article, cascading to its editions, its open draft,
    /// and every file row hanging off either.
    #[verifier::loop_isolation(false)]
    pub fn delete_article(&mut self, id: i32)
        requires
            old(self).wf(),
        ensures
            final(self)@ == store_delete_article(old(self)@, id as int),
    {
        let ghost aid: int = id as int;
        let ghost pre = old(self)@;
        // file rows first, while their owners can still be resolved
        let mut kept_f: Vec<FileRow> = Vec::new();
        let mut i: usize = 0;
        while i < self.files.len()
            invariant
                i <= self.files.len(),
                self == old(self),
                kept_f@.map_values(|r: FileRow| r@) == pre.files.take(i as int).filter(
                    |f: FileM| pre.file_article(f) != aid,
                ),
            decreases self.files.len() - i,
        {
            proof {
                crate::seq_util::lemma_filter_take_step(
                    pre.files,
                    |f: FileM| pre.file_article(f) != aid,
                    i as int,
                );
                assert(pre.files[i as int] == self@.files[i as int]);
            }
            let ghost kept0 = kept_f@;
            let row_article: i32 = {
                let dopt = self.files[i].draft_id;
                match dopt {
                    Some(d) => {
                        proof {
                            assert(pre.files[i as int].draft_id == Some(d as int));
                            assert(pre.has_draft(d as int));
                        }
                        match self.find_draft(d) {
                            Some(di) => {
                                proof {
                                    lemma_draft_idx(pre, di as int);
                                }
                                self.drafts[di].article_id
                            },
                            None => {
                                proof {
                                    let w = choose|w: int|
                                        0 <= w < pre.drafts.len() && (#[trigger] pre.drafts[w]).id
                                            == d as int;
                                    assert(false);
                                }
                                0
                            },
                        }
                    },
                    None => {
                        let eopt = self.files[i].edition_id;
                        match eopt {
                            Some(e) => {
                                proof {
                                    assert(pre.files[i as int].edition_id == Some(e as int));
                                    assert(pre.has_edition(e as int));
                                }
                                match self.find_edition(e) {
                                    Some(ei) => {
                                        proof {
                                            lemma_edition_idx(pre, ei as int);
                                        }
                                        self.editions[ei].article_id
                                    },
                                    None => {
                                        proof {
                                            let w = choose|w: int|
                                                0 <= w < pre.editions.len() && (#[trigger] pre.editions[w]).id
                                                    == e as int;
                                            assert(false);
                                        }
                                        0
                                    },
                                }
                            },
                            None => {
                                proof {
                                    assert(crate::model::one_owner(pre.files[i as int]));
                                    assert(false);
                                }
                                0
                            },
                        }
                    },
                }
            };
            proof {
                assert(row_article as int == pre.file_article(pre.files[i as int]));
            }
            if row_article != id {
                let row = self.files[i].clone();
                proof {
                    assert(row@ == pre.files[i as int]);
                }
                kept_f.push(row);
                proof {
                    assert(kept_f@.map_values(|r: FileRow| r@) =~= kept0.map_values(
                        |r: FileRow| r@,
                    ).push(pre.files[i as int]));
                    assert(kept_f@.map_values(|r: FileRow| r@) =~= pre.files.take(i + 1).filter(
                        |f: FileM| pre.file_article(f) != aid,
                    ));
                }
            }
            i = i + 1;
        }
        proof {
            assert(pre.files.take(self.files@.len() as int) =~= pre.files);
        }
        self.files = kept_f;
        // the open draft of the article
        let mut kept_d: Vec<DraftRow> = Vec::new();
        let mut j: usize = 0;
        while j < self.drafts.len()
            invariant
                j <= self.drafts.len(),
                self.drafts == old(self).drafts,
                self.articles == old(self).articles,
                self.editions == old(self).editions,
                self.next_id == old(self).next_id,
                self.clock == old(self).clock,
                self.files@.map_values(|r: FileRow| r@) == pre.files.filter(
                    |f: FileM| pre.file_article(f) != aid,
                ),
                kept_d@.map_values(|r: DraftRow| r@) == pre.drafts.take(j as int).filter(
                    |d: DraftM| d.article_id != aid,
                ),
            decreases self.drafts.len() - j,
        {
            proof {
                crate::seq_util::lemma_filter_take_step(
                    pre.drafts,
                    |d: DraftM| d.article_id != aid,
                    j as int,
                );
                assert(pre.drafts[j as int] == self.drafts@[j as int]@);
            }
            let ghost kept0 = kept_d@;
            if self.drafts[j].article_id != id {
                let row = self.drafts[j].clone();
                proof {
                    assert(row@ == pre.drafts[j as int]);
                }
                kept_d.push(row);
                proof {
                    assert(kept_d@.map_values(|r: DraftRow| r@) =~= kept0.map_values(
                        |r: DraftRow| r@,
                    ).push(pre.drafts[j as int]));
                    assert(kept_d@.map_values(|r: DraftRow| r@) =~= pre.drafts.take(
                        j + 1,
                    ).filter(|d: DraftM| d.article_id != aid));
                }
            }
            j = j + 1;
        }
        proof {
            assert(pre.drafts.take(self.drafts@.len() as int) =~= pre.drafts);
        }
        self.drafts = kept_d;
        // the article's editions
        let mut kept_e: Vec<EditionRow> = Vec::new();
        let mut k: usize = 0;
        while k < self.editions.len()
            invariant
                k <= self.editions.len(),
                self.editions == old(self).editions,
                self.articles == old(self).articles,
                self.next_id == old(self).next_id,
                self.clock == old(self).clock,
                self.files@.map_values(|r: FileRow| r@) == pre.files.filter(
                    |f: FileM| pre.file_article(f) != aid,
                ),
                self.drafts@.map_values(|r: DraftRow| r@) == pre.drafts.filter(
                    |d: DraftM| d.article_id != aid,
                ),
                kept_e@.map_values(|r: EditionRow| r@) == pre.editions.take(k as int).filter(
                    |e: EditionM| e.article_id != aid,
                ),
            decreases self.editions.len() - k,
        {
            proof {
                crate::seq_util::lemma_filter_take_step(
                    pre.editions,
                    |e: EditionM| e.article_id != aid,
                    k as int,
                );
                assert(pre.editions[k as int] == self.editions@[k as int]@);
            }
            let ghost kept0 = kept_e@;
            if self.editions[k].article_id != id {
                let row = self.editions[k].clone();
                proof {
                    assert(row@ == pre.editions[k as int]);
                }
                kept_e.push(row);
                proof {
                    assert(kept_e@.map_values(|r: EditionRow| r@) =~= kept0.map_values(
                        |r: EditionRow| r@,
                    ).push(pre.editions[k as int]));
                    assert(kept_e@.map_values(|r: EditionRow| r@) =~= pre.editions.take(
                        k + 1,
                    ).filter(|e: EditionM| e.article_id != aid));
                }
            }
            k = k + 1;
        }
        proof {
            assert(pre.editions.take(self.editions@.len() as int) =~= pre.editions);
        }
        self.editions = kept_e;
        // the article row itself
        let mut kept_a: Vec<ArticleRow> = Vec::new();
        let mut m: usize = 0;
        while m < self.articles.len()
            invariant
                m <= self.articles.len(),
                self.articles == old(self).articles,
                self.next_id == old(self).next_id,
                self.clock == old(self).clock,
                self.files@.map_values(|r: FileRow| r@) == pre.files.filter(
                    |f: FileM| pre.file_article(f) != aid,
                ),
                self.drafts@.map_values(|r: DraftRow| r@) == pre.drafts.filter(
                    |d: DraftM| d.article_id != aid,
                ),
                self.editions@.map_values(|r: EditionRow| r@) == pre.editions.filter(
                    |e: EditionM| e.article_id != aid,
                ),
                kept_a@.map_values(|r: ArticleRow| r@) == pre.articles.take(m as int).filter(
                    |a: ArticleM| a.id != aid,
                ),
            decreases self.articles.len() - m,
        {
            proof {
                crate::seq_util::lemma_filter_take_step(
                    pre.articles,
                    |a: ArticleM| a.id != aid,
                    m as int,
                );
                assert(pre.articles[m as int] == self.articles@[m as int]@);
            }
            let ghost kept0 = kept_a@;
            if self.articles[m].id != id {
                let row = self.articles[m].clone();
                proof {
                    assert(row@ == pre.articles[m as int]);
                }
                kept_a.push(row);
                proof {
                    assert(kept_a@.map_values(|r: ArticleRow| r@) =~= kept0.map_values(
                        |r: ArticleRow| r@,
                    ).push(pre.articles[m as int]));
                    assert(kept_a@.map_values(|r: ArticleRow| r@) =~= pre.articles.take(
                        m + 1,
                    ).filter(|a: ArticleM| a.id != aid));
                }
            }
            m = m + 1;
        }
        proof {
            assert(pre.articles.take(self.articles@.len() as int) =~= pre.articles);
        }
        self.articles = kept_a;
        proof {
            assert(self@ =~= store_delete_article(pre, aid));
        }
    }
}

impl Store {
    /// What the store reveals about a draft-owned file: the owning author,
    /// the name, and the owning draft's id.
    pub fn get_file_info(&self, file_id: i32) -> (r: Option<crate::schema::FileInfo>)
        requires
            self@.keyed(),
        ensures
            match r {
                Some(fi) => crate::transitions::file_info_for(self@, file_id as int) == Some(
                    (fi.author_id@, fi.name@, fi.draft_id as int),
                ),
                None => crate::transitions::file_info_for(self@, file_id as int) is None,
            },
    {
        let found = self.find_file(file_id);
        let i = match found {
            Some(i) => i,
            None => {
                proof {
                    if self@.has_file(file_id as int) {
                        let w = choose|w: int|
                            0 <= w < self@.files.len() && (#[trigger] self@.files[w]).id
                                == file_id as int;
                    }
                }
                return None;
            },
        };
        proof {
            lemma_file_idx(self@, i as int);
        }
        let d = match self.files[i].draft_id {
            Some(d) => d,
            None => {
                return None;
            },
        };
        match self.get_draft_author(d) {
            Some(a) => Some(
                crate::schema::FileInfo {
                    author_id: a,
                    name: self.files[i].name.clone(),
                    draft_id: d,
                },
            ),
            None => None,
        }
    }

    /// The full view of a draft, visible only to its owner; the attached
    /// files are listed separately.
    pub fn get_draft(&self, id: i32, author_id: &String) -> (r: Option<crate::schema::Draft>)
        requires
            self@.keyed(),
        ensures
            match r {
                Some(d) => {
                    &&& self@.draft_owned(id as int, author_id@)
                    &&& d.id == id
                    &&& ({
                        let dm = self@.draft_by_id(id as int);
                        &&& d.title@ == dm.title
                        &&& d.content@ == dm.content
                        &&& d.created_at@ == crate::numfmt::dec_str(dm.created_at)
                        &&& d.updated_at@ == crate::numfmt::dec_str(dm.updated_at)
                        &&& d.article_id == if self@.has_edition_of_article(dm.article_id) {
                            Some(dm.article_id as i32)
                        } else {
                            None::<i32>
                        }
                    })
                    &&& d.files@.len() == 0
                },
                None => !self@.draft_owned(id as int, author_id@),
            },
    {
        let found = self.find_draft(id);
        let i = match found {
            Some(i) => i,
            None => {
                proof {
                    if self@.has_draft(id as int) {
                        let w = choose|w: int|
                            0 <= w < self@.drafts.len() && (#[trigger] self@.drafts[w]).id
                                == id as int;
                    }
                }
                return None;
            },
        };
        proof {
            lemma_draft_idx(self@, i as int);
        }
        let author = self.get_article_author_id(self.drafts[i].article_id);
        let owned = match author {
            Some(a) => a == *author_id,
            None => false,
        };
        if !owned {
            return None;
        }
        let published = self.has_edition_of(self.drafts[i].article_id);
        Some(
            crate::schema::Draft {
                id,
                article_id: if published {
                    Some(self.drafts[i].article_id)
                } else {
                    None
                },
                title: self.drafts[i].title.clone(),
                content: self.drafts[i].content.clone(),
                created_at: crate::numfmt::u64_to_string(self.drafts[i].created_at),
                updated_at: crate::numfmt::u64_to_string(self.drafts[i].updated_at),
                files: Vec::new(),
            },
        )
    }

    /// The files attached to a draft, in table order.
    #[verifier::loop_isolation(false)]
    pub fn list_draft_files(&self, draft_id: i32) -> (r: Vec<crate::schema::File>)
        ensures
            ({
                let did = draft_id as int;
                r@.map_values(|f: crate::schema::File| (f.id as int, f.name@))
                    == self@.files.filter(|f: FileM| f.draft_id == Some(did)).map_values(
                    |f: FileM| (f.id, f.name),
                )
            }),
    {
        let ghost did: int = draft_id as int;
        let mut out: Vec<crate::schema::File> = Vec::new();
        let mut i: usize = 0;
        while i < self.files.len()
            invariant
                i <= self.files.len(),
                out@.map_values(|f: crate::schema::File| (f.id as int, f.name@))
                    == self@.files.take(i as int).filter(
                    |f: FileM| f.draft_id == Some(did),
                ).map_values(|f: FileM| (f.id, f.name)),
            decreases self.files.len() - i,
        {
            proof {
                crate::seq_util::lemma_filter_take_step(
                    self@.files,
                    |f: FileM| f.draft_id == Some(did),
                    i as int,
                );
            }
            let ghost out0 = out@;
            let mine = match self.files[i].draft_id {
                Some(d) => d == draft_id,
                None => false,
            };
            if mine {
                out.push(
                    crate::schema::File { id: self.files[i].id, name: self.files[i].name.clone() },
                );
                proof {
                    assert(out@.map_values(|f: crate::schema::File| (f.id as int, f.name@))
                        =~= out0.map_values(|f: crate::schema::File| (f.id as int, f.name@)).push(
                        (self@.files[i as int].id, self@.files[i as int].name),
                    ));
                    assert(out@.map_values(|f: crate::schema::File| (f.id as int, f.name@))
                        =~= self@.files.take(i + 1).filter(
                        |f: FileM| f.draft_id == Some(did),
                    ).map_values(|f: FileM| (f.id, f.name)));
                }
            } else {
                proof {
                    assert(self@.files[i as int].draft_id != Some(did));
                }
            }
            i = i + 1;
        }
        proof {
            assert(self@.files.take(self.files@.len() as int) =~= self@.files);
        }
        out
    }

    /// The files attached to an edition, in table order.
    #[verifier::loop_isolation(false)]
    pub fn list_edition_files(&self, edition_id: i32) -> (r: Vec<crate::schema::File>)
        ensures
            ({
                let eid = edition_id as int;
                r@.map_values(|f: crate::schema::File| (f.id as int, f.name@))
                    == self@.files.filter(|f: FileM| f.edition_id == Some(eid)).map_values(
                    |f: FileM| (f.id, f.name),
                )
            }),
    {
        let ghost eid: int = edition_id as int;
        let mut out: Vec<crate::schema::File> = Vec::new();
        let mut i: usize = 0;
        while i < self.files.len()
            invariant
                i <= self.files.len(),
                out@.map_values(|f: crate::schema::File| (f.id as int, f.name@))
                    == self@.files.take(i as int).filter(
                    |f: FileM| f.edition_id == Some(eid),
                ).map_values(|f: FileM| (f.id, f.name)),
            decreases self.files.len() - i,
        {
            proof {
                crate::seq_util::lemma_filter_take_step(
                    self@.files,
                    |f: FileM| f.edition_id == Some(eid),
                    i as int,
                );
            }
            let ghost out0 = out@;
            let mine = match self.files[i].edition_id {
                Some(e) => e == edition_id,
                None => false,
            };
            if mine {
                out.push(
                    crate::schema::File { id: self.files[i].id, name: self.files[i].name.clone() },
                );
                proof {
                    assert(out@.map_values(|f: crate::schema::File| (f.id as int, f.name@))
                        =~= out0.map_values(|f: crate::schema::File| (f.id as int, f.name@)).push(
                        (self@.files[i as int].id, self@.files[i as int].name),
                    ));
                    assert(out@.map_values(|f: crate::schema::File| (f.id as int, f.name@))
                        =~= self@.files.take(i + 1).filter(
                        |f: FileM| f.edition_id == Some(eid),
                    ).map_values(|f: FileM| (f.id, f.name)));
                }
            } else {
                proof {
                    assert(self@.files[i as int].edition_id != Some(eid));
                }
            }
            i = i + 1;
        }
        proof {
            assert(self@.files.take(self.files@.len() as int) =~= self@.files);
        }
        out
    }

    /// The files of the article's latest edition; empty when the article
    /// has never been published.
    pub fn list_article_files(&self, article_id: i32) -> (r: Vec<crate::schema::File>)
        ensures
            self@.has_edition_of_article(article_id as int) ==> r@.map_values(
                |f: crate::schema::File| (f.id as int, f.name@),
            ) == crate::transitions::latest_edition_files(self@, article_id as int).map_values(
                |f: FileM| (f.id, f.name),
            ),
            !self@.has_edition_of_article(article_id as int) ==> r@.len() == 0,
    {
        match self.find_latest_edition(article_id) {
            Some(i) => {
                let r = self.list_edition_files(self.editions[i].id);
                proof {
                    assert(crate::transitions::latest_edition_of(self@, article_id as int)
                        == self@.editions[i as int]);
                }
                r
            },
            None => Vec::new(),
        }
    }

    /// The ids of the article's editions, in table order.
    #[verifier::loop_isolation(false)]
    pub fn list_edition_ids(&self, article_id: i32) -> (r: Vec<i32>)
        ensures
            ({
                let aid = article_id as int;
                r@.map_values(|x: i32| x as int) == self@.editions.filter(
                    |e: EditionM| e.article_id == aid,
                ).map_values(|e: EditionM| e.id)
            }),
    {
        let ghost aid: int = article_id as int;
        let mut out: Vec<i32> = Vec::new();
        let mut i: usize = 0;
        while i < self.editions.len()
            invariant
                i <= self.editions.len(),
                out@.map_values(|x: i32| x as int) == self@.editions.take(i as int).filter(
                    |e: EditionM| e.article_id == aid,
                ).map_values(|e: EditionM| e.id),
            decreases self.editions.len() - i,
        {
            proof {
                crate::seq_util::lemma_filter_take_step(
                    self@.editions,
                    |e: EditionM| e.article_id == aid,
                    i as int,
                );
            }
            let ghost out0 = out@;
            if self.editions[i].article_id == article_id {
                out.push(self.editions[i].id);
                proof {
                    assert(out@.map_values(|x: i32| x as int) =~= out0.map_values(
                        |x: i32| x as int,
                    ).push(self@.editions[i as int].id));
                    assert(out@.map_values(|x: i32| x as int) =~= self@.editions.take(
                        i + 1,
                    ).filter(|e: EditionM| e.article_id == aid).map_values(|e: EditionM| e.id));
                }
            } else {
                proof {
                    assert(self@.editions[i as int].article_id != aid);
                }
            }
            i = i + 1;
        }
        proof {
            assert(self@.editions.take(self.editions@.len() as int) =~= self@.editions);
        }
        out
    }

    /// The article's edition history, most recent first.
    #[verifier::loop_isolation(false)]
    pub fn list_editions(&self, article_id: i32) -> (r: Vec<crate::schema::EditionSummary>)
        ensures
            ({
                let aid = article_id as int;
                r@.map_values(
                    |e: crate::schema::EditionSummary| (e.id as int, e.title@, e.notes@, e.published_at@),
                ) == self@.editions.filter(|e: EditionM| e.article_id == aid).map_values(
                    |e: EditionM| (e.id, e.title, e.notes, crate::numfmt::dec_str(e.published_at)),
                ).reverse()
            }),
    {
        let ghost aid: int = article_id as int;
        let ghost p = |e: EditionM| e.article_id == aid;
        let ghost m = |e: EditionM| (e.id, e.title, e.notes, crate::numfmt::dec_str(e.published_at));
        let mut out: Vec<crate::schema::EditionSummary> = Vec::new();
        let mut i: usize = self.editions.len();
        proof {
            assert(self@.editions.skip(i as int) =~= Seq::<EditionM>::empty());
            assert(Seq::<EditionM>::empty().filter(p) =~= Seq::<EditionM>::empty()) by {
                reveal(Seq::filter);
            }
            assert(out@.map_values(
                |e: crate::schema::EditionSummary| (e.id as int, e.title@, e.notes@, e.published_at@),
            ) =~= self@.editions.skip(i as int).filter(p).map_values(m).reverse());
        }
        while i > 0
            invariant
                i <= self.editions.len(),
                out@.map_values(
                    |e: crate::schema::EditionSummary| (e.id as int, e.title@, e.notes@, e.published_at@),
                ) == self@.editions.skip(i as int).filter(p).map_values(m).reverse(),
            decreases i,
        {
            i = i - 1;
            proof {
                crate::seq_util::lemma_filter_skip_step(self@.editions, p, i as int);
            }
            let ghost out0 = out@;
            if self.editions[i].article_id == article_id {
                out.push(
                    crate::schema::EditionSummary {
                        id: self.editions[i].id,
                        title: self.editions[i].title.clone(),
                        notes: self.editions[i].notes.clone(),
                        published_at: crate::numfmt::u64_to_string(self.editions[i].published_at),
                    },
                );
                proof {
                    let em = self@.editions[i as int];
                    assert(p(em));
                    assert(self@.editions.skip(i as int).filter(p) == seq![em] + self@.editions.skip(
                        i + 1,
                    ).filter(p));
                    assert((seq![em] + self@.editions.skip(i + 1).filter(p)).map_values(m).reverse()
                        =~= self@.editions.skip(i + 1).filter(p).map_values(m).reverse().push(
                        m(em),
                    ));
                    assert(out@.map_values(
                        |e: crate::schema::EditionSummary| (e.id as int, e.title@, e.notes@, e.published_at@),
                    ) =~= out0.map_values(
                        |e: crate::schema::EditionSummary| (e.id as int, e.title@, e.notes@, e.published_at@),
                    ).push((em.id, em.title, em.notes, crate::numfmt::dec_str(em.published_at))));
                }
            } else {
                proof {
                    assert(!p(self@.editions[i as int]));
                }
            }
        }
        proof {
            assert(self@.editions.skip(0) =~= self@.editions);
        }
        out
    }

    /// The full view of one edition; its history and file listings are
    /// assembled separately.
    pub fn get_edition(&self, id: i32) -> (r: Option<crate::schema::Edition>)
        requires
            self@.keyed(),
        ensures
            match r {
                Some(e) => self@.has_edition(id as int) && ({
                    let em = self@.edition_by_id(id as int);
                    &&& e.id == id
                    &&& e.article_id as int == em.article_id
                    &&& e.title@ == em.title
                    &&& e.content@ == em.content
                    &&& e.notes@ == em.notes
                    &&& e.published_at@ == crate::numfmt::dec_str(em.published_at)
                    &&& e.editions@.len() == 0
                    &&& e.files@.len() == 0
                }),
                None => !self@.has_edition(id as int),
            },
    {
        let found = self.find_edition(id);
        let i = match found {
            Some(i) => i,
            None => {
                proof {
                    if self@.has_edition(id as int) {
                        let w = choose|w: int|
                            0 <= w < self@.editions.len() && (#[trigger] self@.editions[w]).id
                                == id as int;
                    }
                }
                return None;
            },
        };
        proof {
            lemma_edition_idx(self@, i as int);
        }
        Some(
            crate::schema::Edition {
                id,
                article_id: self.editions[i].article_id,
                title: self.editions[i].title.clone(),
                content: self.editions[i].content.clone(),
                notes: self.editions[i].notes.clone(),
                published_at: crate::numfmt::u64_to_string(self.editions[i].published_at),
                editions: Vec::new(),
                files: Vec::new(),
            },
        )
    }
}

} // verus!
