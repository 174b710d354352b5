//! The mathematical model of the two stores the lifecycle manager keeps
//! consistent: the relational record (articles, drafts, editions, file
//! rows) and the blob store (one entry per attached file), together with
//! the well-formedness invariant that every operation preserves.

use vstd::prelude::*;
use vstd::string::StrSliceExecFns;

verus! {

/// Model of an article row: the unit of ownership.
#[verifier::ext_equal]
pub struct ArticleM {
    pub id: int,
    pub author_id: Seq<char>,
}

/// Model of a draft row: the mutable working copy of an article.
#[verifier::ext_equal]
pub struct DraftM {
    pub id: int,
    pub article_id: int,
    pub title: Seq<char>,
    pub content: Seq<char>,
    pub created_at: int,
    pub updated_at: int,
}

/// Model of an edition row: an immutable snapshot made at publish time.
#[verifier::ext_equal]
pub struct EditionM {
    pub id: int,
    pub article_id: int,
    pub title: Seq<char>,
    pub content: Seq<char>,
    pub notes: Seq<char>,
    pub published_at: int,
}

/// Model of a file row. Exactly one of `draft_id` and `edition_id` is set
/// in any well-formed store.
#[verifier::ext_equal]
pub struct FileM {
    pub id: int,
    pub draft_id: Option<int>,
    pub edition_id: Option<int>,
    pub name: Seq<char>,
}

/// The directory a blob lives under: a draft's or an edition's.
#[verifier::ext_equal]
pub enum BlobOwnerM {
    Draft(int),
    Edition(int),
}

/// Model of one stored blob: the path `<owner dir>/<file id>/<name>`.
#[verifier::ext_equal]
pub struct BlobM {
    pub owner: BlobOwnerM,
    pub file_id: int,
    pub name: Seq<char>,
}

/// Model of the relational store. `next_id` is the id mint shared by all
/// tables; `clock` is the logical time that stamps rows.
#[verifier::ext_equal]
pub struct StoreM {
    pub articles: Seq<ArticleM>,
    pub drafts: Seq<DraftM>,
    pub editions: Seq<EditionM>,
    pub files: Seq<FileM>,
    pub next_id: int,
    pub clock: int,
}

/// Model of the whole system: the relational store and the blob store.
#[verifier::ext_equal]
pub struct StateM {
    pub rel: StoreM,
    pub blobs: Seq<BlobM>,
}

/// Whether `c` is one of the blank characters a title may not consist of.
pub open spec fn is_space_char(c: char) -> bool {
    c == ' ' || c == '\t' || c == '\n' || c == '\r'
}

/// Whether a title is empty or consists of blank characters only; such a
/// title is rejected at publish time.
pub open spec fn is_blank(s: Seq<char>) -> bool {
    forall|i: int| 0 <= i < s.len() ==> is_space_char(#[trigger] s[i])
}

/// Whether the title is blank, checked character by character.
#[verifier::loop_isolation(false)]
pub fn title_is_blank(s: &String) -> (r: bool)
    ensures
        r == is_blank(s@),
{
    let st = s.as_str();
    let n = st.unicode_len();
    let mut i: usize = 0;
    while i < n
        invariant
            i <= n,
            n == s@.len(),
            st@ == s@,
            forall|j: int| 0 <= j < i ==> is_space_char(#[trigger] s@[j]),
        decreases n - i,
    {
        let c = st.get_char(i);
        let sp = c == ' ' || c == '\t' || c == '\n' || c == '\r';
        if !sp {
            proof {
                assert(!is_space_char(s@[i as int]));
            }
            return false;
        }
        i = i + 1;
    }
    true
}

/// Whether exactly one of the two owner columns of a file row is set.
pub open spec fn one_owner(f: FileM) -> bool {
    (f.draft_id is Some) <==> (f.edition_id is None)
}

/// The directory a file row's blob must live under, derived from the set
/// owner column.
pub open spec fn owner_of(f: FileM) -> BlobOwnerM {
    match f.draft_id {
        Some(d) => BlobOwnerM::Draft(d),
        None => BlobOwnerM::Edition(
            match f.edition_id {
                Some(e) => e,
                None => 0,
            },
        ),
    }
}

/// The blob a file row promises to exist: under the directory of the
/// row's owner, keyed by the row's id, carrying the row's name.
pub open spec fn blob_of(f: FileM) -> BlobM {
    BlobM { owner: owner_of(f), file_id: f.id, name: f.name }
}

impl StoreM {
    /// Whether an article row with id `aid` exists.
    pub open spec fn has_article(self, aid: int) -> bool {
        exists|i: int| 0 <= i < self.articles.len() && (#[trigger] self.articles[i]).id == aid
    }

    /// The index of the article row with id `aid` (meaningful only when
    /// one exists; unique under the invariant).
    pub open spec fn article_idx(self, aid: int) -> int {
        choose|i: int| 0 <= i < self.articles.len() && (#[trigger] self.articles[i]).id == aid
    }

    /// The author of article `aid`, or `None` when no such article exists.
    pub open spec fn article_author(self, aid: int) -> Option<Seq<char>> {
        if self.has_article(aid) {
            Some(self.articles[self.article_idx(aid)].author_id)
        } else {
            None
        }
    }

    /// Whether a draft row with id `did` exists.
    pub open spec fn has_draft(self, did: int) -> bool {
        exists|i: int| 0 <= i < self.drafts.len() && (#[trigger] self.drafts[i]).id == did
    }

    /// The index of the draft row with id `did`.
    pub open spec fn draft_idx(self, did: int) -> int {
        choose|i: int| 0 <= i < self.drafts.len() && (#[trigger] self.drafts[i]).id == did
    }

    /// The draft row with id `did`.
    pub open spec fn draft_by_id(self, did: int) -> DraftM {
        self.drafts[self.draft_idx(did)]
    }

    /// The author that owns draft `did`, through its article; `None` when
    /// the draft or its article is missing.
    pub open spec fn draft_author(self, did: int) -> Option<Seq<char>> {
        if self.has_draft(did) {
            self.article_author(self.draft_by_id(did).article_id)
        } else {
            None
        }
    }

    /// Whether draft `did` exists and belongs to `user`.
    pub open spec fn draft_owned(self, did: int, user: Seq<char>) -> bool {
        self.draft_author(did) == Some(user)
    }

    /// Whether an edition row with id `eid` exists.
    pub open spec fn has_edition(self, eid: int) -> bool {
        exists|i: int| 0 <= i < self.editions.len() && (#[trigger] self.editions[i]).id == eid
    }

    /// The index of the edition row with id `eid`.
    pub open spec fn edition_idx(self, eid: int) -> int {
        choose|i: int| 0 <= i < self.editions.len() && (#[trigger] self.editions[i]).id == eid
    }

    /// The edition row with id `eid`.
    pub open spec fn edition_by_id(self, eid: int) -> EditionM {
        self.editions[self.edition_idx(eid)]
    }

    /// Whether a file row with id `fid` exists.
    pub open spec fn has_file(self, fid: int) -> bool {
        exists|i: int| 0 <= i < self.files.len() && (#[trigger] self.files[i]).id == fid
    }

    /// The index of the file row with id `fid`.
    pub open spec fn file_idx(self, fid: int) -> int {
        choose|i: int| 0 <= i < self.files.len() && (#[trigger] self.files[i]).id == fid
    }

    /// The file row with id `fid`.
    pub open spec fn file_by_id(self, fid: int) -> FileM {
        self.files[self.file_idx(fid)]
    }

    /// Whether article `aid` has an open draft.
    pub open spec fn has_draft_of_article(self, aid: int) -> bool {
        exists|i: int| 0 <= i < self.drafts.len() && (#[trigger] self.drafts[i]).article_id == aid
    }

    /// The index of the open draft of article `aid`.
    pub open spec fn draft_of_article_idx(self, aid: int) -> int {
        choose|i: int| 0 <= i < self.drafts.len() && (#[trigger] self.drafts[i]).article_id == aid
    }

    /// The id of the open draft of article `aid`, as revealed to `user`:
    /// shown only when the article exists, `user` is its author, and an
    /// open draft exists.
    pub open spec fn article_draft_id(self, aid: int, user: Seq<char>) -> Option<int> {
        if self.has_draft_of_article(aid) && self.article_author(aid) == Some(user) {
            Some(self.drafts[self.draft_of_article_idx(aid)].id)
        } else {
            None
        }
    }

    /// Whether article `aid` has at least one published edition.
    pub open spec fn has_edition_of_article(self, aid: int) -> bool {
        exists|i: int|
            0 <= i < self.editions.len() && (#[trigger] self.editions[i]).article_id == aid
    }

    /// The article that file row `f` hangs off, through its draft or its
    /// edition.
    pub open spec fn file_article(self, f: FileM) -> int {
        match owner_of(f) {
            BlobOwnerM::Draft(d) => self.draft_by_id(d).article_id,
            BlobOwnerM::Edition(e) => self.edition_by_id(e).article_id,
        }
    }

    /// The article whose deletion would sweep away the directory `o`.
    pub open spec fn owner_article(self, o: BlobOwnerM) -> int {
        match o {
            BlobOwnerM::Draft(d) => self.draft_by_id(d).article_id,
            BlobOwnerM::Edition(e) => self.edition_by_id(e).article_id,
        }
    }

    /// Every row id was minted: at least 1 and below the mint's next value.
    pub open spec fn ids_bounded(self) -> bool {
        &&& 1 <= self.next_id
        &&& 0 <= self.clock
        &&& forall|i: int|
            0 <= i < self.articles.len() ==> 1 <= (#[trigger] self.articles[i]).id < self.next_id
        &&& forall|i: int|
            0 <= i < self.drafts.len() ==> 1 <= (#[trigger] self.drafts[i]).id < self.next_id
        &&& forall|i: int|
            0 <= i < self.editions.len() ==> 1 <= (#[trigger] self.editions[i]).id < self.next_id
        &&& forall|i: int|
            0 <= i < self.files.len() ==> 1 <= (#[trigger] self.files[i]).id < self.next_id
    }

    /// Row ids are unique within each table.
    pub open spec fn unique_ids(self) -> bool {
        &&& forall|i: int, j: int|
            0 <= i < j < self.articles.len() ==> (#[trigger] self.articles[i]).id != (
            #[trigger] self.articles[j]).id
        &&& forall|i: int, j: int|
            0 <= i < j < self.drafts.len() ==> (#[trigger] self.drafts[i]).id != (
            #[trigger] self.drafts[j]).id
        &&& forall|i: int, j: int|
            0 <= i < j < self.editions.len() ==> (#[trigger] self.editions[i]).id != (
            #[trigger] self.editions[j]).id
        &&& forall|i: int, j: int|
            0 <= i < j < self.files.len() ==> (#[trigger] self.files[i]).id != (
            #[trigger] self.files[j]).id
    }

    /// Every draft belongs to an existing article, and no article has two
    /// open drafts.
    pub open spec fn drafts_wf(self) -> bool {
        &&& forall|i: int|
            0 <= i < self.drafts.len() ==> self.has_article(
                (#[trigger] self.drafts[i]).article_id,
            )
        &&& forall|i: int, j: int|
            0 <= i < j < self.drafts.len() ==> (#[trigger] self.drafts[i]).article_id != (
            #[trigger] self.drafts[j]).article_id
    }

    /// Every edition belongs to an existing article, publication times
    /// strictly increase along the table (so the latest row of an article
    /// is also the one with the greatest `published_at`) and never exceed
    /// the clock, and no edition was published with a blank title.
    pub open spec fn editions_wf(self) -> bool {
        &&& forall|i: int|
            0 <= i < self.editions.len() ==> self.has_article(
                (#[trigger] self.editions[i]).article_id,
            )
        &&& forall|i: int, j: int|
            0 <= i < j < self.editions.len() ==> (#[trigger] self.editions[i]).published_at < (
            #[trigger] self.editions[j]).published_at
        &&& forall|i: int|
            0 <= i < self.editions.len() ==> (#[trigger] self.editions[i]).published_at
                <= self.clock
        &&& forall|i: int| 0 <= i < self.editions.len() ==> !is_blank((#[trigger] self.editions[i]).title)
    }

    /// Every file row has exactly one owner, that owner exists, and names
    /// are unique within one owner's directory.
    pub open spec fn files_wf(self) -> bool {
        &&& forall|i: int| 0 <= i < self.files.len() ==> one_owner(#[trigger] self.files[i])
        &&& forall|i: int|
            0 <= i < self.files.len() ==> match (#[trigger] self.files[i]).draft_id {
                Some(d) => self.has_draft(d),
                None => true,
            }
        &&& forall|i: int|
            0 <= i < self.files.len() ==> match (#[trigger] self.files[i]).edition_id {
                Some(e) => self.has_edition(e),
                None => true,
            }
        &&& forall|i: int, j: int|
            0 <= i < j < self.files.len() && owner_of(#[trigger] self.files[i]) == owner_of(
                #[trigger] self.files[j],
            ) ==> self.files[i].name != self.files[j].name
    }

    /// An article with no published edition always has an open draft:
    /// deleting the last draft of an unpublished article must delete the
    /// article too, so such garbage never persists.
    pub open spec fn no_orphan_articles(self) -> bool {
        forall|i: int|
            0 <= i < self.articles.len() && !self.has_edition_of_article(
                (#[trigger] self.articles[i]).id,
            ) ==> self.has_draft_of_article(self.articles[i].id)
    }

    /// The lookup keys the store is addressed by: ids unique within every
    /// table, and at most one open draft per article. This much holds even
    /// in the middle of a multi-step operation.
    pub open spec fn keyed(self) -> bool {
        &&& self.unique_ids()
        &&& forall|i: int, j: int|
            0 <= i < j < self.drafts.len() ==> (#[trigger] self.drafts[i]).article_id != (
            #[trigger] self.drafts[j]).article_id
    }

    /// Well-formedness of the relational store.
    pub open spec fn inv(self) -> bool {
        &&& self.ids_bounded()
        &&& self.unique_ids()
        &&& self.drafts_wf()
        &&& self.editions_wf()
        &&& self.files_wf()
        &&& self.no_orphan_articles()
    }
}

impl StateM {
    /// The file-consistency invariant: every file row's blob exists at the
    /// path derived from the row's owner and id; every blob is accounted
    /// for by a row; and no two blobs share a file id.
    pub open spec fn blobs_wf(self) -> bool {
        &&& forall|i: int|
            0 <= i < self.rel.files.len() ==> self.blobs.contains(
                blob_of(#[trigger] self.rel.files[i]),
            )
        &&& forall|j: int|
            0 <= j < self.blobs.len() ==> exists|i: int|
                0 <= i < self.rel.files.len() && blob_of(#[trigger] self.rel.files[i]) == (
                #[trigger] self.blobs[j])
        &&& forall|j: int, k: int|
            0 <= j < k < self.blobs.len() ==> (#[trigger] self.blobs[j]).file_id != (
            #[trigger] self.blobs[k]).file_id
    }

    /// Well-formedness of the whole system.
    pub open spec fn inv(self) -> bool {
        self.rel.inv() && self.blobs_wf()
    }
}

/// In a table with unique ids, the chosen index of a row's id is the
/// row's own index.
pub proof fn lemma_article_idx(s: StoreM, i: int)
    requires
        forall|p: int, q: int|
            0 <= p < q < s.articles.len() ==> (#[trigger] s.articles[p]).id != (
            #[trigger] s.articles[q]).id,
        0 <= i < s.articles.len(),
    ensures
        s.has_article(s.articles[i].id),
        s.article_idx(s.articles[i].id) == i,
{
    let aid = s.articles[i].id;
    assert(s.has_article(aid));
    let j = s.article_idx(aid);
    if i != j {
        if i < j {
            assert(s.articles[i].id != s.articles[j].id);
        } else {
            assert(s.articles[j].id != s.articles[i].id);
        }
    }
}

/// In a table with unique ids, the chosen index of a draft's id is the
/// draft's own index.
pub proof fn lemma_draft_idx(s: StoreM, i: int)
    requires
        forall|p: int, q: int|
            0 <= p < q < s.drafts.len() ==> (#[trigger] s.drafts[p]).id != (
            #[trigger] s.drafts[q]).id,
        0 <= i < s.drafts.len(),
    ensures
        s.has_draft(s.drafts[i].id),
        s.draft_idx(s.drafts[i].id) == i,
        s.draft_by_id(s.drafts[i].id) == s.drafts[i],
{
    let did = s.drafts[i].id;
    assert(s.has_draft(did));
    let j = s.draft_idx(did);
    if i != j {
        if i < j {
            assert(s.drafts[i].id != s.drafts[j].id);
        } else {
            assert(s.drafts[j].id != s.drafts[i].id);
        }
    }
}

/// In a table with unique ids, the chosen index of an edition's id is the
/// edition's own index.
pub proof fn lemma_edition_idx(s: StoreM, i: int)
    requires
        forall|p: int, q: int|
            0 <= p < q < s.editions.len() ==> (#[trigger] s.editions[p]).id != (
            #[trigger] s.editions[q]).id,
        0 <= i < s.editions.len(),
    ensures
        s.has_edition(s.editions[i].id),
        s.edition_idx(s.editions[i].id) == i,
        s.edition_by_id(s.editions[i].id) == s.editions[i],
{
    let eid = s.editions[i].id;
    assert(s.has_edition(eid));
    let j = s.edition_idx(eid);
    if i != j {
        if i < j {
            assert(s.editions[i].id != s.editions[j].id);
        } else {
            assert(s.editions[j].id != s.editions[i].id);
        }
    }
}

/// In a table with unique ids, the chosen index of a file's id is the
/// file's own index.
pub proof fn lemma_file_idx(s: StoreM, i: int)
    requires
        forall|p: int, q: int|
            0 <= p < q < s.files.len() ==> (#[trigger] s.files[p]).id != (
            #[trigger] s.files[q]).id,
        0 <= i < s.files.len(),
    ensures
        s.has_file(s.files[i].id),
        s.file_idx(s.files[i].id) == i,
        s.file_by_id(s.files[i].id) == s.files[i],
{
    let fid = s.files[i].id;
    assert(s.has_file(fid));
    let j = s.file_idx(fid);
    if i != j {
        if i < j {
            assert(s.files[i].id != s.files[j].id);
        } else {
            assert(s.files[j].id != s.files[i].id);
        }
    }
}

/// The chosen index of the one draft of an article is that draft's index.
pub proof fn lemma_draft_of_article_idx(s: StoreM, i: int)
    requires
        forall|p: int, q: int|
            0 <= p < q < s.drafts.len() ==> (#[trigger] s.drafts[p]).article_id != (
            #[trigger] s.drafts[q]).article_id,
        0 <= i < s.drafts.len(),
    ensures
        s.has_draft_of_article(s.drafts[i].article_id),
        s.draft_of_article_idx(s.drafts[i].article_id) == i,
{
    let aid = s.drafts[i].article_id;
    assert(s.has_draft_of_article(aid));
    let j = s.draft_of_article_idx(aid);
    if i != j {
        if i < j {
            assert(s.drafts[i].article_id != s.drafts[j].article_id);
        } else {
            assert(s.drafts[j].article_id != s.drafts[i].article_id);
        }
    }
}

/// Article lookups that succeed keep succeeding when the article table is
/// extended at the end.
pub proof fn lemma_article_lookups_extend(a: StoreM, b: StoreM)
    requires
        a.articles.len() <= b.articles.len(),
        forall|i: int| 0 <= i < a.articles.len() ==> #[trigger] b.articles[i] == a.articles[i],
    ensures
        forall|x: int| #[trigger] a.has_article(x) ==> b.has_article(x),
{
    assert forall|x: int| #[trigger] a.has_article(x) implies b.has_article(x) by {
        let w = choose|i: int| 0 <= i < a.articles.len() && (#[trigger] a.articles[i]).id == x;
        assert(b.articles[w].id == x);
    }
}

/// Draft lookups that succeed keep succeeding when the draft table is
/// extended at the end.
pub proof fn lemma_draft_lookups_extend(a: StoreM, b: StoreM)
    requires
        a.drafts.len() <= b.drafts.len(),
        forall|i: int| 0 <= i < a.drafts.len() ==> #[trigger] b.drafts[i] == a.drafts[i],
    ensures
        forall|x: int| #[trigger] a.has_draft(x) ==> b.has_draft(x),
        forall|x: int| #[trigger] a.has_draft_of_article(x) ==> b.has_draft_of_article(x),
{
    assert forall|x: int| #[trigger] a.has_draft(x) implies b.has_draft(x) by {
        let w = choose|i: int| 0 <= i < a.drafts.len() && (#[trigger] a.drafts[i]).id == x;
        assert(b.drafts[w].id == x);
    }
    assert forall|x: int| #[trigger] a.has_draft_of_article(x) implies b.has_draft_of_article(
        x,
    ) by {
        let w = choose|i: int|
            0 <= i < a.drafts.len() && (#[trigger] a.drafts[i]).article_id == x;
        assert(b.drafts[w].article_id == x);
    }
}

/// Edition lookups that succeed keep succeeding when the edition table is
/// extended at the end.
pub proof fn lemma_edition_lookups_extend(a: StoreM, b: StoreM)
    requires
        a.editions.len() <= b.editions.len(),
        forall|i: int| 0 <= i < a.editions.len() ==> #[trigger] b.editions[i] == a.editions[i],
    ensures
        forall|x: int| #[trigger] a.has_edition(x) ==> b.has_edition(x),
        forall|x: int| #[trigger] a.has_edition_of_article(x) ==> b.has_edition_of_article(x),
{
    assert forall|x: int| #[trigger] a.has_edition(x) implies b.has_edition(x) by {
        let w = choose|i: int| 0 <= i < a.editions.len() && (#[trigger] a.editions[i]).id == x;
        assert(b.editions[w].id == x);
    }
    assert forall|x: int| #[trigger] a.has_edition_of_article(x) implies b.has_edition_of_article(
        x,
    ) by {
        let w = choose|i: int|
            0 <= i < a.editions.len() && (#[trigger] a.editions[i]).article_id == x;
        assert(b.editions[w].article_id == x);
    }
}

/// Every lookup that succeeds in a store keeps succeeding when each table
/// is extended at the end.
pub proof fn lemma_lookups_extend(a: StoreM, b: StoreM)
    requires
        a.articles.len() <= b.articles.len(),
        forall|i: int| 0 <= i < a.articles.len() ==> #[trigger] b.articles[i] == a.articles[i],
        a.drafts.len() <= b.drafts.len(),
        forall|i: int| 0 <= i < a.drafts.len() ==> #[trigger] b.drafts[i] == a.drafts[i],
        a.editions.len() <= b.editions.len(),
        forall|i: int| 0 <= i < a.editions.len() ==> #[trigger] b.editions[i] == a.editions[i],
    ensures
        forall|x: int| #[trigger] a.has_article(x) ==> b.has_article(x),
        forall|x: int| #[trigger] a.has_draft(x) ==> b.has_draft(x),
        forall|x: int| #[trigger] a.has_edition(x) ==> b.has_edition(x),
        forall|x: int| #[trigger] a.has_draft_of_article(x) ==> b.has_draft_of_article(x),
        forall|x: int| #[trigger] a.has_edition_of_article(x) ==> b.has_edition_of_article(x),
{
    lemma_article_lookups_extend(a, b);
    lemma_draft_lookups_extend(a, b);
    lemma_edition_lookups_extend(a, b);
}

/// Draft lookups are unchanged by a rewrite of the draft table that keeps
/// every row's id and article.
pub proof fn lemma_draft_lookups_eq(a: StoreM, b: StoreM)
    requires
        b.drafts.len() == a.drafts.len(),
        forall|i: int|
            0 <= i < a.drafts.len() ==> (#[trigger] b.drafts[i]).id == a.drafts[i].id && (
            #[trigger] b.drafts[i]).article_id == a.drafts[i].article_id,
    ensures
        forall|x: int| #[trigger] b.has_draft(x) == a.has_draft(x),
        forall|x: int| #[trigger] b.has_draft_of_article(x) == a.has_draft_of_article(x),
{
    assert forall|x: int| #[trigger] b.has_draft(x) == a.has_draft(x) by {
        if a.has_draft(x) {
            let w = choose|i: int| 0 <= i < a.drafts.len() && (#[trigger] a.drafts[i]).id == x;
            assert(b.drafts[w].id == x);
        }
        if b.has_draft(x) {
            let w = choose|i: int| 0 <= i < b.drafts.len() && (#[trigger] b.drafts[i]).id == x;
            assert(a.drafts[w].id == x);
        }
    }
    assert forall|x: int| #[trigger] b.has_draft_of_article(x) == a.has_draft_of_article(x) by {
        if a.has_draft_of_article(x) {
            let w = choose|i: int|
                0 <= i < a.drafts.len() && (#[trigger] a.drafts[i]).article_id == x;
            assert(b.drafts[w].article_id == x);
        }
        if b.has_draft_of_article(x) {
            let w = choose|i: int|
                0 <= i < b.drafts.len() && (#[trigger] b.drafts[i]).article_id == x;
            assert(a.drafts[w].article_id == x);
        }
    }
}

/// Article authorship lookups agree between stores whose article tables
/// are equal row for row, provided ids are unique.
pub proof fn lemma_article_author_eq(a: StoreM, b: StoreM)
    requires
        forall|p: int, q: int|
            0 <= p < q < a.articles.len() ==> (#[trigger] a.articles[p]).id != (
            #[trigger] a.articles[q]).id,
        b.articles.len() == a.articles.len(),
        forall|i: int| 0 <= i < a.articles.len() ==> #[trigger] b.articles[i] == a.articles[i],
    ensures
        forall|x: int| #[trigger] b.article_author(x) == a.article_author(x),
{
    assert forall|x: int| #[trigger] b.article_author(x) == a.article_author(x) by {
        if a.has_article(x) {
            let wa = a.article_idx(x);
            assert(0 <= wa < a.articles.len() && a.articles[wa].id == x);
            assert(b.articles[wa].id == x);
            assert(b.has_article(x));
            let wb = b.article_idx(x);
            assert(0 <= wb < b.articles.len() && b.articles[wb].id == x);
            assert(a.articles[wb].id == x);
            if wa < wb {
                assert(a.articles[wa].id != a.articles[wb].id);
            } else if wb < wa {
                assert(a.articles[wb].id != a.articles[wa].id);
            }
            assert(b.articles[wb] == a.articles[wa]);
        } else {
            if b.has_article(x) {
                let wb = b.article_idx(x);
                assert(a.articles[wb].id == x);
            }
        }
    }
}

/// Draft ownership lookups agree between stores whose draft and article
/// tables are equal row for row, provided ids are unique.
pub proof fn lemma_draft_author_eq(a: StoreM, b: StoreM)
    requires
        forall|p: int, q: int|
            0 <= p < q < a.articles.len() ==> (#[trigger] a.articles[p]).id != (
            #[trigger] a.articles[q]).id,
        forall|p: int, q: int|
            0 <= p < q < a.drafts.len() ==> (#[trigger] a.drafts[p]).id != (
            #[trigger] a.drafts[q]).id,
        b.articles.len() == a.articles.len(),
        forall|i: int| 0 <= i < a.articles.len() ==> #[trigger] b.articles[i] == a.articles[i],
        b.drafts.len() == a.drafts.len(),
        forall|i: int| 0 <= i < a.drafts.len() ==> #[trigger] b.drafts[i] == a.drafts[i],
    ensures
        forall|x: int| #[trigger] b.draft_author(x) == a.draft_author(x),
        forall|x: int| a.has_draft(x) ==> #[trigger] b.draft_by_id(x) == a.draft_by_id(x),
        forall|x: int| #[trigger] b.has_draft(x) == a.has_draft(x),
{
    lemma_article_author_eq(a, b);
    assert forall|x: int| #[trigger] b.has_draft(x) == a.has_draft(x) by {
        if a.has_draft(x) {
            let wa = a.draft_idx(x);
            assert(b.drafts[wa].id == x);
        }
        if b.has_draft(x) {
            let wb = b.draft_idx(x);
            assert(a.drafts[wb].id == x);
        }
    }
    assert forall|x: int| a.has_draft(x) implies #[trigger] b.draft_by_id(x) == a.draft_by_id(
        x,
    ) by {
        let wa = a.draft_idx(x);
        assert(0 <= wa < a.drafts.len() && a.drafts[wa].id == x);
        assert(b.drafts[wa].id == x);
        let wb = b.draft_idx(x);
        assert(0 <= wb < b.drafts.len() && b.drafts[wb].id == x);
        assert(a.drafts[wb].id == x);
        if wa < wb {
            assert(a.drafts[wa].id != a.drafts[wb].id);
        } else if wb < wa {
            assert(a.drafts[wb].id != a.drafts[wa].id);
        }
        assert(b.drafts[wb] == a.drafts[wa]);
    }
    assert forall|x: int| #[trigger] b.draft_author(x) == a.draft_author(x) by {
        if a.has_draft(x) {
            assert(b.draft_by_id(x) == a.draft_by_id(x));
            assert(b.article_author(b.draft_by_id(x).article_id) == a.article_author(
                a.draft_by_id(x).article_id,
            ));
        }
    }
}

/// The file-consistency invariant carries between states whose file table
/// and blob listing are unchanged.
pub proof fn lemma_blobs_wf_same(a: StateM, b: StateM)
    requires
        a.blobs_wf(),
        b.blobs.len() == a.blobs.len(),
        forall|j: int| 0 <= j < a.blobs.len() ==> #[trigger] b.blobs[j] == a.blobs[j],
        b.rel.files.len() == a.rel.files.len(),
        forall|i: int| 0 <= i < a.rel.files.len() ==> #[trigger] b.rel.files[i] == a.rel.files[i],
    ensures
        b.blobs_wf(),
{
    assert forall|i: int| 0 <= i < b.rel.files.len() implies b.blobs.contains(
        blob_of(#[trigger] b.rel.files[i]),
    ) by {
        assert(b.rel.files[i] == a.rel.files[i]);
        let j = choose|j: int|
            0 <= j < a.blobs.len() && a.blobs[j] == blob_of(a.rel.files[i]);
        assert(b.blobs[j] == blob_of(b.rel.files[i]));
    }
    assert forall|j: int| 0 <= j < b.blobs.len() implies exists|i: int|
        0 <= i < b.rel.files.len() && blob_of(#[trigger] b.rel.files[i]) == (
        #[trigger] b.blobs[j]) by {
        assert(b.blobs[j] == a.blobs[j]);
        let i = choose|i: int|
            0 <= i < a.rel.files.len() && blob_of(#[trigger] a.rel.files[i]) == a.blobs[j];
        assert(blob_of(b.rel.files[i]) == b.blobs[j]);
    }
    assert forall|j: int, k: int| 0 <= j < k < b.blobs.len() implies (
    #[trigger] b.blobs[j]).file_id != (#[trigger] b.blobs[k]).file_id by {
        assert(b.blobs[j] == a.blobs[j] && b.blobs[k] == a.blobs[k]);
    }
}

/// The index of the latest edition of article `aid`: the greatest index
/// whose row belongs to `aid`, or -1 when the article has none.
pub open spec fn latest_edition_idx(s: Seq<EditionM>, aid: int) -> int
    decreases s.len(),
{
    if s.len() == 0 {
        -1
    } else if s.last().article_id == aid {
        s.len() - 1
    } else {
        latest_edition_idx(s.drop_last(), aid)
    }
}

/// What `latest_edition_idx` finds: a row of the article, after which no
/// further row of the article follows; or -1 exactly when the article has
/// no edition at all.
pub proof fn lemma_latest_edition_idx(s: Seq<EditionM>, aid: int)
    ensures
        ({
            let l = latest_edition_idx(s, aid);
            if exists|j: int| 0 <= j < s.len() && (#[trigger] s[j]).article_id == aid {
                &&& 0 <= l < s.len()
                &&& s[l].article_id == aid
                &&& forall|j: int| l < j < s.len() ==> (#[trigger] s[j]).article_id != aid
            } else {
                l == -1
            }
        }),
    decreases s.len(),
{
    if s.len() == 0 {
    } else if s.last().article_id == aid {
    } else {
        lemma_latest_edition_idx(s.drop_last(), aid);
        let l = latest_edition_idx(s.drop_last(), aid);
        if exists|j: int| 0 <= j < s.len() && (#[trigger] s[j]).article_id == aid {
            let w = choose|j: int| 0 <= j < s.len() && (#[trigger] s[j]).article_id == aid;
            assert(w < s.len() - 1);
            assert(s.drop_last()[w] == s[w]);
            assert(exists|j: int|
                0 <= j < s.drop_last().len() && (#[trigger] s.drop_last()[j]).article_id == aid);
            assert(forall|j: int|
                0 <= j < s.drop_last().len() ==> #[trigger] s[j] == s.drop_last()[j]);
        } else {
            if exists|j: int|
                0 <= j < s.drop_last().len() && (#[trigger] s.drop_last()[j]).article_id == aid {
                let w = choose|j: int|
                    0 <= j < s.drop_last().len() && (#[trigger] s.drop_last()[j]).article_id
                        == aid;
                assert(s[w].article_id == aid);
            }
        }
    }
}

} // verus!
