//! The data-transfer types returned by the lifecycle manager and the read
//! views, the per-operation result enums, and the mapping from raw row
//! values (whose columns may be absent) to those types.

use vstd::prelude::*;
use vstd::string::StringExecFns;

verus! {

/// A failure while assembling a view from row values: a column that the
/// view needs was unexpectedly absent.
#[derive(Debug)]
pub enum Error {
    UnexpectedNone(&'static str),
}

/// Outcome of an operation whose only domain failure is a missing or
/// invisible resource.
#[derive(Clone, Copy, PartialEq, Eq, Structural, Debug)]
pub enum MaybeNotFound {
    Done,
    NotFound,
}

/// Outcome of an operation that distinguishes a missing resource from one
/// the caller is not allowed to touch.
#[derive(Clone, Copy, PartialEq, Eq, Structural, Debug)]
pub enum MaybeNotFoundForbidden {
    Done,
    Forbidden,
    NotFound,
}

/// The rejection of an invalid input.
#[derive(Clone, Copy, PartialEq, Eq, Structural, Debug)]
pub enum BadRequest {
    Bad,
}

/// A missing resource, or one the caller does not own.
#[derive(Clone, Copy, PartialEq, Eq, Structural, Debug)]
pub enum NotFoundForbidden {
    NotFound,
    Forbidden,
}

/// A missing resource, or an input rejected as invalid.
#[derive(Clone, Copy, PartialEq, Eq, Structural, Debug)]
pub enum NotFoundBadRequest {
    NotFound,
    Bad,
}

/// Outcome of inserting a file row: the new id, or a name already taken
/// within the owning draft.
#[derive(Clone, Copy, PartialEq, Eq, Structural, Debug)]
pub enum CreateFileResult {
    Created(i32),
    NameConflict,
}

/// How a user creation conflicts with an existing row.
#[derive(Clone, Copy, PartialEq, Eq, Structural, Debug)]
pub enum UserConflict {
    NaverId,
    Id,
    Name,
}

/// A user's role.
#[derive(Clone, Copy, PartialEq, Eq, Structural, Debug)]
pub enum Role {
    Admin,
    User,
}

/// An author as shown in read views.
#[derive(Clone, PartialEq, Eq, Debug)]
pub struct Author {
    pub id: String,
    pub name: String,
}

/// A user row.
#[derive(Clone, Debug)]
pub struct User {
    pub id: String,
    pub name: String,
    pub role: Role,
}

/// One line of an article listing.
#[derive(Clone, PartialEq, Eq, Debug)]
pub struct ArticleSummary {
    pub id: i32,
    pub title: String,
    pub published_at: String,
    pub author: Author,
    pub comments_count: i64,
    pub likes_count: i64,
    pub views_count: i64,
}

/// A comment as shown under an article.
#[derive(Clone, PartialEq, Eq, Debug)]
pub struct Comment {
    pub id: i32,
    pub content: String,
    pub created_at: String,
    pub author: Author,
}

/// An attached file as shown in views.
#[derive(Clone, PartialEq, Eq, Debug)]
pub struct File {
    pub id: i32,
    pub name: String,
}

/// The full detail view of an article's current edition.
#[derive(Clone, Debug)]
pub struct Article {
    pub id: i32,
    pub edition_id: i32,
    pub title: String,
    pub content: String,
    pub published_at: String,
    pub last_published_at: String,
    pub author: Author,
    pub views_count: i64,
    pub likes_count: i64,
    pub editions_count: i64,
    pub files: Vec<File>,
    pub comments: Vec<Comment>,
    pub next: Option<ArticleSummary>,
    pub prev: Option<ArticleSummary>,
}

/// One line of a draft listing.
#[derive(Clone, PartialEq, Eq, Debug)]
pub struct DraftSummary {
    pub id: i32,
    pub article_id: Option<i32>,
    pub title: String,
    pub created_at: String,
    pub updated_at: String,
}

/// The full view of a draft, with its attached files.
#[derive(Clone, PartialEq, Eq, Debug)]
pub struct Draft {
    pub id: i32,
    pub article_id: Option<i32>,
    pub title: String,
    pub content: String,
    pub created_at: String,
    pub updated_at: String,
    pub files: Vec<File>,
}

/// One line of an edition history listing.
#[derive(Clone, PartialEq, Eq, Debug)]
pub struct EditionSummary {
    pub id: i32,
    pub title: String,
    pub notes: String,
    pub published_at: String,
}

/// The full view of one immutable edition.
#[derive(Clone, PartialEq, Eq, Debug)]
pub struct Edition {
    pub id: i32,
    pub article_id: i32,
    pub title: String,
    pub content: String,
    pub notes: String,
    pub published_at: String,
    pub editions: Vec<EditionSummary>,
    pub files: Vec<File>,
}

/// What a caller may learn about a draft-owned file before touching it.
#[derive(Clone, PartialEq, Eq, Debug)]
pub struct FileInfo {
    pub author_id: String,
    pub name: String,
    pub draft_id: i32,
}

/// A record of one like.
#[derive(Clone, Debug)]
pub struct LikeLog {
    pub user: Author,
    pub created_at: String,
}

/// Prefixes failure messages with the name of the failing operation.
pub struct ErrHelper {
    pub scope: &'static str,
}

/// Makes a message helper for the operation named `scope`.
pub fn err(scope: &'static str) -> (r: ErrHelper)
    ensures
        r.scope@ == scope@,
{
    ErrHelper { scope }
}

impl ErrHelper {
    /// The "scope: detail" message reported for a failure of the operation.
    pub fn msg(&self, detail: &str) -> (r: String)
        ensures
            r@ == self.scope@ + ": "@ + detail@,
    {
        let r = String::from_str(self.scope).concat(": ").concat(detail);
        proof {
            assert(r@ =~= self.scope@ + ": "@ + detail@);
        }
        r
    }
}

/// Assembles an article summary from the columns of a listing row.
/// The title and publication date come from joined tables and may be
/// absent; each absence is reported with the column's name. Missing
/// counters default to zero.
pub fn article_summary_from_row(
    id: i32,
    title: Option<String>,
    published_at: Option<String>,
    author_id: String,
    author_name: String,
    comments_count: Option<i64>,
    views_count: Option<i64>,
    likes_count: Option<i64>,
) -> (r: Result<ArticleSummary, Error>)
    ensures
        ({
            if title is None {
                r matches Err(Error::UnexpectedNone(c)) && c@ == "ArticleSummary.title"@
            } else if published_at is None {
                r matches Err(Error::UnexpectedNone(c)) && c@ == "ArticleSummary.published_at"@
            } else {
                r matches Ok(s) && {
                    &&& s.id == id
                    &&& s.title@ == title->0@
                    &&& s.published_at@ == published_at->0@
                    &&& s.author.id@ == author_id@
                    &&& s.author.name@ == author_name@
                    &&& s.comments_count == unwrap_or_zero(comments_count)
                    &&& s.views_count == unwrap_or_zero(views_count)
                    &&& s.likes_count == unwrap_or_zero(likes_count)
                }
            }
        }),
{
    let title = match title {
        Some(t) => t,
        None => {
            return Err(Error::UnexpectedNone("ArticleSummary.title"));
        },
    };
    let published_at = match published_at {
        Some(p) => p,
        None => {
            return Err(Error::UnexpectedNone("ArticleSummary.published_at"));
        },
    };
    Ok(
        ArticleSummary {
            id,
            title,
            published_at,
            author: Author { id: author_id, name: author_name },
            comments_count: opt_count(comments_count),
            views_count: opt_count(views_count),
            likes_count: opt_count(likes_count),
        },
    )
}

/// Assembles the full article detail view from the columns of its row.
/// The columns drawn from the latest edition may be absent and each
/// absence is reported with a column name; the comment list, file list
/// and neighbour summaries are filled in by separate queries.
pub fn article_from_row(
    id: i32,
    edition_id: Option<i32>,
    title: Option<String>,
    content: Option<String>,
    first_published_at: Option<String>,
    last_published_at: Option<String>,
    author_id: String,
    author_name: String,
    views_count: Option<i64>,
    likes_count: Option<i64>,
    editions_count: Option<i64>,
) -> (r: Result<Article, Error>)
    ensures
        ({
            if last_published_at is None {
                r matches Err(Error::UnexpectedNone(c)) && c@ == "Article.first_published_at"@
            } else if edition_id is None {
                r matches Err(Error::UnexpectedNone(c)) && c@ == "Article.edition_id"@
            } else if title is None {
                r matches Err(Error::UnexpectedNone(c)) && c@ == "Article.title"@
            } else if content is None {
                r matches Err(Error::UnexpectedNone(c)) && c@ == "Article.content"@
            } else if first_published_at is None {
                r matches Err(Error::UnexpectedNone(c)) && c@ == "Article.published_at"@
            } else if views_count is None {
                r matches Err(Error::UnexpectedNone(c)) && c@ == "Article.views_count"@
            } else if likes_count is None {
                r matches Err(Error::UnexpectedNone(c)) && c@ == "Article.likes_count"@
            } else if editions_count is None {
                r matches Err(Error::UnexpectedNone(c)) && c@ == "Article.editions_count"@
            } else {
                r matches Ok(a) && {
                    &&& a.id == id
                    &&& a.edition_id == edition_id->0
                    &&& a.title@ == title->0@
                    &&& a.content@ == content->0@
                    &&& a.published_at@ == first_published_at->0@
                    &&& a.last_published_at@ == last_published_at->0@
                    &&& a.author.id@ == author_id@
                    &&& a.author.name@ == author_name@
                    &&& a.views_count == views_count->0
                    &&& a.likes_count == likes_count->0
                    &&& a.editions_count == editions_count->0
                    &&& a.files@.len() == 0
                    &&& a.comments@.len() == 0
                    &&& a.next is None
                    &&& a.prev is None
                }
            }
        }),
{
    let last_published_at = match last_published_at {
        Some(v) => v,
        None => {
            return Err(Error::UnexpectedNone("Article.first_published_at"));
        },
    };
    let edition_id = match edition_id {
        Some(v) => v,
        None => {
            return Err(Error::UnexpectedNone("Article.edition_id"));
        },
    };
    let title = match title {
        Some(v) => v,
        None => {
            return Err(Error::UnexpectedNone("Article.title"));
        },
    };
    let content = match content {
        Some(v) => v,
        None => {
            return Err(Error::UnexpectedNone("Article.content"));
        },
    };
    let published_at = match first_published_at {
        Some(v) => v,
        None => {
            return Err(Error::UnexpectedNone("Article.published_at"));
        },
    };
    let views_count = match views_count {
        Some(v) => v,
        None => {
            return Err(Error::UnexpectedNone("Article.views_count"));
        },
    };
    let likes_count = match likes_count {
        Some(v) => v,
        None => {
            return Err(Error::UnexpectedNone("Article.likes_count"));
        },
    };
    let editions_count = match editions_count {
        Some(v) => v,
        None => {
            return Err(Error::UnexpectedNone("Article.editions_count"));
        },
    };
    Ok(
        Article {
            id,
            edition_id,
            title,
            content,
            published_at,
            last_published_at,
            author: Author { id: author_id, name: author_name },
            views_count,
            likes_count,
            editions_count,
            files: Vec::new(),
            comments: Vec::new(),
            next: None,
            prev: None,
        },
    )
}

/// A counter column read as zero when absent.
pub open spec fn unwrap_or_zero(c: Option<i64>) -> i64 {
    match c {
        Some(n) => n,
        None => 0,
    }
}

/// Reads a counter column, defaulting to zero.
fn opt_count(c: Option<i64>) -> (r: i64)
    ensures
        r == unwrap_or_zero(c),
{
    match c {
        Some(n) => n,
        None => 0,
    }
}

/// Assembles one line of a draft listing. The article is only named in
/// the summary once it has a published edition.
pub fn draft_summary_from_row(
    id: i32,
    article_id: i32,
    published: Option<bool>,
    title: String,
    created_at: String,
    updated_at: String,
) -> (r: DraftSummary)
    ensures
        r.id == id,
        r.article_id == if published == Some(true) {
            Some(article_id)
        } else {
            None::<i32>
        },
        r.title@ == title@,
        r.created_at@ == created_at@,
        r.updated_at@ == updated_at@,
{
    DraftSummary {
        id,
        article_id: match published {
            Some(true) => Some(article_id),
            _ => None,
        },
        title,
        created_at,
        updated_at,
    }
}

} // verus!
