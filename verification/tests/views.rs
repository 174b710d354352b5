//! The row-to-view mapping helpers and the path and message formatting.

use db::blob::{Blob, BlobOwner};
use db::numfmt::{i32_to_string, u64_to_string};
use db::paths::{blob_path, file_path};
use db::schema::{article_from_row, article_summary_from_row, draft_summary_from_row, err, Error};

#[test]
fn decimal_rendering_is_exact() {
    assert_eq!(u64_to_string(0), "0");
    assert_eq!(u64_to_string(7), "7");
    assert_eq!(u64_to_string(10), "10");
    assert_eq!(u64_to_string(90210), "90210");
    assert_eq!(u64_to_string(u64::MAX), "18446744073709551615");
    assert_eq!(i32_to_string(0), "0");
    assert_eq!(i32_to_string(i32::MAX), "2147483647");
}

#[test]
fn file_path_joins_base_id_and_name() {
    assert_eq!(file_path("up/d/5", 17, "photo.png"), "up/d/5/17/photo.png");
    assert_eq!(file_path("", 0, "x"), "/0/x");
}

#[test]
fn blob_paths_follow_the_fixed_layout() {
    let d = Blob { owner: BlobOwner::Draft(5), file_id: 17, name: "photo.png".to_string() };
    assert_eq!(blob_path("up", &d), "up/d/5/17/photo.png");
    let e = Blob { owner: BlobOwner::Edition(9), file_id: 3, name: "a.txt".to_string() };
    assert_eq!(blob_path("up", &e), "up/e/9/3/a.txt");
}

#[test]
fn error_messages_carry_the_operation_name() {
    let h = err("QueryEngine.get_article");
    assert_eq!(h.msg("connection lost"), "QueryEngine.get_article: connection lost");
}

#[test]
fn article_summary_mapping_fills_counters_and_reports_gaps() {
    let ok = article_summary_from_row(
        7,
        Some("Title".to_string()),
        Some("2024-01-01".to_string()),
        "alice".to_string(),
        "Alice".to_string(),
        Some(3),
        None,
        Some(5),
    )
    .expect("all required columns present");
    assert_eq!(ok.id, 7);
    assert_eq!(ok.title, "Title");
    assert_eq!(ok.published_at, "2024-01-01");
    assert_eq!(ok.author.id, "alice");
    assert_eq!(ok.author.name, "Alice");
    assert_eq!(ok.comments_count, 3);
    assert_eq!(ok.views_count, 0);
    assert_eq!(ok.likes_count, 5);

    let missing_title = article_summary_from_row(
        7,
        None,
        Some("2024-01-01".to_string()),
        "alice".to_string(),
        "Alice".to_string(),
        None,
        None,
        None,
    );
    match missing_title {
        Err(Error::UnexpectedNone(c)) => assert_eq!(c, "ArticleSummary.title"),
        _ => panic!("a missing title must be reported"),
    }

    let missing_date = article_summary_from_row(
        7,
        Some("Title".to_string()),
        None,
        "alice".to_string(),
        "Alice".to_string(),
        None,
        None,
        None,
    );
    match missing_date {
        Err(Error::UnexpectedNone(c)) => assert_eq!(c, "ArticleSummary.published_at"),
        _ => panic!("a missing publication date must be reported"),
    }
}

#[test]
fn draft_summary_names_the_article_only_once_published() {
    let published = draft_summary_from_row(
        2,
        1,
        Some(true),
        "T".to_string(),
        "3".to_string(),
        "4".to_string(),
    );
    assert_eq!(published.article_id, Some(1));
    let unpublished = draft_summary_from_row(
        2,
        1,
        Some(false),
        "T".to_string(),
        "3".to_string(),
        "4".to_string(),
    );
    assert_eq!(unpublished.article_id, None);
    let unknown = draft_summary_from_row(2, 1, None, "T".to_string(), "3".to_string(), "4".to_string());
    assert_eq!(unknown.article_id, None);
}

#[test]
fn article_mapping_reports_each_missing_column_in_order() {
    let ok = article_from_row(
        1,
        Some(4),
        Some("T".to_string()),
        Some("C".to_string()),
        Some("2024-01-01".to_string()),
        Some("2024-02-02".to_string()),
        "alice".to_string(),
        "Alice".to_string(),
        Some(10),
        Some(2),
        Some(3),
    )
    .expect("all columns present");
    assert_eq!(ok.edition_id, 4);
    assert_eq!(ok.title, "T");
    assert_eq!(ok.content, "C");
    assert_eq!(ok.published_at, "2024-01-01");
    assert_eq!(ok.last_published_at, "2024-02-02");
    assert_eq!(ok.views_count, 10);
    assert_eq!(ok.editions_count, 3);
    assert!(ok.files.is_empty() && ok.comments.is_empty());
    assert!(ok.next.is_none() && ok.prev.is_none());

    let missing = article_from_row(
        1,
        Some(4),
        Some("T".to_string()),
        Some("C".to_string()),
        Some("2024-01-01".to_string()),
        None,
        "alice".to_string(),
        "Alice".to_string(),
        Some(10),
        Some(2),
        Some(3),
    );
    match missing {
        Err(Error::UnexpectedNone(c)) => assert_eq!(c, "Article.first_published_at"),
        _ => panic!("a missing publication date must be reported"),
    }
    let missing_views = article_from_row(
        1,
        Some(4),
        Some("T".to_string()),
        Some("C".to_string()),
        Some("2024-01-01".to_string()),
        Some("2024-02-02".to_string()),
        "alice".to_string(),
        "Alice".to_string(),
        None,
        Some(2),
        Some(3),
    );
    match missing_views {
        Err(Error::UnexpectedNone(c)) => assert_eq!(c, "Article.views_count"),
        _ => panic!("a missing view counter must be reported"),
    }
}
