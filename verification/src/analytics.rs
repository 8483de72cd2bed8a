//! Library metrics and the editorial health report of a book.
use vstd::prelude::*;

verus! {

/// Global metrics of the library.
#[derive(Debug, Clone, Copy, PartialEq, Eq, Structural)]
pub struct LibraryMetrics {
    pub total_books: i64,
    pub total_reading_time_secs: i64,
}

/// The editorial health of a book.
#[derive(Debug, Clone, Copy, PartialEq, Eq, Structural)]
pub struct BookHealthReport {
    pub book_id: i64,
    pub broken_links: u32,
    pub orphan_anchors: u32,
    pub css_discrepancies: u32,
}

/// Metrics and health checks of the library.
pub struct Analytics;

impl Analytics {
    /// The metrics from the database's counts: the number of books and the
    /// sum of reading times (none when there are no books, counted as 0).
    pub fn metrics_from_counts(total_books: i64, total_time: Option<i64>) -> (m: LibraryMetrics)
        ensures
            m.total_books == total_books,
            m.total_reading_time_secs == match total_time {
                Some(t) => t,
                None => 0,
            },
    {
        LibraryMetrics {
            total_books,
            total_reading_time_secs: match total_time {
                Some(t) => t,
                None => 0,
            },
        }
    }

    /// The health report of a book from the number of broken links found
    /// (kept in 32 bits, as a wrapping cast keeps it); anchors and styles
    /// are not checked yet.
    pub fn health_report(book_id: i64, broken_links: usize) -> (r: BookHealthReport)
        ensures
            r.book_id == book_id,
            r.broken_links == (broken_links as u32),
            r.orphan_anchors == 0,
            r.css_discrepancies == 0,
    {
        BookHealthReport {
            book_id,
            broken_links: broken_links as u32,
            orphan_anchors: 0,
            css_discrepancies: 0,
        }
    }
}

} // verus!
