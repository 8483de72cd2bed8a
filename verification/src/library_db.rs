//! The records of the library database and the statements it runs: the
//! filtered book listing, book updates, and the rules for deletions.
use vstd::prelude::*;
use crate::markup::{decimal, signed_decimal, signed_decimal_chars};
use crate::text::{
    char_count, char_count_sum, chars_of, extend_chars, extend_str, has_prefix, join,
    join_chars, lemma_char_count_concat, lemma_char_count_join, starts_with, string_of,
    sub_chars, views,
};

verus! {

/// A book of the library as its table stores it.
#[derive(Debug, Clone)]
pub struct Book {
    pub id: i64,
    pub title: String,
    pub author_id: i64,
    pub series_id: Option<i64>,
    pub original_path: String,
    pub current_path: String,
    pub is_normalized: bool,
    /// When the book was added: seconds since the Unix epoch, UTC.
    pub date_added: i64,
    /// When the book was last opened: seconds since the Unix epoch, UTC.
    pub last_read: Option<i64>,
    pub total_reading_time_secs: i64,
    /// The id of the XHTML block where reading stopped.
    pub reading_progress: Option<String>,
}

/// An author of the library.
#[derive(Debug, Clone)]
pub struct Author {
    pub id: i64,
    pub name: String,
}

/// A series of the library.
#[derive(Debug, Clone)]
pub struct Series {
    pub id: i64,
    pub name: String,
}

/// A command alias of the command line.
#[derive(Debug, Clone)]
pub struct Alias {
    pub name: String,
    pub command: String,
}

/// An author with the number of its books.
#[derive(Debug, Clone)]
pub struct AuthorStats {
    pub id: i64,
    pub name: String,
    pub book_count: i64,
}

/// A series with the number of its books.
#[derive(Debug, Clone)]
pub struct SeriesStats {
    pub id: i64,
    pub name: String,
    pub book_count: i64,
}

/// A tag with the number of its books.
#[derive(Debug, Clone)]
pub struct TagStats {
    pub id: i64,
    pub name: String,
    pub book_count: i64,
}

/// A book as the listings show it.
#[derive(Debug, Clone)]
pub struct BookListItem {
    pub id: i64,
    pub title: String,
    pub author_name: String,
    pub series_name: Option<String>,
    pub current_path: String,
    pub is_normalized: bool,
    /// When the book was added: seconds since the Unix epoch, UTC.
    pub date_added: i64,
    pub file_hash: Option<String>,
    pub cover_href: Option<String>,
    pub cover_media_type: Option<String>,
}

/// A book with its author and series, as its detail page shows it.
#[derive(Debug, Clone)]
pub struct BookDetail {
    pub id: i64,
    pub title: String,
    pub author_name: String,
    pub series_name: Option<String>,
    pub current_path: String,
    /// When the book was added: seconds since the Unix epoch, UTC.
    pub date_added: i64,
    pub cover_href: Option<String>,
    pub cover_media_type: Option<String>,
}

/// The view of an optional string slice.
pub open spec fn opt_str(o: Option<&str>) -> Option<Seq<char>> {
    match o {
        Some(s) => Some(s@),
        None => None,
    }
}

/// A `LIKE` pattern that finds `s` anywhere.
pub open spec fn like_pattern(s: Seq<char>) -> Seq<char> {
    "%"@ + s + "%"@
}

/// The condition that the book carries the tag bound to its placeholder.
pub open spec fn tag_condition() -> Seq<char> {
    "EXISTS (SELECT 1 FROM book_tags bt2 JOIN tags t2 ON bt2.tag_id = t2.id WHERE bt2.book_id = b.id AND t2.name = ?)"@
}

/// `n` placeholders separated by commas.
pub open spec fn placeholder_list(n: nat) -> Seq<char> {
    join(Seq::new(n, |i: int| "?"@), ","@)
}

/// The condition that the book's id is one of `n` bound ids.
pub open spec fn id_condition(n: nat) -> Seq<char> {
    "b.id IN ("@ + placeholder_list(n) + ")"@
}

/// The conditions of a book listing, in this order: normalization, author,
/// series, tag, ids (the last only for a non-empty id list).
pub open spec fn filter_conditions(
    normalized: Option<bool>,
    author: Option<Seq<char>>,
    series: Option<Seq<char>>,
    tag: Option<Seq<char>>,
    n_ids: nat,
) -> Seq<Seq<char>> {
    (if normalized is Some {
        seq!["b.is_normalized = ?"@]
    } else {
        Seq::empty()
    }) + (if author is Some {
        seq!["a.name LIKE ?"@]
    } else {
        Seq::empty()
    }) + (if series is Some {
        seq!["s.name LIKE ?"@]
    } else {
        Seq::empty()
    }) + (if tag is Some {
        seq![tag_condition()]
    } else {
        Seq::empty()
    }) + (if n_ids > 0 {
        seq![id_condition(n_ids)]
    } else {
        Seq::empty()
    })
}

/// The text parameters of a book listing, in the order of their
/// conditions: `1`/`0` for normalization, `%author%`, `%series%`, the tag.
pub open spec fn filter_params(
    normalized: Option<bool>,
    author: Option<Seq<char>>,
    series: Option<Seq<char>>,
    tag: Option<Seq<char>>,
) -> Seq<Seq<char>> {
    (match normalized {
        Some(n) => seq![
            if n {
                "1"@
            } else {
                "0"@
            },
        ],
        None => Seq::empty(),
    }) + (match author {
        Some(a) => seq![like_pattern(a)],
        None => Seq::empty(),
    }) + (match series {
        Some(s) => seq![like_pattern(s)],
        None => Seq::empty(),
    }) + (match tag {
        Some(t) => seq![t],
        None => Seq::empty(),
    })
}

/// `WHERE` and the conditions joined by `AND`, or nothing without conditions.
pub open spec fn where_clause_of(conditions: Seq<Seq<char>>) -> Seq<char> {
    if conditions.len() == 0 {
        Seq::empty()
    } else {
        "WHERE "@ + join(conditions, " AND "@)
    }
}

/// The filter part of a book listing: its `WHERE` clause, the text
/// parameters, then the ids, bound in that order.
#[derive(Debug, Clone)]
pub struct BookFilter {
    pub where_clause: String,
    pub params: Vec<String>,
    pub ids: Vec<i64>,
}

/// Builds the filter of a book listing from the optional criteria.
pub fn book_filter(
    normalized: Option<bool>,
    author: Option<&str>,
    series: Option<&str>,
    ids: Option<&[i64]>,
    tag: Option<&str>,
) -> (f: BookFilter)
    ensures
        f.where_clause@ == where_clause_of(
            filter_conditions(
                normalized,
                opt_str(author),
                opt_str(series),
                opt_str(tag),
                match ids {
                    Some(l) => l@.len(),
                    None => 0,
                },
            ),
        ),
        views_of(f.params@) == filter_params(normalized, opt_str(author), opt_str(series), opt_str(tag)),
        f.ids@ == match ids {
            Some(l) => l@,
            None => Seq::<i64>::empty(),
        },
{
    let mut conditions: Vec<Vec<char>> = Vec::new();
    let mut params: Vec<String> = Vec::new();
    let ghost c0 = views(conditions@);
    if let Some(n) = normalized {
        conditions.push(chars_of("b.is_normalized = ?"));
        params.push(if n {
            "1".to_string()
        } else {
            "0".to_string()
        });
    }
    let ghost c1 = views(conditions@);
    let ghost p1 = views_of(params@);
    if let Some(a) = author {
        conditions.push(chars_of("a.name LIKE ?"));
        params.push(like(a));
    }
    let ghost c2 = views(conditions@);
    let ghost p2 = views_of(params@);
    if let Some(s) = series {
        conditions.push(chars_of("s.name LIKE ?"));
        params.push(like(s));
    }
    let ghost c3 = views(conditions@);
    let ghost p3 = views_of(params@);
    if let Some(t) = tag {
        conditions.push(
            chars_of(
                "EXISTS (SELECT 1 FROM book_tags bt2 JOIN tags t2 ON bt2.tag_id = t2.id WHERE bt2.book_id = b.id AND t2.name = ?)",
            ),
        );
        params.push(t.to_string());
    }
    let ghost c4 = views(conditions@);
    let ghost p4 = views_of(params@);
    let mut id_vec: Vec<i64> = Vec::new();
    if let Some(list) = ids {
        if list.len() > 0 {
            let cond = id_condition_chars(list.len());
            conditions.push(cond);
        }
        id_vec = slice_to_vec(list);
    }
    proof {
        let n_ids: nat = match ids {
            Some(l) => l@.len(),
            None => 0,
        };
        let fc = filter_conditions(normalized, opt_str(author), opt_str(series), opt_str(tag), n_ids);
        assert(views(conditions@) =~= fc);
        assert(views_of(params@) =~= filter_params(
            normalized,
            opt_str(author),
            opt_str(series),
            opt_str(tag),
        ));
    }
    let mut w: Vec<char> = Vec::new();
    if conditions.len() > 0 {
        extend_str(&mut w, "WHERE ");
        let joined = join_chars(&conditions, " AND ");
        extend_chars(&mut w, &joined);
    }
    BookFilter { where_clause: string_of(&w), params, ids: id_vec }
}

/// The views of strings.
pub open spec fn views_of(v: Seq<String>) -> Seq<Seq<char>> {
    v.map_values(|s: String| s@)
}

/// `%s%`.
fn like(s: &str) -> (r: String)
    ensures
        r@ == like_pattern(s@),
{
    let mut v: Vec<char> = Vec::new();
    extend_str(&mut v, "%");
    extend_str(&mut v, s);
    extend_str(&mut v, "%");
    string_of(&v)
}

/// The condition on `n` bound ids.
fn id_condition_chars(n: usize) -> (r: Vec<char>)
    ensures
        r@ == id_condition(n as nat),
{
    let mut marks: Vec<Vec<char>> = Vec::new();
    let mut i: usize = 0;
    while i < n
        invariant
            i <= n,
            views(marks@) == Seq::new(i as nat, |k: int| "?"@),
        decreases n - i,
    {
        let q = chars_of("?");
        let ghost m0 = marks@;
        marks.push(q);
        assert(views(marks@) =~= views(m0).push("?"@));
        assert(views(marks@) =~= Seq::new((i + 1) as nat, |k: int| "?"@));
        i += 1;
    }
    let list = join_chars(&marks, ",");
    let mut r: Vec<char> = Vec::new();
    extend_str(&mut r, "b.id IN (");
    extend_chars(&mut r, &list);
    extend_str(&mut r, ")");
    r
}

/// A copy of the slice.
fn slice_to_vec(s: &[i64]) -> (v: Vec<i64>)
    ensures
        v@ == s@,
{
    let mut v: Vec<i64> = Vec::new();
    let mut i: usize = 0;
    while i < s.len()
        invariant
            i <= s.len(),
            v@ == s@.take(i as int),
        decreases s.len() - i,
    {
        v.push(s[i]);
        assert(v@ =~= s@.take(i + 1));
        i += 1;
    }
    assert(s@.take(s.len() as int) =~= s@);
    v
}

/// The placeholders of the literal conditions.
proof fn lemma_condition_marks()
    ensures
        char_count("b.is_normalized = ?"@, '?') == 1,
        char_count("a.name LIKE ?"@, '?') == 1,
        char_count("s.name LIKE ?"@, '?') == 1,
        char_count(tag_condition(), '?') == 1,
        char_count("?"@, '?') == 1,
        char_count(","@, '?') == 0,
        char_count(" AND "@, '?') == 0,
        char_count("WHERE "@, '?') == 0,
        char_count("b.id IN ("@, '?') == 0,
        char_count(")"@, '?') == 0,
{
    reveal_strlit("b.is_normalized = ?");
    reveal_strlit("a.name LIKE ?");
    reveal_strlit("s.name LIKE ?");
    reveal_strlit(
        "EXISTS (SELECT 1 FROM book_tags bt2 JOIN tags t2 ON bt2.tag_id = t2.id WHERE bt2.book_id = b.id AND t2.name = ?)",
    );
    reveal_strlit("?");
    reveal_strlit(",");
    reveal_strlit(" AND ");
    reveal_strlit("WHERE ");
    reveal_strlit("b.id IN (");
    reveal_strlit(")");
    reveal_with_fuel(crate::text::count_from, 30);
    let t = tag_condition();
    assert(crate::text::count_from(t, '?', 90) == 1);
    assert(crate::text::count_from(t, '?', 60) == 1);
    assert(crate::text::count_from(t, '?', 30) == 1);
    assert(crate::text::count_from(t, '?', 0) == 1);
}

/// `n` question marks add up to `n`.
proof fn lemma_marks_sum(n: nat)
    ensures
        char_count_sum(Seq::new(n, |i: int| "?"@), '?') == n,
    decreases n,
{
    lemma_condition_marks();
    if n > 0 {
        lemma_marks_sum((n - 1) as nat);
        assert(Seq::new(n, |i: int| "?"@).drop_last() =~= Seq::new((n - 1) as nat, |i: int| "?"@));
    }
}

/// The placeholders of a sequence of single-placeholder conditions and one
/// optional id list.
proof fn lemma_sum_concat(a: Seq<Seq<char>>, b: Seq<Seq<char>>)
    ensures
        char_count_sum(a + b, '?') == char_count_sum(a, '?') + char_count_sum(b, '?'),
    decreases b.len(),
{
    if b.len() == 0 {
        assert(a + b =~= a);
    } else {
        lemma_sum_concat(a, b.drop_last());
        assert((a + b).drop_last() =~= a + b.drop_last());
        assert((a + b).last() == b.last());
    }
}

/// Every bound value of a book listing has its placeholder: the `WHERE`
/// clause holds as many `?` as there are text parameters and ids.
#[verifier::spinoff_prover]
#[verifier::rlimit(50)]
pub proof fn lemma_filter_placeholders(
    normalized: Option<bool>,
    author: Option<Seq<char>>,
    series: Option<Seq<char>>,
    tag: Option<Seq<char>>,
    n_ids: nat,
)
    ensures
        char_count(where_clause_of(filter_conditions(normalized, author, series, tag, n_ids)), '?')
            == filter_params(normalized, author, series, tag).len() + n_ids,
{
    lemma_condition_marks();
    let s1: Seq<Seq<char>> = if normalized is Some {
        seq!["b.is_normalized = ?"@]
    } else {
        Seq::empty()
    };
    let s2: Seq<Seq<char>> = if author is Some {
        seq!["a.name LIKE ?"@]
    } else {
        Seq::empty()
    };
    let s3: Seq<Seq<char>> = if series is Some {
        seq!["s.name LIKE ?"@]
    } else {
        Seq::empty()
    };
    let s4: Seq<Seq<char>> = if tag is Some {
        seq![tag_condition()]
    } else {
        Seq::empty()
    };
    let s5: Seq<Seq<char>> = if n_ids > 0 {
        seq![id_condition(n_ids)]
    } else {
        Seq::empty()
    };
    let conds = filter_conditions(normalized, author, series, tag, n_ids);
    assert(conds == s1 + s2 + s3 + s4 + s5);
    lemma_sum_concat(s1, s2);
    lemma_sum_concat(s1 + s2, s3);
    lemma_sum_concat(s1 + s2 + s3, s4);
    lemma_sum_concat(s1 + s2 + s3 + s4, s5);
    assert(char_count_sum(Seq::<Seq<char>>::empty(), '?') == 0);
    lemma_sum_one("b.is_normalized = ?"@);
    lemma_sum_one("a.name LIKE ?"@);
    lemma_sum_one("s.name LIKE ?"@);
    lemma_sum_one(tag_condition());
    assert(char_count_sum(s1, '?') == if normalized is Some { 1nat } else { 0nat });
    assert(char_count_sum(s2, '?') == if author is Some { 1nat } else { 0nat });
    assert(char_count_sum(s3, '?') == if series is Some { 1nat } else { 0nat });
    assert(char_count_sum(s4, '?') == if tag is Some { 1nat } else { 0nat });
    if n_ids > 0 {
        lemma_marks_sum(n_ids);
        lemma_char_count_join(Seq::new(n_ids, |i: int| "?"@), ","@, '?');
        lemma_char_count_concat("b.id IN ("@, placeholder_list(n_ids), '?');
        lemma_char_count_concat("b.id IN ("@ + placeholder_list(n_ids), ")"@, '?');
        lemma_sum_one(id_condition(n_ids));
        assert(char_count_sum(s5, '?') == n_ids);
    } else {
        assert(char_count_sum(s5, '?') == 0);
    }
    let total = char_count_sum(conds, '?');
    assert(total == filter_params(normalized, author, series, tag).len() + n_ids);
    if conds.len() > 0 {
        lemma_char_count_join(conds, " AND "@, '?');
        lemma_char_count_concat("WHERE "@, join(conds, " AND "@), '?');
    } else {
        assert(where_clause_of(conds) =~= Seq::<char>::empty());
        assert(char_count(Seq::<char>::empty(), '?') == 0);
    }
}

/// One piece adds up to its own count.
proof fn lemma_sum_one(a: Seq<char>)
    ensures
        char_count_sum(seq![a], '?') == char_count(a, '?'),
{
    assert(seq![a].drop_last() =~= Seq::<Seq<char>>::empty());
    assert(char_count_sum(Seq::<Seq<char>>::empty(), '?') == 0);
}

/// The assignments of a book update, in this order: title, author, series.
pub open spec fn update_assignments(title: bool, author: bool, series: bool) -> Seq<Seq<char>> {
    (if title {
        seq!["title = ?"@]
    } else {
        Seq::empty()
    }) + (if author {
        seq!["author_id = ?"@]
    } else {
        Seq::empty()
    }) + (if series {
        seq!["series_id = ?"@]
    } else {
        Seq::empty()
    })
}

/// The parameters of a book update, in the order of its assignments.
pub open spec fn update_params(title: Option<Seq<char>>, author_id: Option<i64>, series_id: Option<i64>) -> Seq<Seq<char>> {
    (match title {
        Some(t) => seq![t],
        None => Seq::empty(),
    }) + (match author_id {
        Some(a) => seq![signed_decimal(a as int)],
        None => Seq::empty(),
    }) + (match series_id {
        Some(s) => seq![signed_decimal(s as int)],
        None => Seq::empty(),
    })
}

/// The statement of a book update: the assignments, then the book's id.
pub open spec fn update_sql(assignments: Seq<Seq<char>>) -> Seq<char> {
    "UPDATE books SET "@ + join(assignments, ", "@) + " WHERE id = ?"@
}

/// The statement that updates a book's title, author and series (those
/// given) and its parameters before the book's id; nothing when no field
/// changes.
pub fn book_update(title: Option<&str>, author_id: Option<i64>, series_id: Option<i64>) -> (r: Option<(String, Vec<String>)>)
    ensures
        (title is None && author_id is None && series_id is None) <==> r is None,
        r matches Some((sql, params)) ==> sql@ == update_sql(
            update_assignments(title is Some, author_id is Some, series_id is Some),
        ) && views_of(params@) == update_params(opt_str(title), author_id, series_id),
{
    let mut updates: Vec<Vec<char>> = Vec::new();
    let mut params: Vec<String> = Vec::new();
    if let Some(t) = title {
        updates.push(chars_of("title = ?"));
        params.push(t.to_string());
    }
    let ghost u1 = views(updates@);
    let ghost p1 = views_of(params@);
    if let Some(a) = author_id {
        updates.push(chars_of("author_id = ?"));
        params.push(string_of(&signed_decimal_chars(a)));
    }
    let ghost u2 = views(updates@);
    let ghost p2 = views_of(params@);
    if let Some(s) = series_id {
        updates.push(chars_of("series_id = ?"));
        params.push(string_of(&signed_decimal_chars(s)));
    }
    proof {
        assert(views(updates@) =~= update_assignments(title is Some, author_id is Some, series_id is Some));
        assert(views_of(params@) =~= update_params(opt_str(title), author_id, series_id));
    }
    if updates.len() == 0 {
        return None;
    }
    let mut sql: Vec<char> = Vec::new();
    extend_str(&mut sql, "UPDATE books SET ");
    let joined = join_chars(&updates, ", ");
    extend_chars(&mut sql, &joined);
    extend_str(&mut sql, " WHERE id = ?");
    Some((string_of(&sql), params))
}

/// Every bound value of a book update has its placeholder: the statement
/// holds one `?` per parameter and one for the book's id.
#[verifier::spinoff_prover]
#[verifier::rlimit(50)]
pub proof fn lemma_update_placeholders(title: Option<Seq<char>>, author_id: Option<i64>, series_id: Option<i64>)
    ensures
        char_count(
            update_sql(update_assignments(title is Some, author_id is Some, series_id is Some)),
            '?',
        ) == update_params(title, author_id, series_id).len() + 1,
{
    reveal_strlit("title = ?");
    reveal_strlit("author_id = ?");
    reveal_strlit("series_id = ?");
    reveal_strlit(", ");
    reveal_strlit("UPDATE books SET ");
    reveal_strlit(" WHERE id = ?");
    reveal_with_fuel(crate::text::count_from, 20);
    assert(char_count("title = ?"@, '?') == 1);
    assert(char_count("author_id = ?"@, '?') == 1);
    assert(char_count("series_id = ?"@, '?') == 1);
    assert(char_count(", "@, '?') == 0);
    assert(char_count("UPDATE books SET "@, '?') == 0);
    assert(char_count(" WHERE id = ?"@, '?') == 1);
    let s1: Seq<Seq<char>> = if title is Some {
        seq!["title = ?"@]
    } else {
        Seq::empty()
    };
    let s2: Seq<Seq<char>> = if author_id is Some {
        seq!["author_id = ?"@]
    } else {
        Seq::empty()
    };
    let s3: Seq<Seq<char>> = if series_id is Some {
        seq!["series_id = ?"@]
    } else {
        Seq::empty()
    };
    let us = update_assignments(title is Some, author_id is Some, series_id is Some);
    assert(us == s1 + s2 + s3);
    lemma_sum_concat(s1, s2);
    lemma_sum_concat(s1 + s2, s3);
    assert(seq!["title = ?"@].drop_last() =~= Seq::<Seq<char>>::empty());
    assert(seq!["author_id = ?"@].drop_last() =~= Seq::<Seq<char>>::empty());
    assert(seq!["series_id = ?"@].drop_last() =~= Seq::<Seq<char>>::empty());
    lemma_char_count_join(us, ", "@, '?');
    lemma_char_count_concat("UPDATE books SET "@, join(us, ", "@), '?');
    lemma_char_count_concat("UPDATE books SET "@ + join(us, ", "@), " WHERE id = ?"@, '?');
}

/// What deleting a series takes.
#[derive(Debug, Clone, Copy, PartialEq, Eq, Structural)]
pub enum SeriesDeletion {
    /// No book is in the series: delete it.
    Delete,
    /// Unlink the series' books first, then delete it.
    UnlinkThenDelete,
}

/// The refusal to delete a series that still has books.
pub open spec fn series_in_use_message(count: i64) -> Seq<char> {
    "La serie tiene "@ + signed_decimal(count as int)
        + " libro(s) asociado(s). Usá --force para desvincularlos primero."@
}

/// Decides how a series with `book_count` books is deleted: directly when
/// it has none, after unlinking its books when `unlink` is set, and not at
/// all otherwise.
pub fn series_deletion(book_count: i64, unlink: bool) -> (r: Result<SeriesDeletion, String>)
    ensures
        book_count <= 0 ==> r == Ok::<SeriesDeletion, String>(SeriesDeletion::Delete),
        book_count > 0 && unlink ==> r == Ok::<SeriesDeletion, String>(SeriesDeletion::UnlinkThenDelete),
        book_count > 0 && !unlink ==> (r matches Err(m) && m@ == series_in_use_message(book_count)),
{
    if book_count > 0 {
        if unlink {
            Ok(SeriesDeletion::UnlinkThenDelete)
        } else {
            let mut m: Vec<char> = Vec::new();
            extend_str(&mut m, "La serie tiene ");
            let d = signed_decimal_chars(book_count);
            extend_chars(&mut m, &d);
            extend_str(&mut m, " libro(s) asociado(s). Usá --force para desvincularlos primero.");
            Err(string_of(&m))
        }
    } else {
        Ok(SeriesDeletion::Delete)
    }
}

/// After a book's records are deleted: whether its file is removed, and the
/// path reported as deleted. The file goes only when asked for and present.
pub fn file_removal(delete_file: bool, file_exists: bool, path: &str) -> (r: Option<String>)
    ensures
        (delete_file && file_exists) <==> r is Some,
        r matches Some(p) ==> p@ == path@,
{
    if delete_file && file_exists {
        Some(path.to_string())
    } else {
        None
    }
}

/// The file of a `sqlite://` database URL.
pub open spec fn sqlite_file_of(url: Seq<char>) -> Option<Seq<char>> {
    if starts_with(url, "sqlite://"@) {
        Some(url.skip(9))
    } else {
        None
    }
}

/// The file path of a `sqlite://` URL, which must exist before connecting.
pub fn sqlite_file_path(url: &str) -> (r: Option<String>)
    ensures
        crate::xml::opt_view(r) == sqlite_file_of(url@),
{
    let v = chars_of(url);
    if has_prefix(&v, "sqlite://") {
        proof {
            reveal_strlit("sqlite://");
        }
        let rest = sub_chars(&v, 9, v.len());
        assert(rest@ =~= url@.skip(9));
        Some(string_of(&rest))
    } else {
        None
    }
}

/// The aliases that every library starts with.
pub open spec fn default_alias_pairs() -> Seq<(Seq<char>, Seq<char>)> {
    seq![
        ("list"@, "books"@),
        ("search"@, "books --fts"@),
        ("ba"@, "books --author"@),
        ("bs"@, "books --series"@),
    ]
}

/// The view of an alias.
pub open spec fn alias_view(a: Alias) -> (Seq<char>, Seq<char>) {
    (a.name@, a.command@)
}

/// The aliases that every library starts with: `list`, `search`, `ba`, `bs`.
pub fn default_aliases() -> (r: Vec<Alias>)
    ensures
        r@.map_values(|a: Alias| alias_view(a)) == default_alias_pairs(),
{
    let mut r: Vec<Alias> = Vec::new();
    r.push(Alias { name: "list".to_string(), command: "books".to_string() });
    r.push(Alias { name: "search".to_string(), command: "books --fts".to_string() });
    r.push(Alias { name: "ba".to_string(), command: "books --author".to_string() });
    r.push(Alias { name: "bs".to_string(), command: "books --series".to_string() });
    assert(r@.map_values(|a: Alias| alias_view(a)) =~= default_alias_pairs());
    r
}

/// Whether an alias named `name` is among the aliases.
pub open spec fn has_alias_named(aliases: Seq<(Seq<char>, Seq<char>)>, name: Seq<char>) -> bool {
    exists|i: int| 0 <= i < aliases.len() && (#[trigger] aliases[i]).0 == name
}

/// Whether an alias of the list is named `name`.
fn alias_listed(aliases: &Vec<Alias>, name: &str) -> (b: bool)
    ensures
        b == has_alias_named(aliases@.map_values(|a: Alias| alias_view(a)), name@),
{
    let ghost av = aliases@.map_values(|a: Alias| alias_view(a));
    let mut i: usize = 0;
    while i < aliases.len()
        invariant
            i <= aliases.len(),
            av == aliases@.map_values(|a: Alias| alias_view(a)),
            forall|k: int| 0 <= k < i ==> (#[trigger] av[k]).0 != name@,
        decreases aliases.len() - i,
    {
        if crate::text::same_chars_str(&chars_of(aliases[i].name.as_str()), name) {
            assert(av[i as int].0 == name@);
            return true;
        }
        i += 1;
    }
    false
}

/// The convenience aliases that a library gets when it opens: those of
/// `default_aliases` whose name no alias has yet, so that an alias the user
/// set is never overwritten.
pub fn missing_default_aliases(existing: &Vec<Alias>) -> (r: Vec<Alias>)
    ensures
        r@.map_values(|a: Alias| alias_view(a)) == default_alias_pairs().filter(
            |p: (Seq<char>, Seq<char>)| !has_alias_named(existing@.map_values(|a: Alias| alias_view(a)), p.0),
        ),
{
    let ghost ev = existing@.map_values(|a: Alias| alias_view(a));
    let ghost pred = |p: (Seq<char>, Seq<char>)| !has_alias_named(ev, p.0);
    let defaults = default_aliases();
    let ghost dv = defaults@.map_values(|a: Alias| alias_view(a));
    let mut out: Vec<Alias> = Vec::new();
    let mut i: usize = 0;
    while i < defaults.len()
        invariant
            i <= defaults.len(),
            dv == defaults@.map_values(|a: Alias| alias_view(a)),
            dv == default_alias_pairs(),
            ev == existing@.map_values(|a: Alias| alias_view(a)),
            pred == (|p: (Seq<char>, Seq<char>)| !has_alias_named(ev, p.0)),
            out@.map_values(|a: Alias| alias_view(a)) == dv.take(i as int).filter(pred),
        decreases defaults.len() - i,
    {
        proof {
            reveal(Seq::filter);
            assert(dv.take(i + 1).drop_last() =~= dv.take(i as int));
            assert(dv.take(i + 1).last() == alias_view(defaults@[i as int]));
        }
        let d = &defaults[i];
        if !alias_listed(existing, d.name.as_str()) {
            let ghost o0 = out@.map_values(|a: Alias| alias_view(a));
            out.push(Alias { name: d.name.clone(), command: d.command.clone() });
            assert(out@.map_values(|a: Alias| alias_view(a)) =~= o0.push(alias_view(defaults@[i as int])));
        }
        i += 1;
    }
    assert(dv.take(defaults.len() as int) =~= dv);
    out
}

/// The author name that a book update finds or creates: the given name,
/// and only when no author id is given.
pub fn author_name_to_resolve<'a>(author_id: Option<i64>, author_name: Option<&'a str>) -> (r: Option<&'a str>)
    ensures
        r == (if author_id is None {
            author_name
        } else {
            None::<&str>
        }),
{
    match author_id {
        Some(_) => None,
        None => author_name,
    }
}

} // verus!
