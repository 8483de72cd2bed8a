//! Synchronization: copies to e-readers that mount as MTP devices.
use vstd::prelude::*;
use crate::cli::{join_path, path_join};
use crate::library_db::opt_str;
use crate::organizer::{lemma_path_names, path_components, path_parts};
use crate::text::{chars_of, string_of, views};
use crate::xml::opt_view;

verus! {

/// Sends books to devices: MTP copies and the embedded OPDS server.
pub struct SyncSubsystem;

/// The last component of a path, as `Path::file_name` gives it on Unix:
/// the last named piece among the path's components, none when there is
/// none (an empty path, a root, `.`) or when it is `..`.
pub open spec fn file_name_of(path: Seq<char>) -> Option<Seq<char>> {
    let names = path_components(path).2;
    if names.len() > 0 && names.last() != ".."@ {
        Some(names.last())
    } else {
        None
    }
}

/// The file name of a path: its last component unless that is `..`.
pub fn file_name(path: &str) -> (r: Option<String>)
    ensures
        opt_view(r) == file_name_of(path@),
        r matches Some(n) ==> n@.len() > 0 && !n@.contains('/'),
{
    let (_, _, names) = path_parts(path);
    proof {
        lemma_path_names(path@);
    }
    if names.len() == 0 {
        return None;
    }
    let last = &names[names.len() - 1];
    assert(views(names@).last() == last@);
    if crate::text::same_chars_str(last, "..") {
        return None;
    }
    Some(string_of(last))
}

/// The folder of books on a mounted device.
pub open spec fn books_dir_of(mount: Seq<char>) -> Seq<char> {
    path_join(mount, "Books"@)
}

/// The copies to make: each book with a file name goes to the device's
/// books folder under that name, in order; the others are skipped.
pub open spec fn mtp_copies_of(books_dir: Seq<char>, books: Seq<Seq<char>>) -> Seq<(Seq<char>, Seq<char>)>
    decreases books.len(),
{
    if books.len() == 0 {
        Seq::empty()
    } else {
        let prev = mtp_copies_of(books_dir, books.drop_last());
        match file_name_of(books.last()) {
            Some(n) => prev.push((books.last(), path_join(books_dir, n))),
            None => prev,
        }
    }
}

impl SyncSubsystem {
    /// The books folder of a device mounted at `mount`.
    pub fn books_dir(mount: &str) -> (r: String)
        ensures
            r@ == books_dir_of(mount@),
    {
        join_path(mount, "Books")
    }

    /// The error when the device has no books folder.
    pub fn missing_books_dir_error() -> (r: String)
        ensures
            r@ == "Directorio /Books no encontrado en el dispositivo MTP"@,
    {
        "Directorio /Books no encontrado en el dispositivo MTP".to_string()
    }

    /// The copies (source, target) that put the books on the device.
    pub fn mtp_copies(books_dir: &str, books: &Vec<String>) -> (r: Vec<(String, String)>)
        ensures
            r@.map_values(|p: (String, String)| (p.0@, p.1@)) == mtp_copies_of(
                books_dir@,
                books@.map_values(|b: String| b@),
            ),
    {
        let ghost bs = books@.map_values(|b: String| b@);
        let mut r: Vec<(String, String)> = Vec::new();
        let mut i: usize = 0;
        while i < books.len()
            invariant
                i <= books.len(),
                bs == books@.map_values(|b: String| b@),
                r@.map_values(|p: (String, String)| (p.0@, p.1@)) == mtp_copies_of(books_dir@, bs.take(i as int)),
            decreases books.len() - i,
        {
            proof {
                assert(bs.take(i + 1).drop_last() =~= bs.take(i as int));
                assert(bs.take(i + 1).last() == books@[i as int]@);
            }
            match file_name(books[i].as_str()) {
                Some(n) => {
                    let target = join_path(books_dir, n.as_str());
                    let ghost r0 = r@.map_values(|p: (String, String)| (p.0@, p.1@));
                    r.push((books[i].clone(), target));
                    assert(r@.map_values(|p: (String, String)| (p.0@, p.1@)) =~= r0.push((books@[i as int]@, target@)));
                },
                None => {},
            }
            i += 1;
        }
        assert(bs.take(books.len() as int) =~= bs);
        r
    }

    /// The name of a device entry that looks like an e-reader: it contains
    /// `mtp`, `boox` or `onyx`.
    pub fn is_reader_device(name: &str) -> (b: bool)
        ensures
            b == (crate::text::contains(name@, "mtp"@) || crate::text::contains(name@, "boox"@)
                || crate::text::contains(name@, "onyx"@)),
    {
        let v = chars_of(name);
        crate::text::contains_chars(&v, &chars_of("mtp")) || crate::text::contains_chars(&v, &chars_of("boox"))
            || crate::text::contains_chars(&v, &chars_of("onyx"))
    }
}

} // verus!
