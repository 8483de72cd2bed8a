//! Normalizing where books live on disk.
use vstd::prelude::*;
use crate::text::{chars_of, extend_str, has_prefix, same_chars_str, starts_with, string_of, views};

verus! {

/// Moves books to the normalized folder layout (author, series, title).
pub struct Organizer;

impl Organizer {
    /// The error when the book's file is not where the library says.
    pub fn missing_source_error(path: &str) -> (r: String)
        ensures
            r@ == "Archivo origen no existe: "@ + path@,
    {
        let mut v: Vec<char> = Vec::new();
        extend_str(&mut v, "Archivo origen no existe: ");
        extend_str(&mut v, path);
        string_of(&v)
    }

    /// Whether the original file is removed after the move: only when the
    /// book moved to another path, paths compared by their components.
    pub fn removes_original(source: &str, target: &str) -> (b: bool)
        ensures
            b == !same_path(source@, target@),
    {
        let a = path_parts(source);
        let b = path_parts(target);
        !(a.0 == b.0 && a.1 == b.1 && same_piece_lists(&a.2, &b.2))
    }
}

/// The pieces of a path text between its `/` separators, empty ones
/// included (`"a//b/"` gives `a`, ``, `b`, ``).
pub open spec fn slash_pieces(p: Seq<char>) -> Seq<Seq<char>>
    decreases p.len(),
{
    if p.len() == 0 {
        seq![Seq::empty()]
    } else {
        let prev = slash_pieces(p.drop_last());
        if p.last() == '/' {
            prev.push(Seq::empty())
        } else {
            prev.drop_last().push(prev.last().push(p.last()))
        }
    }
}

/// The components of a path as `Path::components` gives them on Unix: a
/// root when it starts with `/`; a leading current-directory component when
/// it is `.` or starts with `./`; then its named pieces, with empty pieces
/// (repeated or trailing separators) and `.` pieces left out.
pub open spec fn path_components(p: Seq<char>) -> (bool, bool, Seq<Seq<char>>) {
    let rooted = p.len() > 0 && p[0] == '/';
    let current = !rooted && (p == "."@ || starts_with(p, "./"@));
    (rooted, current, slash_pieces(p).filter(|s: Seq<char>| s.len() > 0 && s != "."@))
}

/// Whether two path texts name the same path (`Path`'s `==`, which compares
/// components).
pub open spec fn same_path(a: Seq<char>, b: Seq<char>) -> bool {
    path_components(a) == path_components(b)
}

proof fn lemma_slash_pieces_no_slash(p: Seq<char>)
    ensures
        forall|i: int| 0 <= i < slash_pieces(p).len() ==> !(#[trigger] slash_pieces(p)[i]).contains('/'),
    decreases p.len(),
{
    if p.len() > 0 {
        lemma_slash_pieces_no_slash(p.drop_last());
        lemma_slash_pieces_nonempty(p.drop_last());
        let prev = slash_pieces(p.drop_last());
        let cur = slash_pieces(p);
        assert(!Seq::<char>::empty().contains('/'));
        assert forall|i: int| 0 <= i < cur.len() implies !(#[trigger] cur[i]).contains('/') by {
            if p.last() == '/' {
                if i < prev.len() {
                    assert(cur[i] == prev[i]);
                }
            } else if i < prev.len() - 1 {
                assert(cur[i] == prev[i]);
            } else {
                let l = prev.last().push(p.last());
                assert(cur[i] == l);
                assert(!prev[prev.len() - 1].contains('/'));
                if l.contains('/') {
                    let k = choose|k: int| 0 <= k < l.len() && l[k] == '/';
                    assert(prev.last()[k] == '/');
                }
            }
        }
    } else {
        assert(slash_pieces(p)[0] =~= Seq::<char>::empty());
    }
}

proof fn lemma_named_pieces(s: Seq<Seq<char>>, pred: spec_fn(Seq<char>) -> bool)
    requires
        forall|i: int| 0 <= i < s.len() ==> !(#[trigger] s[i]).contains('/'),
        forall|x: Seq<char>| #[trigger] pred(x) ==> x.len() > 0,
    ensures
        forall|i: int|
            0 <= i < s.filter(pred).len() ==> (#[trigger] s.filter(pred)[i]).len() > 0 && !s.filter(
                pred,
            )[i].contains('/'),
    decreases s.len(),
{
    reveal(Seq::filter);
    if s.len() > 0 {
        let d = s.drop_last();
        assert forall|i: int| 0 <= i < d.len() implies !(#[trigger] d[i]).contains('/') by {
            assert(d[i] == s[i]);
        }
        lemma_named_pieces(d, pred);
        assert(!s[s.len() - 1].contains('/'));
        let f = s.filter(pred);
        let fd = d.filter(pred);
        if pred(s.last()) {
            assert(f == fd.push(s.last()));
            assert forall|i: int| 0 <= i < f.len() implies (#[trigger] f[i]).len() > 0 && !f[i].contains('/') by {
                if i < fd.len() {
                    assert(f[i] == fd[i]);
                }
            }
        } else {
            assert(f == fd);
        }
    }
}

/// The named pieces of a path are never empty and hold no `/`.
pub proof fn lemma_path_names(p: Seq<char>)
    ensures
        forall|i: int|
            0 <= i < path_components(p).2.len() ==> (#[trigger] path_components(p).2[i]).len() > 0
                && !path_components(p).2[i].contains('/'),
{
    lemma_slash_pieces_no_slash(p);
    lemma_named_pieces(slash_pieces(p), |x: Seq<char>| x.len() > 0 && x != "."@);
}

proof fn lemma_slash_pieces_nonempty(p: Seq<char>)
    ensures
        slash_pieces(p).len() > 0,
    decreases p.len(),
{
    if p.len() > 0 {
        lemma_slash_pieces_nonempty(p.drop_last());
    }
}

/// The components of a path text.
pub(crate) fn path_parts(p: &str) -> (r: (bool, bool, Vec<Vec<char>>))
    ensures
        (r.0, r.1, views(r.2@)) == path_components(p@),
{
    let v = chars_of(p);
    let mut done: Vec<Vec<char>> = Vec::new();
    let mut cur: Vec<char> = Vec::new();
    let mut i: usize = 0;
    while i < v.len()
        invariant
            i <= v.len(),
            v@ == p@,
            views(done@).push(cur@) == slash_pieces(v@.take(i as int)),
        decreases v.len() - i,
    {
        proof {
            assert(v@.take(i + 1).drop_last() =~= v@.take(i as int));
            lemma_slash_pieces_nonempty(v@.take(i as int));
        }
        if v[i] == '/' {
            let ghost d0 = views(done@);
            done.push(cur);
            cur = Vec::new();
            assert(views(done@) =~= d0.push(views(done@).last()));
            assert(views(done@).push(cur@) =~= slash_pieces(v@.take(i as int)).push(Seq::empty()));
        } else {
            let ghost c0 = cur@;
            cur.push(v[i]);
            assert(views(done@).push(cur@) =~= slash_pieces(v@.take(i as int)).drop_last().push(
                c0.push(v@[i as int]),
            ));
        }
        i += 1;
    }
    assert(v@.take(v.len() as int) =~= v@);
    let ghost before = views(done@);
    done.push(cur);
    assert(views(done@) =~= before.push(done@.last()@));
    assert(views(done@) == slash_pieces(p@));
    let ghost all = views(done@);
    let ghost pred = |s: Seq<char>| s.len() > 0 && s != "."@;
    let mut parts: Vec<Vec<char>> = Vec::new();
    let mut k: usize = 0;
    while k < done.len()
        invariant
            k <= done.len(),
            all == views(done@),
            pred == (|s: Seq<char>| s.len() > 0 && s != "."@),
            views(parts@) == all.take(k as int).filter(pred),
        decreases done.len() - k,
    {
        proof {
            reveal(Seq::filter);
            assert(all.take(k + 1).drop_last() =~= all.take(k as int));
            assert(all.take(k + 1).last() == done@[k as int]@);
        }
        if done[k].len() > 0 && !same_chars_str(&done[k], ".") {
            let ghost q0 = views(parts@);
            let mut c: Vec<char> = Vec::new();
            crate::text::extend_chars(&mut c, &done[k]);
            parts.push(c);
            assert(views(parts@) =~= q0.push(done@[k as int]@));
        }
        k += 1;
    }
    assert(all.take(done.len() as int) =~= all);
    let rooted = v.len() > 0 && v[0] == '/';
    let current = !rooted && (same_chars_str(&v, ".") || has_prefix(&v, "./"));
    assert(views(parts@) == slash_pieces(p@).filter(|s: Seq<char>| s.len() > 0 && s != "."@));
    (rooted, current, parts)
}

/// Whether two lists of pieces are equal.
fn same_piece_lists(a: &Vec<Vec<char>>, b: &Vec<Vec<char>>) -> (r: bool)
    ensures
        r == (views(a@) == views(b@)),
{
    if a.len() != b.len() {
        assert(views(a@).len() != views(b@).len());
        return false;
    }
    let mut i: usize = 0;
    while i < a.len()
        invariant
            i <= a.len() == b.len(),
            forall|k: int| 0 <= k < i ==> a@[k]@ == b@[k]@,
        decreases a.len() - i,
    {
        let mut j: usize = 0;
        if a[i].len() != b[i].len() {
            assert(views(a@)[i as int] != views(b@)[i as int]);
            return false;
        }
        while j < a[i].len()
            invariant
                i < a.len() == b.len(),
                j <= a@[i as int].len() == b@[i as int].len(),
                forall|m: int| 0 <= m < j ==> a@[i as int]@[m] == b@[i as int]@[m],
            decreases a@[i as int].len() - j,
        {
            if a[i][j] != b[i][j] {
                assert(views(a@)[i as int][j as int] != views(b@)[i as int][j as int]);
                return false;
            }
            j += 1;
        }
        assert(a@[i as int]@ =~= b@[i as int]@);
        i += 1;
    }
    assert(views(a@) =~= views(b@));
    true
}

} // verus!
