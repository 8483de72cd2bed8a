//! Character-level text primitives: whitespace, trimming, line splitting,
//! splitting on a separator and joining, all over `Seq<char>` views.
use vstd::prelude::*;
use vstd::string::*;

verus! {

/// Appends one character to a `String` (`String::push`).
#[verifier::external_body]
pub(crate) fn push_char(s: &mut String, c: char)
    ensures
        final(s)@ == old(s)@.push(c),
{
    s.push(c);
}

/// The characters of a string slice, in order.
pub fn chars_of(s: &str) -> (v: Vec<char>)
    ensures
        v@ == s@,
{
    let mut v: Vec<char> = Vec::new();
    for c in it: s.chars()
        invariant
            v@ == it.seq().take(it.index() as int),
            it.seq() == s@,
    {
        v.push(c);
    }
    v
}

/// Builds a `String` from a sequence of characters.
pub fn string_of(v: &Vec<char>) -> (s: String)
    ensures
        s@ == v@,
{
    let mut s = String::new();
    let mut i: usize = 0;
    while i < v.len()
        invariant
            i <= v.len(),
            s@ == v@.take(i as int),
        decreases v.len() - i,
    {
        push_char(&mut s, v[i]);
        assert(v@.take(i + 1) == v@.take(i as int).push(v@[i as int]));
        i += 1;
    }
    assert(v@.take(v.len() as int) == v@);
    s
}

/// Appends all characters of `w` to `v`.
pub fn extend_chars(v: &mut Vec<char>, w: &Vec<char>)
    ensures
        final(v)@ == old(v)@ + w@,
{
    let mut i: usize = 0;
    while i < w.len()
        invariant
            i <= w.len(),
            v@ == old(v)@ + w@.take(i as int),
        decreases w.len() - i,
    {
        v.push(w[i]);
        assert(w@.take(i + 1) == w@.take(i as int).push(w@[i as int]));
        i += 1;
    }
    assert(w@.take(w.len() as int) == w@);
}

/// Appends all characters of a string slice to `v`.
pub fn extend_str(v: &mut Vec<char>, s: &str)
    ensures
        final(v)@ == old(v)@ + s@,
{
    let w = chars_of(s);
    extend_chars(v, &w);
}

/// A copy of a character vector.
pub fn copy_chars(w: &Vec<char>) -> (v: Vec<char>)
    ensures
        v@ == w@,
{
    let mut v: Vec<char> = Vec::new();
    extend_chars(&mut v, w);
    v
}

/// The slice `w[lo..hi]` as a new vector.
pub fn sub_chars(w: &Vec<char>, lo: usize, hi: usize) -> (v: Vec<char>)
    requires
        lo <= hi <= w.len(),
    ensures
        v@ == w@.subrange(lo as int, hi as int),
{
    let mut v: Vec<char> = Vec::new();
    let mut i = lo;
    while i < hi
        invariant
            lo <= i <= hi <= w.len(),
            v@ == w@.subrange(lo as int, i as int),
        decreases hi - i,
    {
        v.push(w[i]);
        assert(w@.subrange(lo as int, i + 1) == w@.subrange(lo as int, i as int).push(w@[i as int]));
        i += 1;
    }
    v
}

// ─── Whitespace ──────────────────────────────────────────────────────────

/// The Unicode `White_Space` property, as `char::is_whitespace` documents it.
pub open spec fn is_ws(c: char) -> bool {
    let n = c as u32;
    ||| 0x09 <= n <= 0x0D
    ||| n == 0x20
    ||| n == 0x85
    ||| n == 0xA0
    ||| n == 0x1680
    ||| 0x2000 <= n <= 0x200A
    ||| n == 0x2028
    ||| n == 0x2029
    ||| n == 0x202F
    ||| n == 0x205F
    ||| n == 0x3000
}

/// Whether `c` is Unicode whitespace.
pub fn is_whitespace(c: char) -> (b: bool)
    ensures
        b == is_ws(c),
{
    let n = c as u32;
    (0x09 <= n && n <= 0x0D) || n == 0x20 || n == 0x85 || n == 0xA0 || n == 0x1680 || (0x2000
        <= n && n <= 0x200A) || n == 0x2028 || n == 0x2029 || n == 0x202F || n == 0x205F || n
        == 0x3000
}

/// Leading whitespace removed (`str::trim_start`).
pub open spec fn trim_start(s: Seq<char>) -> Seq<char>
    decreases s.len(),
{
    if s.len() > 0 && is_ws(s[0]) {
        trim_start(s.drop_first())
    } else {
        s
    }
}

/// Trailing whitespace removed (`str::trim_end`).
pub open spec fn trim_end(s: Seq<char>) -> Seq<char>
    decreases s.len(),
{
    if s.len() > 0 && is_ws(s.last()) {
        trim_end(s.drop_last())
    } else {
        s
    }
}

/// Leading and trailing whitespace removed (`str::trim`).
pub open spec fn trim(s: Seq<char>) -> Seq<char> {
    trim_end(trim_start(s))
}

pub proof fn lemma_trim_start_skip(s: Seq<char>, i: int)
    requires
        0 <= i <= s.len(),
        forall|k: int| 0 <= k < i ==> is_ws(#[trigger] s[k]),
    ensures
        trim_start(s) == trim_start(s.subrange(i, s.len() as int)),
    decreases i,
{
    if i > 0 {
        lemma_trim_start_skip(s.drop_first(), i - 1);
        assert(s.drop_first().subrange(i - 1, s.drop_first().len() as int) == s.subrange(
            i,
            s.len() as int,
        ));
    } else {
        assert(s.subrange(0, s.len() as int) == s);
    }
}

pub proof fn lemma_trim_end_cut(s: Seq<char>, j: int)
    requires
        0 <= j <= s.len(),
        forall|k: int| j <= k < s.len() ==> is_ws(#[trigger] s[k]),
    ensures
        trim_end(s) == trim_end(s.subrange(0, j)),
    decreases s.len() - j,
{
    if j < s.len() {
        lemma_trim_end_cut(s.drop_last(), j);
        assert(s.drop_last().subrange(0, j) == s.subrange(0, j));
    } else {
        assert(s.subrange(0, j) == s);
    }
}

/// Trim bounds: `v[lo..hi]` is `v` with surrounding whitespace removed.
pub fn trim_bounds(v: &Vec<char>) -> (r: (usize, usize))
    ensures
        r.0 <= r.1 <= v.len(),
        v@.subrange(r.0 as int, r.1 as int) == trim(v@),
{
    let n = v.len();
    let mut i: usize = 0;
    while i < n && is_whitespace(v[i])
        invariant
            i <= n == v.len(),
            forall|k: int| 0 <= k < i ==> is_ws(#[trigger] v@[k]),
        decreases n - i,
    {
        i += 1;
    }
    let mut j: usize = n;
    while j > i && is_whitespace(v[j - 1])
        invariant
            i <= j <= n == v.len(),
            forall|k: int| j <= k < n ==> is_ws(#[trigger] v@[k]),
        decreases j,
    {
        j -= 1;
    }
    proof {
        let s = v@;
        lemma_trim_start_skip(s, i as int);
        let t = s.subrange(i as int, n as int);
        if i < n {
            assert(t[0] == s[i as int]);
        }
        assert(trim_start(t) == t);
        assert forall|k: int| (j - i) <= k < t.len() implies is_ws(#[trigger] t[k]) by {
            assert(t[k] == s[i + k]);
        }
        lemma_trim_end_cut(t, (j - i) as int);
        let u = t.subrange(0, (j - i) as int);
        assert(u == s.subrange(i as int, j as int));
        if j > i {
            assert(u.last() == s[j - 1]);
        }
        assert(trim_end(u) == u);
    }
    (i, j)
}

proof fn lemma_trim_start_idempotent(s: Seq<char>)
    ensures
        trim_start(trim_start(s)) == trim_start(s),
    decreases s.len(),
{
    if s.len() > 0 && is_ws(s[0]) {
        lemma_trim_start_idempotent(s.drop_first());
    }
}

proof fn lemma_trim_end_idempotent(s: Seq<char>)
    ensures
        trim_end(trim_end(s)) == trim_end(s),
    decreases s.len(),
{
    if s.len() > 0 && is_ws(s.last()) {
        lemma_trim_end_idempotent(s.drop_last());
    }
}

proof fn lemma_trim_start_head(s: Seq<char>)
    ensures
        trim_start(s).len() == 0 || !is_ws(trim_start(s)[0]),
    decreases s.len(),
{
    if s.len() > 0 && is_ws(s[0]) {
        lemma_trim_start_head(s.drop_first());
    }
}

proof fn lemma_trim_end_keeps_start(s: Seq<char>)
    requires
        s.len() == 0 || !is_ws(s[0]),
    ensures
        trim_start(trim_end(s)) == trim_end(s),
    decreases s.len(),
{
    if s.len() > 0 && is_ws(s.last()) {
        let t = s.drop_last();
        if t.len() > 0 {
            assert(t[0] == s[0]);
        }
        lemma_trim_end_keeps_start(t);
    } else if s.len() > 0 {
        assert(trim_start(s) == s);
    }
}

/// Trimming twice is trimming once.
pub proof fn lemma_trim_idempotent(s: Seq<char>)
    ensures
        trim(trim(s)) == trim(s),
{
    let a = trim_start(s);
    lemma_trim_start_head(s);
    lemma_trim_start_idempotent(s);
    lemma_trim_end_keeps_start(a);
    lemma_trim_end_idempotent(a);
}

/// `v` with surrounding whitespace removed.
pub fn trim_chars(v: &Vec<char>) -> (r: Vec<char>)
    ensures
        r@ == trim(v@),
{
    let (i, j) = trim_bounds(v);
    sub_chars(v, i, j)
}

/// A string slice with surrounding whitespace removed, as a `String`.
pub fn trim_str(s: &str) -> (r: String)
    ensures
        r@ == trim(s@),
{
    let v = chars_of(s);
    let t = trim_chars(&v);
    string_of(&t)
}


// ─── Sequences of strings ───────────────────────────────────────────────

/// The character views of a vector of character vectors.
pub open spec fn views(vv: Seq<Vec<char>>) -> Seq<Seq<char>> {
    vv.map_values(|x: Vec<char>| x@)
}

/// The character views of a vector of strings.
pub open spec fn string_views(vv: Seq<String>) -> Seq<Seq<char>> {
    vv.map_values(|x: String| x@)
}

/// One trailing `'\r'` removed, if present.
pub open spec fn strip_cr(s: Seq<char>) -> Seq<char> {
    if s.len() > 0 && s.last() == '\r' {
        s.drop_last()
    } else {
        s
    }
}

/// The state of a left-to-right line scan: the finished lines and the
/// current, unfinished one.
pub open spec fn lines_state(s: Seq<char>) -> (Seq<Seq<char>>, Seq<char>)
    decreases s.len(),
{
    if s.len() == 0 {
        (Seq::empty(), Seq::empty())
    } else {
        let (done, cur) = lines_state(s.drop_last());
        if s.last() == '\n' {
            (done.push(strip_cr(cur)), Seq::empty())
        } else {
            (done, cur.push(s.last()))
        }
    }
}

/// The lines of a text (`str::lines`): split at `'\n'`, one `'\r'` before
/// each `'\n'` dropped, and no final empty line.
pub open spec fn lines(s: Seq<char>) -> Seq<Seq<char>> {
    let (done, cur) = lines_state(s);
    if cur.len() > 0 {
        done.push(cur)
    } else {
        done
    }
}

proof fn lemma_lines_state_after(p: Seq<char>, d: Seq<Seq<char>>, s: Seq<char>)
    requires
        lines_state(p) == (d, Seq::<char>::empty()),
    ensures
        lines_state(p + s) == (d + lines_state(s).0, lines_state(s).1),
    decreases s.len(),
{
    if s.len() == 0 {
        assert(p + s =~= p);
        assert(d + Seq::<Seq<char>>::empty() =~= d);
    } else {
        lemma_lines_state_after(p, d, s.drop_last());
        assert((p + s).drop_last() =~= p + s.drop_last());
        assert((p + s).last() == s.last());
        let (d1, c1) = lines_state(s.drop_last());
        if s.last() == '\n' {
            assert((d + d1).push(strip_cr(c1)) =~= d + d1.push(strip_cr(c1)));
        }
    }
}

proof fn lemma_lines_state_one_line(s: Seq<char>)
    requires
        !s.contains('\n'),
    ensures
        lines_state(s) == (Seq::<Seq<char>>::empty(), s),
    decreases s.len(),
{
    if s.len() > 0 {
        assert(!s.drop_last().contains('\n')) by {
            if s.drop_last().contains('\n') {
                let k = choose|k: int| 0 <= k < s.drop_last().len() && s.drop_last()[k] == '\n';
                assert(s[k] == '\n');
            }
        }
        lemma_lines_state_one_line(s.drop_last());
        assert(s[s.len() - 1] == s.last());
        assert(s.drop_last().push(s.last()) =~= s);
    }
}

/// A line without `'\r'` or `'\n'`, then a newline, then a text: its
/// lines are that line followed by the lines of the text.
pub proof fn lemma_lines_after_line(l: Seq<char>, x: Seq<char>)
    requires
        !l.contains('\n'),
        !l.contains('\r'),
    ensures
        lines(l.push('\n') + x) == seq![l] + lines(x),
{
    lemma_lines_state_one_line(l);
    assert(l.push('\n').drop_last() =~= l);
    if l.len() > 0 {
        assert(l[l.len() - 1] == l.last());
    }
    assert(strip_cr(l) == l);
    assert(lines_state(l.push('\n')) == (seq![l], Seq::<char>::empty()));
    lemma_lines_state_after(l.push('\n'), seq![l], x);
    let (dx, cx) = lines_state(x);
    assert((seq![l] + dx).push(cx) =~= seq![l] + dx.push(cx));
}

proof fn lemma_lines_state_rejoin(s: Seq<char>)
    requires
        !s.contains('\r'),
    ensures
        ({
            let (d, c) = lines_state(s);
            s == (if d.len() > 0 {
                join(d, "\n"@) + "\n"@ + c
            } else {
                c
            })
        }),
    decreases s.len(),
{
    reveal_strlit("\n");
    if s.len() > 0 {
        let s0 = s.drop_last();
        assert(!s0.contains('\r')) by {
            if s0.contains('\r') {
                let k = choose|k: int| 0 <= k < s0.len() && s0[k] == '\r';
                assert(s[k] == '\r');
            }
        }
        lemma_lines_state_rejoin(s0);
        let (d, c) = lines_state(s0);
        assert(s == s0.push(s.last()));
        if s.last() == '\n' {
            if c.len() > 0 {
                assert(c.last() == s0.last());
                assert(s0[s0.len() - 1] == s0.last());
                assert(c.last() != '\r');
            }
            assert(strip_cr(c) == c);
            if d.len() > 0 {
                assert(d.push(c).drop_last() =~= d);
                assert(join(d.push(c), "\n"@) == join(d, "\n"@) + "\n"@ + c);
                assert(join(d.push(c), "\n"@) + "\n"@ + Seq::<char>::empty() =~= s);
            } else {
                assert(join(d.push(c), "\n"@) == c);
                assert(join(d.push(c), "\n"@) + "\n"@ + Seq::<char>::empty() =~= s);
            }
        } else {
            if d.len() > 0 {
                assert(join(d, "\n"@) + "\n"@ + c.push(s.last()) =~= s);
            } else {
                assert(c.push(s.last()) =~= s);
            }
        }
    }
}

/// A text without `'\r'` that does not end with a newline is its lines
/// joined by newlines.
pub proof fn lemma_lines_rejoin(s: Seq<char>)
    requires
        !s.contains('\r'),
        s.len() == 0 || s.last() != '\n',
    ensures
        join(lines(s), "\n"@) == s,
{
    reveal_strlit("\n");
    lemma_lines_state_rejoin(s);
    let (d, c) = lines_state(s);
    if s.len() > 0 {
        let (d0, c0) = lines_state(s.drop_last());
        assert(c.len() > 0);
        if d.len() > 0 {
            assert(d.push(c).drop_last() =~= d);
                assert(join(d.push(c), "\n"@) == join(d, "\n"@) + "\n"@ + c);
        }
    }
}

/// No line holds a newline.
pub proof fn lemma_lines_no_newline(s: Seq<char>)
    ensures
        forall|i: int| 0 <= i < lines(s).len() ==> !(#[trigger] lines(s)[i]).contains('\n'),
{
    lemma_lines_state_no_newline(s);
}

proof fn lemma_lines_state_no_newline(s: Seq<char>)
    ensures
        forall|i: int| 0 <= i < lines_state(s).0.len() ==> !(#[trigger] lines_state(s).0[i]).contains('\n'),
        !lines_state(s).1.contains('\n'),
    decreases s.len(),
{
    if s.len() > 0 {
        lemma_lines_state_no_newline(s.drop_last());
        let (d, c) = lines_state(s.drop_last());
        if s.last() == '\n' {
            let l = strip_cr(c);
            assert(!l.contains('\n')) by {
                if l.contains('\n') {
                    let k = choose|k: int| 0 <= k < l.len() && l[k] == '\n';
                    assert(c[k] == '\n');
                }
            }
            assert(!Seq::<char>::empty().contains('\n'));
            let d2 = d.push(l);
            assert forall|i: int| 0 <= i < d2.len() implies !(#[trigger] d2[i]).contains('\n') by {
                if i < d.len() {
                    assert(d2[i] == d[i]);
                }
            }
        } else {
            let c2 = c.push(s.last());
            assert(!c2.contains('\n')) by {
                if c2.contains('\n') {
                    let k = choose|k: int| 0 <= k < c2.len() && c2[k] == '\n';
                    if k < c.len() {
                        assert(c[k] == '\n');
                    }
                }
            }
        }
    } else {
        assert(!Seq::<char>::empty().contains('\n'));
    }
}

/// A line that ends with `'\r'`.
pub open spec fn ends_with_cr(l: Seq<char>) -> bool {
    l.len() > 0 && l.last() == '\r'
}

/// Lines that come back unchanged from `lines` once joined by newlines:
/// none holds a newline, none but the last ends with `'\r'`, and the last
/// is not empty.
pub open spec fn rejoinable(k: Seq<Seq<char>>) -> bool {
    &&& forall|i: int| 0 <= i < k.len() ==> !(#[trigger] k[i]).contains('\n')
    &&& forall|i: int| 0 <= i < k.len() - 1 ==> !ends_with_cr(#[trigger] k[i])
    &&& (k.len() == 0 || k.last().len() > 0)
}

proof fn lemma_lines_state_join(k: Seq<Seq<char>>)
    requires
        k.len() > 0,
        forall|i: int| 0 <= i < k.len() ==> !(#[trigger] k[i]).contains('\n'),
        forall|i: int| 0 <= i < k.len() - 1 ==> !ends_with_cr(#[trigger] k[i]),
    ensures
        lines_state(join(k, "\n"@)) == (k.drop_last(), k.last()),
    decreases k.len(),
{
    reveal_strlit("\n");
    if k.len() == 1 {
        assert(!k[0].contains('\n'));
        lemma_lines_state_one_line(k[0]);
        assert(k.drop_last() =~= Seq::<Seq<char>>::empty());
    } else {
        let k0 = k.drop_last();
        assert forall|i: int| 0 <= i < k0.len() implies !(#[trigger] k0[i]).contains('\n') by {
            assert(k0[i] == k[i]);
        }
        assert forall|i: int| 0 <= i < k0.len() - 1 implies !ends_with_cr(#[trigger] k0[i]) by {
            assert(k0[i] == k[i]);
        }
        lemma_lines_state_join(k0);
        let p = join(k0, "\n"@);
        let l = k0.last();
        assert(!ends_with_cr(k[k.len() - 2]));
        assert(k[k.len() - 2] == l);
        let pn = p.push('\n');
        assert(pn.drop_last() =~= p);
        assert(strip_cr(l) == l);
        assert(k0.drop_last().push(l) =~= k0);
        assert(lines_state(pn) == (k0, Seq::<char>::empty()));
        lemma_lines_state_after(pn, k0, k.last());
        assert(!k[k.len() - 1].contains('\n'));
        lemma_lines_state_one_line(k.last());
        assert(k0 + Seq::<Seq<char>>::empty() =~= k0);
        assert(join(k, "\n"@) == p + "\n"@ + k.last());
        assert(p + "\n"@ + k.last() =~= pn + k.last());
    }
}

/// Rejoinable lines come back from `lines` as they were.
pub proof fn lemma_lines_of_join(k: Seq<Seq<char>>)
    requires
        rejoinable(k),
    ensures
        lines(join(k, "\n"@)) == k,
{
    if k.len() == 0 {
        assert(lines_state(Seq::<char>::empty()) == (Seq::<Seq<char>>::empty(), Seq::<char>::empty()));
    } else {
        lemma_lines_state_join(k);
        assert(k.drop_last().push(k.last()) =~= k);
    }
}

/// A text occurs in itself, and in any text around it.
pub proof fn lemma_contains_within(a: Seq<char>, x: Seq<char>, b: Seq<char>)
    ensures
        contains(a + x + b, x),
{
    let t = a + x + b;
    assert(t.subrange(a.len() as int, (a.len() + x.len()) as int) =~= x);
    assert(occurs_at(t, x, a.len() as int));
}

/// What occurs in a part of a text occurs in the text.
pub proof fn lemma_contains_in_part(s: Seq<char>, i: int, j: int, p: Seq<char>)
    requires
        0 <= i <= j <= s.len(),
        contains(s.subrange(i, j), p),
    ensures
        contains(s, p),
{
    let part = s.subrange(i, j);
    let k = choose|k: int| occurs_at(part, p, k);
    assert(s.subrange(i + k, i + k + p.len()) =~= part.subrange(k, k + p.len()));
    assert(occurs_at(s, p, i + k));
}

/// Where the current line of the scan begins.
proof fn lines_state_cur_start(x: Seq<char>) -> (j: int)
    ensures
        0 <= j <= x.len(),
        lines_state(x).1 == x.subrange(j, x.len() as int),
    decreases x.len(),
{
    if x.len() == 0 {
        assert(x.subrange(0, 0) =~= Seq::<char>::empty());
        0
    } else {
        let j0 = lines_state_cur_start(x.drop_last());
        if x.last() == '\n' {
            assert(x.subrange(x.len() as int, x.len() as int) =~= Seq::<char>::empty());
            x.len() as int
        } else {
            assert(x.drop_last().subrange(j0, x.len() - 1).push(x.last()) =~= x.subrange(j0, x.len() as int));
            j0
        }
    }
}

/// What occurs in a line of a text occurs in the text.
pub proof fn lemma_lines_within(x: Seq<char>, p: Seq<char>)
    ensures
        forall|i: int| 0 <= i < lines(x).len() && contains(#[trigger] lines(x)[i], p) ==> contains(x, p),
    decreases x.len(),
{
    let (d, c) = lines_state(x);
    lemma_lines_state_within(x, p);
    let j = lines_state_cur_start(x);
    if contains(c, p) {
        lemma_contains_in_part(x, j, x.len() as int, p);
    }
}

proof fn lemma_lines_state_within(x: Seq<char>, p: Seq<char>)
    ensures
        forall|i: int|
            0 <= i < lines_state(x).0.len() && contains(#[trigger] lines_state(x).0[i], p) ==> contains(x, p),
    decreases x.len(),
{
    if x.len() > 0 {
        let x0 = x.drop_last();
        lemma_lines_state_within(x0, p);
        let (d0, c0) = lines_state(x0);
        assert forall|i: int| 0 <= i < d0.len() && contains(#[trigger] d0[i], p) implies contains(x, p) by {
            lemma_contains_in_part(x, 0, x0.len() as int, p);
            assert(x.subrange(0, x0.len() as int) =~= x0);
        }
        if x.last() == '\n' {
            let j = lines_state_cur_start(x0);
            let l = strip_cr(c0);
            if contains(l, p) {
                assert(l =~= x.subrange(j, j + l.len()));
                lemma_contains_in_part(x, j, j + l.len(), p);
            }
        }
    }
}

/// The lines of a character vector.
pub fn lines_of(v: &Vec<char>) -> (r: Vec<Vec<char>>)
    ensures
        views(r@) == lines(v@),
{
    let mut done: Vec<Vec<char>> = Vec::new();
    let mut cur: Vec<char> = Vec::new();
    let mut i: usize = 0;
    while i < v.len()
        invariant
            i <= v.len(),
            (views(done@), cur@) == lines_state(v@.take(i as int)),
        decreases v.len() - i,
    {
        let c = v[i];
        proof {
            assert(v@.take(i + 1).drop_last() == v@.take(i as int));
            assert(v@.take(i + 1).last() == c);
        }
        if c == '\n' {
            if cur.len() > 0 && cur[cur.len() - 1] == '\r' {
                cur.pop();
            }
            let finished = cur;
            let ghost d0 = done@;
            done.push(finished);
            cur = Vec::new();
            proof {
                assert(views(done@) =~= views(d0).push(finished@));
            }
        } else {
            cur.push(c);
        }
        proof {
            assert((views(done@), cur@) == lines_state(v@.take(i + 1)));
        }
        i += 1;
    }
    assert(v@.take(v.len() as int) == v@);
    if cur.len() > 0 {
        let ghost d = done@;
        done.push(cur);
        assert(views(done@) =~= views(d).push(views(done@).last()));
    }
    done
}

/// The state of a left-to-right scan that splits at each `"\n\n"`
/// (leftmost, non-overlapping): the finished pieces and the current one.
pub open spec fn split_blank_state(s: Seq<char>) -> (Seq<Seq<char>>, Seq<char>)
    decreases s.len(),
{
    if s.len() == 0 {
        (Seq::empty(), Seq::empty())
    } else {
        let (done, cur) = split_blank_state(s.drop_last());
        if s.last() == '\n' && cur.len() > 0 && cur.last() == '\n' {
            (done.push(cur.drop_last()), Seq::empty())
        } else {
            (done, cur.push(s.last()))
        }
    }
}

/// `str::split("\n\n")`: the pieces between blank-line separators.
pub open spec fn split_blank(s: Seq<char>) -> Seq<Seq<char>> {
    let (done, cur) = split_blank_state(s);
    done.push(cur)
}

proof fn lemma_split_blank_state_after(p: Seq<char>, d: Seq<Seq<char>>, s: Seq<char>)
    requires
        split_blank_state(p) == (d, Seq::<char>::empty()),
    ensures
        split_blank_state(p + s) == (d + split_blank_state(s).0, split_blank_state(s).1),
    decreases s.len(),
{
    if s.len() == 0 {
        assert(p + s =~= p);
        assert(d + Seq::<Seq<char>>::empty() =~= d);
    } else {
        lemma_split_blank_state_after(p, d, s.drop_last());
        assert((p + s).drop_last() =~= p + s.drop_last());
        assert((p + s).last() == s.last());
        let (d1, c1) = split_blank_state(s.drop_last());
        if s.last() == '\n' && c1.len() > 0 && c1.last() == '\n' {
            assert((d + d1).push(c1.drop_last()) =~= d + d1.push(c1.drop_last()));
        }
    }
}

/// Splitting at blank lines: a text that does not end with a newline,
/// then a blank line, then another text, splits into the pieces of the
/// first followed by the pieces of the second.
pub proof fn lemma_split_blank_concat(a: Seq<char>, b: Seq<char>)
    requires
        a.len() == 0 || a.last() != '\n',
    ensures
        split_blank(a + "\n\n"@ + b) == split_blank(a) + split_blank(b),
{
    reveal_strlit("\n\n");
    let (d, c) = split_blank_state(a);
    let a1 = a.push('\n');
    let a2 = a1.push('\n');
    assert(a1.drop_last() =~= a);
    assert(a2.drop_last() =~= a1);
    if a.len() > 0 {
        assert(c.len() > 0 && c.last() == a.last()) by {
            let (d0, c0) = split_blank_state(a.drop_last());
        }
    }
    assert(split_blank_state(a1) == (d, c.push('\n')));
    assert(c.push('\n').drop_last() =~= c);
    assert(c.push('\n').last() == '\n');
    assert(split_blank_state(a2) == (d.push(c), Seq::<char>::empty()));
    assert(a + "\n\n"@ =~= a2);
    lemma_split_blank_state_after(a2, d.push(c), b);
    assert(a + "\n\n"@ + b =~= a2 + b);
    let (db, cb) = split_blank_state(b);
    assert((d.push(c) + db).push(cb) =~= d.push(c) + db.push(cb));
}

/// Before the first separator, the current piece is the whole text.
pub proof fn lemma_split_blank_state_unsplit(s: Seq<char>)
    ensures
        split_blank_state(s).0.len() == 0 ==> split_blank_state(s).1 == s,
    decreases s.len(),
{
    if s.len() > 0 {
        lemma_split_blank_state_unsplit(s.drop_last());
        let (d, c) = split_blank_state(s.drop_last());
        if d.len() == 0 {
            assert(s.drop_last().push(s.last()) =~= s);
        }
    }
}

/// A newline put before a text that does not start with one joins its
/// first piece and changes nothing else.
pub proof fn lemma_split_blank_state_newline_front(b: Seq<char>)
    requires
        b.len() == 0 || b[0] != '\n',
    ensures
        ({
            let (d, c) = split_blank_state(b);
            let (d2, c2) = split_blank_state(seq!['\n'] + b);
            if d.len() == 0 {
                d2.len() == 0 && c2 == seq!['\n'] + c
            } else {
                d2 == d.update(0, seq!['\n'] + d[0]) && c2 == c
            }
        }),
    decreases b.len(),
{
    let nb = seq!['\n'] + b;
    if b.len() == 0 {
        assert(nb.drop_last() =~= Seq::<char>::empty());
        assert(split_blank_state(Seq::<char>::empty()) == (Seq::<Seq<char>>::empty(), Seq::<char>::empty()));
        assert(split_blank_state(nb.drop_last()) == (Seq::<Seq<char>>::empty(), Seq::<char>::empty()));
        assert(nb.len() == 1);
        assert(nb.last() == '\n');
        assert(seq!['\n'] + Seq::<char>::empty() =~= seq!['\n']);
        assert(Seq::<char>::empty().push('\n') =~= seq!['\n']);
        assert(split_blank_state(nb) == (Seq::<Seq<char>>::empty(), seq!['\n']));
        assert(nb =~= seq!['\n'] + b);
    } else {
        let b0 = b.drop_last();
        if b0.len() > 0 {
            assert(b0[0] == b[0]);
        }
        lemma_split_blank_state_newline_front(b0);
        lemma_split_blank_state_unsplit(b0);
        assert(nb.drop_last() =~= seq!['\n'] + b0);
        assert(nb.last() == b.last());
        let (d1, c1) = split_blank_state(b0);
        let x = b.last();
        if d1.len() == 0 {
            if b0.len() == 0 {
                assert(x == b[0]);
                assert(c1 =~= Seq::<char>::empty());
                assert((seq!['\n'] + c1).push(x) =~= seq!['\n'] + c1.push(x));
            } else {
                assert(c1.len() > 0);
                assert((seq!['\n'] + c1).last() == c1.last());
                assert((seq!['\n'] + c1).drop_last() =~= seq!['\n'] + c1.drop_last());
                assert((seq!['\n'] + c1).push(x) =~= seq!['\n'] + c1.push(x));
                assert(Seq::<Seq<char>>::empty().push(seq!['\n'] + c1.drop_last()) =~= seq![
                    c1.drop_last(),
                ].update(0, seq!['\n'] + c1.drop_last()));
            }
        } else {
            assert(d1.update(0, seq!['\n'] + d1[0]).push(c1.drop_last()) =~= d1.push(c1.drop_last()).update(
                0,
                seq!['\n'] + d1.push(c1.drop_last())[0],
            ));
        }
    }
}

proof fn lemma_trim_start_push(x: Seq<char>, ch: char)
    ensures
        trim_start(x.push(ch)) == (if trim_start(x).len() > 0 {
            trim_start(x).push(ch)
        } else {
            trim_start(seq![ch])
        }),
    decreases x.len(),
{
    if x.len() > 0 {
        assert(x.push(ch)[0] == x[0]);
        if is_ws(x[0]) {
            assert(x.push(ch).drop_first() =~= x.drop_first().push(ch));
            lemma_trim_start_push(x.drop_first(), ch);
        }
    } else {
        assert(x.push(ch) =~= seq![ch]);
    }
}

/// A trailing newline is trimmed away.
pub proof fn lemma_trim_newline_back(x: Seq<char>)
    ensures
        trim(x.push('\n')) == trim(x),
{
    lemma_trim_start_push(x, '\n');
    assert(is_ws('\n'));
    assert(seq!['\n'].drop_first() =~= Seq::<char>::empty());
    assert(trim_start(seq!['\n']) == trim_start(Seq::<char>::empty()));
    let t = trim_start(x);
    if t.len() > 0 {
        assert(t.push('\n').drop_last() =~= t);
        assert(t.push('\n').last() == '\n');
        assert(trim_end(t.push('\n')) == trim_end(t));
    } else {
        assert(trim_end(t) == t);
    }
}

/// A leading newline is trimmed away.
pub proof fn lemma_trim_newline_front(x: Seq<char>)
    ensures
        trim(seq!['\n'] + x) == trim(x),
{
    assert((seq!['\n'] + x).drop_first() =~= x);
}

/// The pieces of a character vector between `"\n\n"` separators.
pub fn split_blank_of(v: &Vec<char>) -> (r: Vec<Vec<char>>)
    ensures
        views(r@) == split_blank(v@),
{
    let mut done: Vec<Vec<char>> = Vec::new();
    let mut cur: Vec<char> = Vec::new();
    let mut i: usize = 0;
    while i < v.len()
        invariant
            i <= v.len(),
            (views(done@), cur@) == split_blank_state(v@.take(i as int)),
        decreases v.len() - i,
    {
        let c = v[i];
        proof {
            assert(v@.take(i + 1).drop_last() == v@.take(i as int));
            assert(v@.take(i + 1).last() == c);
        }
        if c == '\n' && cur.len() > 0 && cur[cur.len() - 1] == '\n' {
            cur.pop();
            let finished = cur;
            let ghost d0 = done@;
            done.push(finished);
            cur = Vec::new();
            proof {
                assert(views(done@) =~= views(d0).push(finished@));
            }
        } else {
            cur.push(c);
        }
        proof {
            assert((views(done@), cur@) == split_blank_state(v@.take(i + 1)));
        }
        i += 1;
    }
    assert(v@.take(v.len() as int) == v@);
    let ghost d = done@;
    done.push(cur);
    assert(views(done@) =~= views(d).push(views(done@).last()));
    done
}

/// The pieces joined with `sep` between consecutive pieces (`join`).
pub open spec fn join(parts: Seq<Seq<char>>, sep: Seq<char>) -> Seq<char>
    decreases parts.len(),
{
    if parts.len() == 0 {
        Seq::empty()
    } else if parts.len() == 1 {
        parts[0]
    } else {
        join(parts.drop_last(), sep) + sep + parts.last()
    }
}

/// The pieces joined with `sep`.
pub fn join_chars(parts: &Vec<Vec<char>>, sep: &str) -> (r: Vec<char>)
    ensures
        r@ == join(views(parts@), sep@),
{
    let mut r: Vec<char> = Vec::new();
    let mut i: usize = 0;
    while i < parts.len()
        invariant
            i <= parts.len(),
            r@ == join(views(parts@).take(i as int), sep@),
        decreases parts.len() - i,
    {
        proof {
            assert(views(parts@).take(i + 1).drop_last() == views(parts@).take(i as int));
            assert(views(parts@).take(i + 1).last() == parts@[i as int]@);
        }
        if i > 0 {
            extend_str(&mut r, sep);
        }
        extend_chars(&mut r, &parts[i]);
        i += 1;
    }
    assert(views(parts@).take(parts.len() as int) == views(parts@));
    r
}

// ─── Prefixes, suffixes, occurrences ─────────────────────────────────────

/// `s` starts with `p`.
pub open spec fn starts_with(s: Seq<char>, p: Seq<char>) -> bool {
    p.len() <= s.len() && s.take(p.len() as int) == p
}

/// `s` ends with `p`.
pub open spec fn ends_with(s: Seq<char>, p: Seq<char>) -> bool {
    p.len() <= s.len() && s.skip(s.len() - p.len()) == p
}

/// `p` occurs in `s` at position `i`.
pub open spec fn occurs_at(s: Seq<char>, p: Seq<char>, i: int) -> bool {
    0 <= i && i + p.len() <= s.len() && s.subrange(i, i + p.len()) == p
}

/// `p` occurs somewhere in `s`.
pub open spec fn contains(s: Seq<char>, p: Seq<char>) -> bool {
    exists|i: int| occurs_at(s, p, i)
}

/// Whether `p` occurs in `s` at position `i`.
pub fn matches_at(s: &Vec<char>, p: &Vec<char>, i: usize) -> (b: bool)
    ensures
        b == occurs_at(s@, p@, i as int),
{
    if i > s.len() || p.len() > s.len() - i {
        return false;
    }
    let mut k: usize = 0;
    while k < p.len()
        invariant
            i + p.len() <= s.len(),
            k <= p.len(),
            forall|m: int| 0 <= m < k ==> s@[i + m] == p@[m],
        decreases p.len() - k,
    {
        if s[i + k] != p[k] {
            assert(s@.subrange(i as int, i + p.len())[k as int] != p@[k as int]);
            return false;
        }
        k += 1;
    }
    assert(s@.subrange(i as int, i + p.len()) =~= p@);
    true
}

/// Whether `s` starts with `p`.
pub fn has_prefix(s: &Vec<char>, p: &str) -> (b: bool)
    ensures
        b == starts_with(s@, p@),
{
    let pv = chars_of(p);
    let b = matches_at(s, &pv, 0);
    proof {
        if b {
            assert(s@.subrange(0, p@.len() as int) == s@.take(p@.len() as int));
        } else if p@.len() <= s@.len() {
            assert(s@.subrange(0, p@.len() as int) == s@.take(p@.len() as int));
        }
    }
    b
}

/// Whether `s` ends with `p`.
pub fn has_suffix(s: &Vec<char>, p: &str) -> (b: bool)
    ensures
        b == ends_with(s@, p@),
{
    let pv = chars_of(p);
    if pv.len() > s.len() {
        return false;
    }
    let b = matches_at(s, &pv, s.len() - pv.len());
    assert(s@.subrange(s.len() - pv.len(), s.len() as int) == s@.skip(s.len() - pv.len()));
    b
}

/// Whether `p` occurs in `s`.
pub fn contains_chars(s: &Vec<char>, p: &Vec<char>) -> (b: bool)
    ensures
        b == contains(s@, p@),
{
    if p.len() > s.len() {
        assert forall|i: int| !occurs_at(s@, p@, i) by {}
        return false;
    }
    if p.len() == 0 {
        assert(s@.subrange(0, 0) =~= p@);
        assert(occurs_at(s@, p@, 0));
        return true;
    }
    let last = s.len() - p.len();
    let mut i: usize = 0;
    while i <= last
        invariant
            last + p.len() == s.len(),
            p.len() > 0,
            i <= last + 1,
            forall|k: int| 0 <= k < i ==> !occurs_at(s@, p@, k),
        decreases last + 1 - i,
    {
        if matches_at(s, p, i) {
            return true;
        }
        i += 1;
    }
    assert forall|k: int| !occurs_at(s@, p@, k) by {
        if 0 <= k < i {
        }
    }
    false
}


/// The number of leftmost, non-overlapping occurrences of `p` in `s`
/// (`str::matches(p).count()` for a non-empty `p`).
pub open spec fn occurrences(s: Seq<char>, p: Seq<char>) -> nat
    decreases s.len(),
{
    if p.len() == 0 || s.len() < p.len() {
        0
    } else if starts_with(s, p) {
        1 + occurrences(s.skip(p.len() as int), p)
    } else {
        occurrences(s.drop_first(), p)
    }
}

/// There are no more occurrences than characters.
pub proof fn lemma_occurrences_le_len(s: Seq<char>, p: Seq<char>)
    ensures
        occurrences(s, p) <= s.len(),
    decreases s.len(),
{
    if p.len() > 0 && s.len() >= p.len() {
        if starts_with(s, p) {
            lemma_occurrences_le_len(s.skip(p.len() as int), p);
        } else {
            lemma_occurrences_le_len(s.drop_first(), p);
        }
    }
}

/// A pattern of two or more characters occurs at most `len / 2` times.
pub proof fn lemma_occurrences_half(s: Seq<char>, p: Seq<char>)
    requires
        p.len() >= 2,
    ensures
        2 * occurrences(s, p) <= s.len(),
    decreases s.len(),
{
    if s.len() >= p.len() {
        if starts_with(s, p) {
            lemma_occurrences_half(s.skip(p.len() as int), p);
        } else {
            lemma_occurrences_half(s.drop_first(), p);
        }
    }
}

/// Counts the leftmost, non-overlapping occurrences of a non-empty `p`.
pub fn count_occurrences(s: &Vec<char>, p: &Vec<char>) -> (n: usize)
    requires
        p.len() > 0,
    ensures
        n == occurrences(s@, p@),
{
    let mut n: usize = 0;
    let mut i: usize = 0;
    assert(s@.skip(0) =~= s@);
    proof {
        lemma_occurrences_le_len(s@, p@);
    }
    while i <= s.len() && p.len() <= s.len() - i
        invariant
            i <= s.len(),
            p.len() > 0,
            n + occurrences(s@.skip(i as int), p@) == occurrences(s@, p@),
            occurrences(s@, p@) <= s.len(),
        decreases s.len() - i,
    {
        let m = matches_at(s, p, i);
        proof {
            assert(s@.skip(i as int).take(p@.len() as int) =~= s@.subrange(i as int, i + p@.len()));
        }
        if m {
            proof {
                assert(s@.skip(i as int).skip(p@.len() as int) =~= s@.skip(i + p@.len()));
            }
            n = n + 1;
            i = i + p.len();
        } else {
            proof {
                assert(s@.skip(i as int).drop_first() =~= s@.skip(i + 1));
            }
            i = i + 1;
        }
    }
    n
}

/// `s` repeated `n` times.
pub open spec fn repeated(s: Seq<char>, n: nat) -> Seq<char>
    decreases n,
{
    if n == 0 {
        Seq::empty()
    } else {
        repeated(s, (n - 1) as nat) + s
    }
}

/// The number of occurrences of `c` in `s` from position `i` on.
pub open spec fn count_from(s: Seq<char>, c: char, i: nat) -> nat
    decreases s.len() - i,
{
    if i >= s.len() {
        0
    } else {
        (if s[i as int] == c {
            1nat
        } else {
            0nat
        }) + count_from(s, c, i + 1)
    }
}

/// The number of occurrences of `c` in `s`.
pub open spec fn char_count(s: Seq<char>, c: char) -> nat {
    count_from(s, c, 0)
}

/// Counting in the second part of a concatenation.
proof fn lemma_count_from_shift(a: Seq<char>, b: Seq<char>, c: char, j: nat)
    requires
        j <= b.len(),
    ensures
        count_from(a + b, c, a.len() + j) == count_from(b, c, j),
    decreases b.len() - j,
{
    if j < b.len() {
        lemma_count_from_shift(a, b, c, j + 1);
        assert((a + b)[(a.len() + j) as int] == b[j as int]);
    }
}

/// Counting over a concatenation from position `i` of the first part.
proof fn lemma_count_from_concat(a: Seq<char>, b: Seq<char>, c: char, i: nat)
    requires
        i <= a.len(),
    ensures
        count_from(a + b, c, i) == count_from(a, c, i) + char_count(b, c),
    decreases a.len() - i,
{
    if i < a.len() {
        lemma_count_from_concat(a, b, c, i + 1);
        assert((a + b)[i as int] == a[i as int]);
    } else {
        lemma_count_from_shift(a, b, c, 0);
    }
}

/// Occurrences of a character add up over a concatenation.
pub proof fn lemma_char_count_concat(a: Seq<char>, b: Seq<char>, c: char)
    ensures
        char_count(a + b, c) == char_count(a, c) + char_count(b, c),
{
    lemma_count_from_concat(a, b, c, 0);
}

/// The occurrences of `c` in the pieces, added up.
pub open spec fn char_count_sum(parts: Seq<Seq<char>>, c: char) -> nat
    decreases parts.len(),
{
    if parts.len() == 0 {
        0
    } else {
        char_count_sum(parts.drop_last(), c) + char_count(parts.last(), c)
    }
}

/// A join holds the occurrences of its pieces, when the separator holds none.
pub proof fn lemma_char_count_join(parts: Seq<Seq<char>>, sep: Seq<char>, c: char)
    requires
        char_count(sep, c) == 0,
    ensures
        char_count(join(parts, sep), c) == char_count_sum(parts, c),
    decreases parts.len(),
{
    if parts.len() == 1 {
        assert(parts.drop_last().len() == 0);
        assert(char_count_sum(parts.drop_last(), c) == 0);
        assert(parts.last() == parts[0]);
    } else if parts.len() > 1 {
        lemma_char_count_join(parts.drop_last(), sep, c);
        lemma_char_count_concat(join(parts.drop_last(), sep), sep, c);
        lemma_char_count_concat(join(parts.drop_last(), sep) + sep, parts.last(), c);
    }
}

// ─── UTF-8 lengths ──────────────────────────────────────────────────────

/// The number of bytes of the UTF-8 encoding of `c` (`char::len_utf8`).
pub open spec fn utf8_width(c: char) -> nat {
    vstd::utf8::encode_scalar(c as u32).len()
}

/// The number of bytes of the UTF-8 encoding of a text (`str::len`).
pub open spec fn utf8_len(s: Seq<char>) -> nat
    decreases s.len(),
{
    if s.len() == 0 {
        0
    } else {
        utf8_width(s[0]) + utf8_len(s.drop_first())
    }
}

/// The UTF-8 length of a text is the length of its encoding.
pub proof fn lemma_utf8_len_encode(s: Seq<char>)
    ensures
        vstd::utf8::encode_utf8(s).len() == utf8_len(s),
    decreases s.len(),
{
    if s.len() > 0 {
        lemma_utf8_len_encode(s.drop_first());
    }
}

/// UTF-8 lengths add up over a concatenation.
pub proof fn lemma_utf8_len_concat(a: Seq<char>, b: Seq<char>)
    ensures
        utf8_len(a + b) == utf8_len(a) + utf8_len(b),
    decreases a.len(),
{
    if a.len() > 0 {
        lemma_utf8_len_concat(a.drop_first(), b);
        assert((a + b).drop_first() =~= a.drop_first() + b);
        assert((a + b)[0] == a[0]);
    } else {
        assert(a + b =~= b);
    }
}

/// The UTF-8 length of a prefix grows by the width of the next character.
pub proof fn lemma_utf8_len_take(s: Seq<char>, i: int)
    requires
        0 <= i < s.len(),
    ensures
        utf8_len(s.take(i + 1)) == utf8_len(s.take(i)) + utf8_width(s[i]),
{
    lemma_utf8_len_concat(s.take(i), seq![s[i]]);
    assert(s.take(i + 1) =~= s.take(i) + seq![s[i]]);
    assert(seq![s[i]].drop_first() =~= Seq::<char>::empty());
    assert(utf8_len(Seq::<char>::empty()) == 0);
    assert(utf8_len(seq![s[i]]) == utf8_width(s[i]));
}

/// The number of UTF-8 bytes of `c`.
pub fn char_width(c: char) -> (n: usize)
    ensures
        n == utf8_width(c),
{
    let v = c as u32;
    assert(!(0xD800 <= v <= 0xDFFF) && v <= 0x10FFFF);
    if v <= 0x7F {
        assert(vstd::utf8::has_width_1_encoding(v));
        1
    } else if v <= 0x7FF {
        assert(vstd::utf8::has_width_2_encoding(v));
        2
    } else if v <= 0xFFFF {
        assert(vstd::utf8::has_width_3_encoding(v));
        3
    } else {
        assert(vstd::utf8::has_width_4_encoding(v));
        4
    }
}

/// Whether the characters are those of the string slice.
pub fn same_chars_str(a: &Vec<char>, s: &str) -> (r: bool)
    ensures
        r == (a@ == s@),
{
    let b = chars_of(s);
    if a.len() != b.len() {
        return false;
    }
    let r = matches_at(a, &b, 0);
    assert(a@.subrange(0, b@.len() as int) == a@);
    r
}

} // verus!
