//! Text extraction: the plain text of a PDF cut into pages.
use vstd::prelude::*;
use crate::pdf::{ExtractedPage, ExtractionSource};
use crate::text::{chars_of, join, lines, lines_of, string_of, sub_chars, trim, trim_chars, views};

verus! {

/// Extracts the content of PDF files.
pub struct PdfExtractor;

/// The form feed that `pdftotext` puts between pages.
pub open spec fn form_feed() -> char {
    '\x0C'
}

/// The state of a left-to-right scan that splits at each `sep`: the
/// finished pieces and the current one.
pub open spec fn split_state(s: Seq<char>, sep: char) -> (Seq<Seq<char>>, Seq<char>)
    decreases s.len(),
{
    if s.len() == 0 {
        (Seq::empty(), Seq::empty())
    } else {
        let (done, cur) = split_state(s.drop_last(), sep);
        if s.last() == sep {
            (done.push(cur), Seq::empty())
        } else {
            (done, cur.push(s.last()))
        }
    }
}

/// `str::split(sep)`: the pieces between the separators, one more than
/// there are separators.
pub open spec fn split_at_char(s: Seq<char>, sep: char) -> Seq<Seq<char>> {
    let (done, cur) = split_state(s, sep);
    done.push(cur)
}

/// Consecutive pieces of `n` characters, the last one shorter
/// (`slice::chunks(n)`).
pub open spec fn chunks_of(s: Seq<char>, n: nat) -> Seq<Seq<char>>
    decreases s.len(),
{
    if s.len() == 0 || n == 0 {
        Seq::empty()
    } else if s.len() <= n {
        seq![s]
    } else {
        seq![s.take(n as int)] + chunks_of(s.skip(n as int), n)
    }
}

/// The pages of an extracted text: the pieces between form feeds if there
/// is one; else the whole text when it is shorter than 500 characters;
/// else pieces of 3000 characters.
pub open spec fn raw_pages(text: Seq<char>) -> Seq<Seq<char>> {
    if text.contains(form_feed()) {
        split_at_char(text, form_feed())
    } else if text.len() < 500 {
        seq![text]
    } else {
        chunks_of(text, 3000)
    }
}

/// The mathematical value of an extracted page.
pub struct ExtractedPageView {
    pub page_number: nat,
    pub text: Seq<char>,
    pub source: ExtractionSource,
}

impl View for ExtractedPage {
    type V = ExtractedPageView;

    open spec fn view(&self) -> ExtractedPageView {
        ExtractedPageView { page_number: self.page_number as nat, text: self.text@, source: self.source }
    }
}

/// The views of a sequence of pages.
pub open spec fn page_views(ps: Seq<ExtractedPage>) -> Seq<ExtractedPageView> {
    ps.map_values(|p: ExtractedPage| p@)
}

/// The pages of a text, numbered from 1, all of native text.
pub open spec fn pages_of(text: Seq<char>) -> Seq<ExtractedPageView> {
    Seq::new(
        raw_pages(text).len(),
        |i: int|
            ExtractedPageView {
                page_number: (i + 1) as nat,
                text: raw_pages(text)[i],
                source: ExtractionSource::NativeText,
            },
    )
}

/// The pieces concatenated.
pub open spec fn concat(parts: Seq<Seq<char>>) -> Seq<char>
    decreases parts.len(),
{
    if parts.len() == 0 {
        Seq::empty()
    } else {
        concat(parts.drop_last()) + parts.last()
    }
}

/// Whether some line of the text holds more than white space.
pub open spec fn readable(text: Seq<char>) -> bool {
    exists|i: int| 0 <= i < lines(text).len() && trim(#[trigger] lines(text)[i]).len() > 0
}

/// Splits the characters at each `sep`.
fn split_chars(v: &Vec<char>, sep: char) -> (r: Vec<Vec<char>>)
    ensures
        views(r@) == split_at_char(v@, sep),
{
    let mut done: Vec<Vec<char>> = Vec::new();
    let mut cur: Vec<char> = Vec::new();
    let mut i: usize = 0;
    while i < v.len()
        invariant
            i <= v.len(),
            (views(done@), cur@) == split_state(v@.take(i as int), sep),
        decreases v.len() - i,
    {
        let c = v[i];
        proof {
            assert(v@.take(i + 1).drop_last() == v@.take(i as int));
            assert(v@.take(i + 1).last() == c);
        }
        if c == sep {
            let finished = cur;
            let ghost d0 = done@;
            done.push(finished);
            cur = Vec::new();
            proof {
                assert(views(done@) =~= views(d0).push(finished@));
            }
        } else {
            cur.push(c);
        }
        i += 1;
    }
    assert(v@.take(v.len() as int) == v@);
    let ghost d = done@;
    done.push(cur);
    assert(views(done@) =~= views(d).push(views(done@).last()));
    done
}

/// Cuts the characters into pieces of `n`.
fn chunk_chars(v: &Vec<char>, n: usize) -> (r: Vec<Vec<char>>)
    requires
        n > 0,
    ensures
        views(r@) == chunks_of(v@, n as nat),
{
    let mut out: Vec<Vec<char>> = Vec::new();
    let mut i: usize = 0;
    assert(v@.skip(0) =~= v@);
    while i < v.len()
        invariant
            i <= v.len(),
            n > 0,
            views(out@) + chunks_of(v@.skip(i as int), n as nat) == chunks_of(v@, n as nat),
        decreases v.len() - i,
    {
        let end = if v.len() - i <= n {
            v.len()
        } else {
            i + n
        };
        let piece = sub_chars(v, i, end);
        let ghost o = out@;
        out.push(piece);
        proof {
            let rest = v@.skip(i as int);
            if rest.len() <= n {
                assert(piece@ =~= rest);
                assert(v@.skip(end as int).len() == 0);
                assert(chunks_of(v@.skip(end as int), n as nat) =~= Seq::<Seq<char>>::empty());
            } else {
                assert(piece@ =~= rest.take(n as int));
                assert(rest.skip(n as int) =~= v@.skip(end as int));
            }
            assert(views(out@) =~= views(o).push(piece@));
            assert(views(out@) + chunks_of(v@.skip(end as int), n as nat) =~= views(o) + chunks_of(
                rest,
                n as nat,
            ));
        }
        i = end;
    }
    assert(chunks_of(v@.skip(i as int), n as nat) =~= Seq::<Seq<char>>::empty());
    assert(views(out@) =~= views(out@) + Seq::<Seq<char>>::empty());
    out
}

/// Whether `c` occurs in `v`.
fn has_char(v: &Vec<char>, c: char) -> (b: bool)
    ensures
        b == v@.contains(c),
{
    let mut i: usize = 0;
    while i < v.len()
        invariant
            i <= v.len(),
            forall|k: int| 0 <= k < i ==> v@[k] != c,
        decreases v.len() - i,
    {
        if v[i] == c {
            assert(v@[i as int] == c);
            return true;
        }
        i += 1;
    }
    false
}

impl PdfExtractor {
    /// Cuts extracted text into pages: at form feeds, or (when the text has
    /// none) into pieces of 3000 characters; a text under 500 characters
    /// stays one page. Pages are numbered from 1.
    pub fn split_into_pages(full_text: &str) -> (pages: Vec<ExtractedPage>)
        ensures
            page_views(pages@) == pages_of(full_text@),
    {
        let v = chars_of(full_text);
        let raw = if has_char(&v, '\x0C') {
            split_chars(&v, '\x0C')
        } else if v.len() < 500 {
            let mut one: Vec<Vec<char>> = Vec::new();
            one.push(v);
            assert(views(one@) =~= seq![full_text@]);
            one
        } else {
            chunk_chars(&v, 3000)
        };
        let mut pages: Vec<ExtractedPage> = Vec::new();
        let mut i: usize = 0;
        while i < raw.len()
            invariant
                i <= raw.len(),
                views(raw@) == raw_pages(full_text@),
                page_views(pages@) == pages_of(full_text@).take(i as int),
            decreases raw.len() - i,
        {
            let text = string_of(&raw[i]);
            assert(text@ == views(raw@)[i as int]);
            let ghost p0 = pages@;
            pages.push(ExtractedPage { page_number: i + 1, text, source: ExtractionSource::NativeText });
            assert(page_views(pages@) =~= page_views(p0).push(pages@[i as int]@));
            assert(pages_of(full_text@).take(i + 1) =~= pages_of(full_text@).take(i as int).push(
                pages_of(full_text@)[i as int],
            ));
            assert(page_views(pages@) =~= pages_of(full_text@).take(i + 1));
            i += 1;
        }
        assert(pages_of(full_text@).take(raw.len() as int) =~= pages_of(full_text@));
        pages
    }

    /// Whether some line of the text holds more than white space (the test
    /// that `pdftotext`'s output must pass).
    pub fn has_readable_text(text: &str) -> (b: bool)
        ensures
            b == readable(text@),
    {
        let v = chars_of(text);
        let ls = lines_of(&v);
        let mut i: usize = 0;
        while i < ls.len()
            invariant
                i <= ls.len(),
                views(ls@) == lines(text@),
                forall|k: int| 0 <= k < i ==> trim(#[trigger] lines(text@)[k]).len() == 0,
            decreases ls.len() - i,
        {
            let t = trim_chars(&ls[i]);
            assert(lines(text@)[i as int] == ls@[i as int]@);
            if t.len() > 0 {
                return true;
            }
            i += 1;
        }
        false
    }
}

/// The state of a split, read back: the finished pieces joined by the
/// separator, then the separator and the current piece.
proof fn lemma_split_state_join(s: Seq<char>, sep: char)
    ensures
        ({
            let (done, cur) = split_state(s, sep);
            if done.len() == 0 {
                cur == s
            } else {
                join(done, seq![sep]) + seq![sep] + cur == s
            }
        }),
    decreases s.len(),
{
    if s.len() > 0 {
        lemma_split_state_join(s.drop_last(), sep);
        let (d0, c0) = split_state(s.drop_last(), sep);
        if s.last() == sep {
            if d0.len() == 0 {
                assert(join(d0.push(c0), seq![sep]) == c0);
                assert(s =~= c0 + seq![sep]);
                assert(join(d0.push(c0), seq![sep]) + seq![sep] + Seq::<char>::empty() =~= s);
            } else {
                assert(d0.push(c0).drop_last() == d0);
                assert(join(d0.push(c0), seq![sep]) == join(d0, seq![sep]) + seq![sep] + c0);
                assert(s =~= s.drop_last() + seq![sep]);
                assert(join(d0.push(c0), seq![sep]) + seq![sep] + Seq::<char>::empty() =~= s);
            }
        } else {
            assert(s =~= s.drop_last().push(s.last()));
            if d0.len() == 0 {
                assert(c0.push(s.last()) =~= s);
            } else {
                assert(join(d0, seq![sep]) + seq![sep] + c0.push(s.last()) =~= s);
            }
        }
    }
}

/// Splitting at a separator loses nothing: the pieces joined by the
/// separator give the text back.
pub proof fn lemma_split_rejoins(s: Seq<char>, sep: char)
    ensures
        join(split_at_char(s, sep), seq![sep]) == s,
{
    lemma_split_state_join(s, sep);
    let (done, cur) = split_state(s, sep);
    if done.len() == 0 {
        assert(done.push(cur).len() == 1);
    } else {
        assert(done.push(cur).drop_last() == done);
    }
}

/// Cutting into pieces loses nothing: the pieces concatenated give the
/// text back.
pub proof fn lemma_chunks_concat(s: Seq<char>, n: nat)
    requires
        n > 0,
    ensures
        concat(chunks_of(s, n)) == s,
    decreases s.len(),
{
    if s.len() == 0 {
    } else if s.len() <= n {
        lemma_concat_one(s);
    } else {
        lemma_chunks_concat(s.skip(n as int), n);
        lemma_concat_prepend(s.take(n as int), chunks_of(s.skip(n as int), n));
        assert(s.take(n as int) + s.skip(n as int) =~= s);
    }
}

/// One piece concatenated is that piece.
proof fn lemma_concat_one(a: Seq<char>)
    ensures
        concat(seq![a]) == a,
{
    assert(seq![a].drop_last() =~= Seq::<Seq<char>>::empty());
    assert(concat(Seq::<Seq<char>>::empty()) == Seq::<char>::empty());
    assert(concat(seq![a]) =~= Seq::<char>::empty() + a);
}

/// Concatenation of a piece in front.
proof fn lemma_concat_prepend(a: Seq<char>, parts: Seq<Seq<char>>)
    ensures
        concat(seq![a] + parts) == a + concat(parts),
    decreases parts.len(),
{
    if parts.len() == 0 {
        assert(seq![a] + parts =~= seq![a]);
        lemma_concat_one(a);
        assert(a + concat(parts) =~= a);
    } else {
        lemma_concat_prepend(a, parts.drop_last());
        assert((seq![a] + parts).drop_last() =~= seq![a] + parts.drop_last());
        assert((seq![a] + parts).last() == parts.last());
        assert(a + concat(parts.drop_last()) + parts.last() =~= a + (concat(parts.drop_last())
            + parts.last()));
    }
}

/// No text is lost in pages: with form feeds the pages joined by form
/// feeds give the text back, and without them the pages concatenated do.
/// Pages are numbered 1, 2, … in order.
pub proof fn lemma_pages_keep_text(text: Seq<char>)
    ensures
        text.contains(form_feed()) ==> join(raw_pages(text), seq![form_feed()]) == text,
        !text.contains(form_feed()) ==> concat(raw_pages(text)) == text,
        forall|i: int| 0 <= i < pages_of(text).len() ==> #[trigger] pages_of(text)[i].page_number == i + 1,
{
    if text.contains(form_feed()) {
        lemma_split_rejoins(text, form_feed());
    } else if text.len() < 500 {
        lemma_concat_one(text);
    } else {
        lemma_chunks_concat(text, 3000);
    }
}

} // verus!
