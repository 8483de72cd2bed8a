//! Chapter reconstruction from the visual layout of a PDF (`pdftohtml -xml`
//! output): lines are classified by font size and position, then folded into
//! chapters with titles, numbers and paragraph-joined bodies.
//!
//! Geometry (positions, widths, heights) is measured in floating point by the
//! caller; this module receives what those measurements decide, as booleans
//! and integers, and does the rest.
use vstd::prelude::*;
use crate::text::{
    chars_of, contains, contains_chars, copy_chars, ends_with, extend_chars, extend_str, has_prefix,
    has_suffix, is_whitespace, is_ws, join, join_chars, lemma_trim_idempotent, lemma_trim_start_skip, lines,
    lines_of,
    matches_at, occurs_at, starts_with, string_of, string_views, sub_chars, trim, trim_chars, trim_start,
    views,
};
use crate::unicode::{
    alphabetic, ascii_digit, is_alphabetic, is_ascii_digit, is_lowercase, is_uppercase, lowercase,
    uppercase,
};
use crate::patterns::{capture, captured, is_match, matched};
use crate::pdf::{Chapter, ChapterView, chapter_views};

verus! {

/// The role of a line on the page.
#[derive(Debug, Clone, Copy, PartialEq, Eq, Structural)]
pub enum LineKind {
    ChapterHeading,
    SceneBreak,
    DropCap,
    Running,
    Body,
}

/// A logical line of a page.
#[derive(Debug, Clone)]
pub struct LayoutLine {
    /// The text of the line (elements joined left to right, trimmed).
    pub text: String,
    /// The dominant font size of the line.
    pub font_size: u32,
    /// The line ends in sentence punctuation.
    pub ends_sentence: bool,
    pub kind: LineKind,
    /// The vertical gap to the most recent body line above it on the same
    /// page is small enough for a paragraph to go on (false when there is none).
    pub near_previous_body: bool,
    /// The line fills enough of the text width for a paragraph to go on.
    pub fills_width: bool,
}

/// The mathematical value of a line.
pub struct LineView {
    pub text: Seq<char>,
    pub font_size: u32,
    pub ends_sentence: bool,
    pub kind: LineKind,
    pub near_previous_body: bool,
    pub fills_width: bool,
}

impl View for LayoutLine {
    type V = LineView;

    open spec fn view(&self) -> LineView {
        LineView {
            text: self.text@,
            font_size: self.font_size,
            ends_sentence: self.ends_sentence,
            kind: self.kind,
            near_previous_body: self.near_previous_body,
            fills_width: self.fills_width,
        }
    }
}

/// A page: its number and its lines from top to bottom.
#[derive(Debug, Clone)]
pub struct LayoutPage {
    pub number: u32,
    pub lines: Vec<LayoutLine>,
}

/// The views of the lines of a page.
pub open spec fn line_views(lines: Seq<LayoutLine>) -> Seq<LineView> {
    lines.map_values(|l: LayoutLine| l@)
}

/// The views of the lines of each page.
pub open spec fn page_views(pages: Seq<LayoutPage>) -> Seq<Seq<LineView>> {
    pages.map_values(|p: LayoutPage| line_views(p.lines@))
}

// ─── Paragraph joining ───────────────────────────────────────────────────

/// `body` is a lone capital letter (a drop cap) and `text` goes on with a
/// lowercase letter.
pub open spec fn drop_cap_remainder(body: Seq<char>, text: Seq<char>) -> bool {
    body.len() == 1 && uppercase(body[0]) && text.len() > 0 && lowercase(text[0])
}

/// Whether `body` is a lone drop cap that `text` continues.
pub fn is_drop_cap_remainder(body: &Vec<char>, text: &Vec<char>) -> (b: bool)
    ensures
        b == drop_cap_remainder(body@, text@),
{
    if body.len() != 1 {
        return false;
    }
    if !is_uppercase(body[0]) {
        return false;
    }
    text.len() > 0 && is_lowercase(text[0])
}

/// `text` appended to the paragraph `body`: a word hyphenated at the line
/// end is rejoined, a drop cap is glued to its word, otherwise one space.
pub open spec fn join_paragraph(body: Seq<char>, text: Seq<char>) -> Seq<char> {
    if body.len() > 0 && body.last() == '-' && !ends_with(body, "—"@) && !ends_with(body, "–"@)
        && text.len() > 0 && lowercase(text[0]) {
        body.drop_last() + text
    } else if drop_cap_remainder(body, text) {
        body + text
    } else {
        body.push(' ') + text
    }
}

/// Appends a line to the paragraph in progress.
pub fn join_to_paragraph(body: &mut Vec<char>, text: &Vec<char>)
    ensures
        final(body)@ == join_paragraph(old(body)@, text@),
{
    let hyphen = body.len() > 0 && body[body.len() - 1] == '-' && !has_suffix(body, "—")
        && !has_suffix(body, "–") && text.len() > 0 && is_lowercase(text[0]);
    if hyphen {
        body.pop();
        extend_chars(body, text);
    } else if is_drop_cap_remainder(body, text) {
        extend_chars(body, text);
    } else {
        body.push(' ');
        extend_chars(body, text);
    }
}

/// `chapters` with one more chapter, its body trimmed, unless both the
/// trimmed body and the title are empty.
pub open spec fn with_chapter(
    chapters: Seq<ChapterView>,
    number: Option<u32>,
    title: Seq<char>,
    body: Seq<char>,
) -> Seq<ChapterView> {
    if trim(body).len() == 0 && title.len() == 0 {
        chapters
    } else {
        chapters.push(ChapterView { number, title, body: trim(body) })
    }
}

/// Appends a chapter, its body trimmed; nothing when it would be empty.
pub fn push_chapter(chapters: &mut Vec<Chapter>, number: Option<u32>, title: Vec<char>, body: Vec<char>)
    ensures
        chapter_views(final(chapters)@) == with_chapter(chapter_views(old(chapters)@), number, title@, body@),
{
    let b = trim_chars(&body);
    if b.len() == 0 && title.len() == 0 {
        return;
    }
    let ghost before = chapters@;
    let c = Chapter { number, title: string_of(&title), body: string_of(&b) };
    chapters.push(c);
    assert(chapter_views(chapters@) =~= chapter_views(before).push(c@));
}

// ─── Chapter numbers ─────────────────────────────────────────────────────

/// The value of a string of ASCII digits.
pub open spec fn digits_value(s: Seq<char>) -> int
    decreases s.len(),
{
    if s.len() == 0 {
        0
    } else {
        digits_value(s.drop_last()) * 10 + (s.last() as int - '0' as int)
    }
}

/// The digits part of an unsigned number: without a leading `'+'` when
/// something follows it.
pub open spec fn unsigned_digits(s: Seq<char>) -> Seq<char> {
    if s.len() > 1 && s[0] == '+' {
        s.drop_first()
    } else {
        s
    }
}

/// Every character is an ASCII digit.
pub open spec fn all_ascii_digits(d: Seq<char>) -> bool {
    forall|i: int| 0 <= i < d.len() ==> ascii_digit(#[trigger] d[i])
}

/// `u32::from_str`: an optional `'+'`, then one or more ASCII digits whose
/// value fits in `u32`.
pub open spec fn parse_u32(s: Seq<char>) -> Option<u32> {
    let d = unsigned_digits(s);
    if d.len() > 0 && all_ascii_digits(d) && digits_value(d) <= u32::MAX {
        Some(digits_value(d) as u32)
    } else {
        None
    }
}

proof fn lemma_digits_value_nonneg(s: Seq<char>)
    requires
        forall|i: int| 0 <= i < s.len() ==> ascii_digit(#[trigger] s[i]),
    ensures
        digits_value(s) >= 0,
    decreases s.len(),
{
    if s.len() > 0 {
        lemma_digits_value_nonneg(s.drop_last());
    }
}

/// Parses a `u32` as `str::parse::<u32>` does.
pub fn parse_u32_chars(s: &Vec<char>) -> (r: Option<u32>)
    ensures
        r == parse_u32(s@),
{
    let start: usize = if s.len() > 1 && s[0] == '+' {
        1
    } else {
        0
    };
    let ghost d = unsigned_digits(s@);
    assert(d == s@.subrange(start as int, s.len() as int));
    if start >= s.len() {
        assert(d.len() == 0);
        return None;
    }
    let mut i = start;
    let mut acc: u64 = 0;
    let big: u64 = 0x1_0000_0000;
    while i < s.len()
        invariant
            start <= i <= s.len(),
            d == s@.subrange(start as int, s.len() as int),
            d == unsigned_digits(s@),
            forall|k: int| start <= k < i ==> ascii_digit(#[trigger] s@[k]),
            acc == (if digits_value(s@.subrange(start as int, i as int)) < big {
                digits_value(s@.subrange(start as int, i as int))
            } else {
                big as int
            }),
            big == 0x1_0000_0000,
        decreases s.len() - i,
    {
        let c = s[i];
        if !is_ascii_digit(c) {
            assert(d[i - start] == c);
            assert(!ascii_digit(d[i - start]));
            return None;
        }
        let ghost pre = s@.subrange(start as int, i as int);
        let ghost nxt = s@.subrange(start as int, i + 1);
        assert(nxt.drop_last() == pre);
        assert(nxt.last() == c);
        proof {
            assert forall|k: int| 0 <= k < pre.len() implies ascii_digit(#[trigger] pre[k]) by {
                assert(pre[k] == s@[start + k]);
            }
            lemma_digits_value_nonneg(pre);
        }
        let dv = (c as u64) - ('0' as u64);
        if acc >= big {
            acc = big;
        } else {
            let v = acc * 10 + dv;
            acc = if v >= big {
                big
            } else {
                v
            };
        }
        i += 1;
    }
    assert(s@.subrange(start as int, s.len() as int) == d);
    if acc >= big {
        None
    } else {
        Some(acc as u32)
    }
}

/// The first run of digits of the text (pattern `(\d+)`), read as a `u32`.
pub open spec fn number_in(text: Seq<char>) -> Option<u32> {
    match captured("(\\d+)"@, text, 1) {
        Some(g) => parse_u32(g),
        None => None,
    }
}

/// The chapter number that a heading names, if any.
pub fn extract_number(text: &str) -> (r: Option<u32>)
    ensures
        r == number_in(text@),
{
    match capture("(\\d+)", text, 1) {
        Some(g) => {
            let gv = chars_of(g.as_str());
            parse_u32_chars(&gv)
        },
        None => None,
    }
}

// ─── Paragraph continuation across pages ─────────────────────────────────

/// The last body line of the page fills the width and does not end a
/// sentence: its paragraph goes on on the next page.
pub open spec fn last_body_continues(lines: Seq<LineView>) -> bool
    decreases lines.len(),
{
    if lines.len() == 0 {
        false
    } else if lines.last().kind == LineKind::Body {
        lines.last().fills_width && !lines.last().ends_sentence
    } else {
        last_body_continues(lines.drop_last())
    }
}

/// Whether the paragraph at the end of the page goes on on the next page.
pub fn page_last_body_continues(lines: &Vec<LayoutLine>) -> (b: bool)
    ensures
        b == last_body_continues(line_views(lines@)),
{
    let mut i = lines.len();
    assert(line_views(lines@).take(i as int) == line_views(lines@));
    while i > 0
        invariant
            i <= lines.len(),
            last_body_continues(line_views(lines@)) == last_body_continues(
                line_views(lines@).take(i as int),
            ),
        decreases i,
    {
        let ghost t = line_views(lines@).take(i as int);
        assert(t.last() == lines@[i - 1]@);
        assert(t.drop_last() == line_views(lines@).take(i - 1));
        if lines[i - 1].kind == LineKind::Body {
            return lines[i - 1].fills_width && !lines[i - 1].ends_sentence;
        }
        i -= 1;
    }
    assert(line_views(lines@).take(0).len() == 0);
    false
}


// ─── Reconstruction ──────────────────────────────────────────────────────

/// The state of the chapter reconstruction between two lines.
#[verifier::ext_equal]
pub struct ScanState {
    /// Chapters finished so far.
    pub chapters: Seq<ChapterView>,
    /// Title of the chapter in progress (heading lines joined by `'\n'`).
    pub title: Seq<char>,
    /// Number of the chapter in progress.
    pub number: Option<u32>,
    /// Body of the chapter in progress.
    pub body: Seq<char>,
    /// Drop caps seen so far: the automatic chapter numbers.
    pub drop_caps: nat,
    /// The previous page ended in the middle of a paragraph.
    pub prev_continues: bool,
    /// A body line above on this page can carry its paragraph on.
    pub has_prev_top: bool,
    /// No body line yet since the page or the chapter began.
    pub first_body: bool,
}

/// The state before the first page.
pub open spec fn initial_scan() -> ScanState {
    ScanState {
        chapters: Seq::empty(),
        title: Seq::empty(),
        number: None,
        body: Seq::empty(),
        drop_caps: 0,
        prev_continues: false,
        has_prev_top: false,
        first_body: true,
    }
}

/// The body of a chapter after one more body line.
pub open spec fn next_body(s: ScanState, l: LineView) -> Seq<char> {
    let t = trim(l.text);
    let continuation = drop_cap_remainder(s.body, t) || (s.first_body && s.prev_continues) || (
    s.has_prev_top && l.near_previous_body);
    if s.body.len() == 0 {
        t
    } else if continuation {
        join_paragraph(s.body, t)
    } else {
        s.body + "\n\n"@ + t
    }
}

/// The effect of one line on the reconstruction.
///  - running headers and footers are skipped;
///  - a drop cap closes the chapter in progress and opens an untitled one,
///    numbered by the count of drop caps, whose body begins with the letter;
///  - a heading right after a heading, with no body between, extends the
///    title; otherwise it closes the chapter in progress and opens a new one,
///    numbered by the first number in the heading;
///  - a scene break adds a `* * *` separator to a non-empty body;
///  - a body line goes on the current paragraph or opens a new one.
pub open spec fn step_line(s: ScanState, l: LineView) -> ScanState {
    match l.kind {
        LineKind::Running => s,
        LineKind::DropCap => ScanState {
            chapters: with_chapter(s.chapters, s.number, s.title, s.body),
            title: Seq::empty(),
            number: Some((s.drop_caps + 1) as u32),
            body: trim(l.text),
            drop_caps: s.drop_caps + 1,
            prev_continues: false,
            has_prev_top: false,
            first_body: false,
        },
        LineKind::ChapterHeading => if s.title.len() > 0 && trim(s.body).len() == 0 {
            ScanState {
                title: s.title.push('\n') + trim(l.text),
                number: if s.number is None {
                    number_in(trim(l.text))
                } else {
                    s.number
                },
                ..s
            }
        } else {
            ScanState {
                chapters: with_chapter(s.chapters, s.number, s.title, s.body),
                title: trim(l.text),
                number: number_in(trim(l.text)),
                body: Seq::empty(),
                prev_continues: false,
                has_prev_top: false,
                first_body: true,
                ..s
            }
        },
        LineKind::SceneBreak => ScanState {
            body: if s.body.len() > 0 {
                s.body + "\n\n* * *\n\n"@
            } else {
                s.body
            },
            has_prev_top: false,
            prev_continues: false,
            ..s
        },
        LineKind::Body => ScanState { body: next_body(s, l), has_prev_top: true, first_body: false, ..s },
    }
}

/// The lines of a page applied in order.
pub open spec fn run_lines(s: ScanState, ls: Seq<LineView>) -> ScanState
    decreases ls.len(),
{
    if ls.len() == 0 {
        s
    } else {
        step_line(run_lines(s, ls.drop_last()), ls.last())
    }
}

/// A page: its lines, then the paragraph state carried to the next page.
pub open spec fn run_page(s: ScanState, ls: Seq<LineView>) -> ScanState {
    let after = run_lines(ScanState { first_body: true, ..s }, ls);
    ScanState { prev_continues: last_body_continues(ls), has_prev_top: false, ..after }
}

/// The pages applied in order.
pub open spec fn run_pages(s: ScanState, ps: Seq<Seq<LineView>>) -> ScanState
    decreases ps.len(),
{
    if ps.len() == 0 {
        s
    } else {
        run_page(run_pages(s, ps.drop_last()), ps.last())
    }
}

/// The chapters of a document: all pages, then the last chapter closed.
pub open spec fn reconstructed(ps: Seq<Seq<LineView>>) -> Seq<ChapterView> {
    let s = run_pages(initial_scan(), ps);
    with_chapter(s.chapters, s.number, s.title, s.body)
}

/// Number of drop-cap lines.
pub open spec fn drop_caps_in(ls: Seq<LineView>) -> nat
    decreases ls.len(),
{
    if ls.len() == 0 {
        0
    } else {
        drop_caps_in(ls.drop_last()) + (if ls.last().kind == LineKind::DropCap {
            1nat
        } else {
            0nat
        })
    }
}

/// Number of drop-cap lines over all pages.
pub open spec fn drop_caps_in_pages(ps: Seq<Seq<LineView>>) -> nat
    decreases ps.len(),
{
    if ps.len() == 0 {
        0
    } else {
        drop_caps_in_pages(ps.drop_last()) + drop_caps_in(ps.last())
    }
}

proof fn lemma_run_lines_drop_caps(s: ScanState, ls: Seq<LineView>)
    ensures
        run_lines(s, ls).drop_caps == s.drop_caps + drop_caps_in(ls),
    decreases ls.len(),
{
    if ls.len() > 0 {
        lemma_run_lines_drop_caps(s, ls.drop_last());
    }
}

proof fn lemma_run_pages_drop_caps(s: ScanState, ps: Seq<Seq<LineView>>)
    ensures
        run_pages(s, ps).drop_caps == s.drop_caps + drop_caps_in_pages(ps),
    decreases ps.len(),
{
    if ps.len() > 0 {
        let s0 = run_pages(s, ps.drop_last());
        lemma_run_pages_drop_caps(s, ps.drop_last());
        lemma_run_lines_drop_caps(ScanState { first_body: true, ..s0 }, ps.last());
    }
}

proof fn lemma_drop_caps_prefix(ls: Seq<LineView>, i: int)
    requires
        0 <= i <= ls.len(),
    ensures
        drop_caps_in(ls.take(i)) <= drop_caps_in(ls),
    decreases ls.len() - i,
{
    if i < ls.len() {
        lemma_drop_caps_prefix(ls, i + 1);
        assert(ls.take(i + 1).drop_last() == ls.take(i));
    } else {
        assert(ls.take(i) == ls);
    }
}

proof fn lemma_drop_caps_pages_prefix(ps: Seq<Seq<LineView>>, i: int)
    requires
        0 <= i <= ps.len(),
    ensures
        drop_caps_in_pages(ps.take(i)) <= drop_caps_in_pages(ps),
    decreases ps.len() - i,
{
    if i < ps.len() {
        lemma_drop_caps_pages_prefix(ps, i + 1);
        assert(ps.take(i + 1).drop_last() == ps.take(i));
    } else {
        assert(ps.take(i) == ps);
    }
}

/// The working state of the reconstruction.
struct Scan {
    chapters: Vec<Chapter>,
    title: Vec<char>,
    number: Option<u32>,
    body: Vec<char>,
    drop_caps: u32,
    prev_continues: bool,
    has_prev_top: bool,
    first_body: bool,
}

impl View for Scan {
    type V = ScanState;

    closed spec fn view(&self) -> ScanState {
        ScanState {
            chapters: chapter_views(self.chapters@),
            title: self.title@,
            number: self.number,
            body: self.body@,
            drop_caps: self.drop_caps as nat,
            prev_continues: self.prev_continues,
            has_prev_top: self.has_prev_top,
            first_body: self.first_body,
        }
    }
}

/// Applies one line to the working state.
fn scan_line(st: &mut Scan, line: &LayoutLine)
    requires
        line.kind == LineKind::DropCap ==> old(st).drop_caps < u32::MAX,
    ensures
        final(st)@ == step_line(old(st)@, line@),
{
    let ghost s0 = st@;
    match line.kind {
        LineKind::Running => {},
        LineKind::DropCap => {
            let body_trimmed = trim_chars(&st.body);
            if body_trimmed.len() > 0 || st.title.len() > 0 {
                let title = copy_chars(&st.title);
                let body = copy_chars(&st.body);
                push_chapter(&mut st.chapters, st.number, title, body);
            }
            st.body = Vec::new();
            st.drop_caps = st.drop_caps + 1;
            st.number = Some(st.drop_caps);
            st.title = Vec::new();
            let lt = chars_of(line.text.as_str());
            st.body = trim_chars(&lt);
            st.prev_continues = false;
            st.has_prev_top = false;
            st.first_body = false;
        },
        LineKind::ChapterHeading => {
            let lt = chars_of(line.text.as_str());
            let t = trim_chars(&lt);
            let body_trimmed = trim_chars(&st.body);
            if st.title.len() > 0 && body_trimmed.len() == 0 {
                st.title.push('\n');
                extend_chars(&mut st.title, &t);
                if st.number.is_none() {
                    let ts = string_of(&t);
                    st.number = extract_number(ts.as_str());
                }
            } else {
                if body_trimmed.len() > 0 || st.title.len() > 0 {
                    let title = copy_chars(&st.title);
                    let body = copy_chars(&st.body);
                    push_chapter(&mut st.chapters, st.number, title, body);
                }
                let ts = string_of(&t);
                st.number = extract_number(ts.as_str());
                st.title = t;
                st.body = Vec::new();
                st.prev_continues = false;
                st.has_prev_top = false;
                st.first_body = true;
            }
        },
        LineKind::SceneBreak => {
            if st.body.len() > 0 {
                extend_str(&mut st.body, "\n\n* * *\n\n");
            }
            st.has_prev_top = false;
            st.prev_continues = false;
        },
        LineKind::Body => {
            let lt = chars_of(line.text.as_str());
            let t = trim_chars(&lt);
            let is_drop_cap_body = is_drop_cap_remainder(&st.body, &t);
            let continuation = is_drop_cap_body || (st.first_body && st.prev_continues) || (
            st.has_prev_top && line.near_previous_body);
            if st.body.len() == 0 {
                extend_chars(&mut st.body, &t);
            } else if continuation {
                join_to_paragraph(&mut st.body, &t);
            } else {
                extend_str(&mut st.body, "\n\n");
                extend_chars(&mut st.body, &t);
            }
            st.has_prev_top = true;
            st.first_body = false;
        },
    }
    proof {
        assert(st@ =~= step_line(s0, line@));
    }
}

/// Rebuilds the chapters of a document from its classified lines.
///
/// A heading or a drop cap starts a chapter; body lines are joined into
/// paragraphs: a line goes on the current paragraph when it rejoins a
/// drop cap, when it is the first body line of a page whose predecessor
/// ended mid-paragraph, or when it sits close below the previous body line;
/// otherwise a blank line opens a new paragraph. Chapters whose title and
/// trimmed body are both empty are left out.
pub fn reconstruct_chapters(pages: &Vec<LayoutPage>) -> (r: Vec<Chapter>)
    requires
        drop_caps_in_pages(page_views(pages@)) < u32::MAX,
    ensures
        chapter_views(r@) == reconstructed(page_views(pages@)),
{
    let ghost ps = page_views(pages@);
    let mut st = Scan {
        chapters: Vec::new(),
        title: Vec::new(),
        number: None,
        body: Vec::new(),
        drop_caps: 0,
        prev_continues: false,
        has_prev_top: false,
        first_body: true,
    };
    assert(st@ =~= initial_scan());
    let mut p: usize = 0;
    while p < pages.len()
        invariant
            p <= pages.len(),
            ps == page_views(pages@),
            drop_caps_in_pages(ps) < u32::MAX,
            st@ == run_pages(initial_scan(), ps.take(p as int)),
        decreases pages.len() - p,
    {
        let page = &pages[p];
        let ghost ls = ps[p as int];
        assert(ls == line_views(page.lines@));
        let this_page_continues = page_last_body_continues(&page.lines);
        let ghost before = st@;
        st.first_body = true;
        let ghost start = st@;
        assert(start =~= ScanState { first_body: true, ..before });
        proof {
            lemma_run_pages_drop_caps(initial_scan(), ps.take(p as int));
            lemma_drop_caps_pages_prefix(ps, p + 1);
            assert(ps.take(p + 1).drop_last() == ps.take(p as int));
            assert(ps.take(p + 1).last() == ls);
        }
        let mut i: usize = 0;
        while i < page.lines.len()
            invariant
                i <= page.lines.len(),
                ls == line_views(page.lines@),
                st@ == run_lines(start, ls.take(i as int)),
                start.drop_caps + drop_caps_in(ls) < u32::MAX,
            decreases page.lines.len() - i,
        {
            proof {
                assert(ls.take(i + 1).drop_last() == ls.take(i as int));
                assert(ls.take(i + 1).last() == page.lines@[i as int]@);
                lemma_run_lines_drop_caps(start, ls.take(i as int));
                lemma_drop_caps_prefix(ls, i + 1);
                lemma_drop_caps_prefix(ls.take(i + 1), i as int);
                assert(ls.take(i + 1).take(i as int) == ls.take(i as int));
            }
            scan_line(&mut st, &page.lines[i]);
            i += 1;
        }
        assert(ls.take(page.lines.len() as int) == ls);
        st.prev_continues = this_page_continues;
        st.has_prev_top = false;
        proof {
            assert(st@ =~= run_page(before, ls));
        }
        p += 1;
    }
    assert(ps.take(pages.len() as int) == ps);
    let body_trimmed = trim_chars(&st.body);
    let mut chapters = st.chapters;
    if body_trimmed.len() > 0 || st.title.len() > 0 {
        push_chapter(&mut chapters, st.number, st.title, st.body);
    }
    chapters
}


// ─── Text clean-up ───────────────────────────────────────────────────────

/// A character that XML 1.0 allows: `#x9 | #xA | #xD | [#x20-#xD7FF] |
/// [#xE000-#xFFFD] | [#x10000-#x10FFFF]`.
pub open spec fn xml_char(c: char) -> bool {
    let n = c as u32;
    ||| n == 0x09
    ||| n == 0x0A
    ||| n == 0x0D
    ||| 0x20 <= n <= 0xD7FF
    ||| 0xE000 <= n <= 0xFFFD
    ||| 0x10000 <= n <= 0x10FFFF
}

/// `s` without the characters that XML 1.0 forbids.
pub open spec fn xml_sanitized(s: Seq<char>) -> Seq<char> {
    s.filter(|c: char| xml_char(c))
}

/// Removes the characters that XML 1.0 does not allow.
pub fn sanitize_xml(s: &str) -> (r: String)
    ensures
        r@ == xml_sanitized(s@),
{
    let v = chars_of(s);
    let mut out: Vec<char> = Vec::new();
    let mut i: usize = 0;
    while i < v.len()
        invariant
            i <= v.len(),
            out@ == xml_sanitized(v@.take(i as int)),
        decreases v.len() - i,
    {
        let c = v[i];
        let n = c as u32;
        proof {
            reveal(Seq::filter);
            assert(v@.take(i + 1).drop_last() == v@.take(i as int));
            assert(v@.take(i + 1).last() == c);
        }
        if n == 0x09 || n == 0x0A || n == 0x0D || (0x20 <= n && n <= 0xD7FF) || (0xE000 <= n && n
            <= 0xFFFD) || (0x10000 <= n && n <= 0x10FFFF) {
            out.push(c);
        }
        i += 1;
    }
    assert(v@.take(v.len() as int) == v@);
    string_of(&out)
}

/// Every chapter has a trimmed body, and a title or a body.
pub open spec fn proper_chapters(cs: Seq<ChapterView>) -> bool {
    forall|i: int|
        0 <= i < cs.len() ==> trim((#[trigger] cs[i]).body) == cs[i].body && (cs[i].body.len() > 0
            || cs[i].title.len() > 0)
}

proof fn lemma_with_chapter_proper(cs: Seq<ChapterView>, number: Option<u32>, title: Seq<char>, body: Seq<char>)
    requires
        proper_chapters(cs),
    ensures
        proper_chapters(with_chapter(cs, number, title, body)),
{
    crate::text::lemma_trim_idempotent(body);
}

proof fn lemma_step_line_proper(s: ScanState, l: LineView)
    requires
        proper_chapters(s.chapters),
    ensures
        proper_chapters(step_line(s, l).chapters),
{
    lemma_with_chapter_proper(s.chapters, s.number, s.title, s.body);
}

proof fn lemma_run_lines_proper(s: ScanState, ls: Seq<LineView>)
    requires
        proper_chapters(s.chapters),
    ensures
        proper_chapters(run_lines(s, ls).chapters),
    decreases ls.len(),
{
    if ls.len() > 0 {
        lemma_run_lines_proper(s, ls.drop_last());
        lemma_step_line_proper(run_lines(s, ls.drop_last()), ls.last());
    }
}

proof fn lemma_run_pages_proper(s: ScanState, ps: Seq<Seq<LineView>>)
    requires
        proper_chapters(s.chapters),
    ensures
        proper_chapters(run_pages(s, ps).chapters),
    decreases ps.len(),
{
    if ps.len() > 0 {
        lemma_run_pages_proper(s, ps.drop_last());
        let s0 = run_pages(s, ps.drop_last());
        lemma_run_lines_proper(ScanState { first_body: true, ..s0 }, ps.last());
    }
}

/// The reconstruction never yields an empty chapter: each has a title or
/// a body, and its body is trimmed.
pub proof fn lemma_reconstructed_chapters_proper(ps: Seq<Seq<LineView>>)
    ensures
        proper_chapters(reconstructed(ps)),
{
    lemma_run_pages_proper(initial_scan(), ps);
    let s = run_pages(initial_scan(), ps);
    lemma_with_chapter_proper(s.chapters, s.number, s.title, s.body);
}

/// A scene break keeps the chapter and its body so far, and adds a
/// separator holding `* * *` after a body that has text.
pub proof fn lemma_scene_break_marks_body(s: ScanState, l: LineView)
    requires
        l.kind == LineKind::SceneBreak,
    ensures
        step_line(s, l).chapters == s.chapters,
        step_line(s, l).title == s.title,
        s.body.len() > 0 ==> step_line(s, l).body.len() > s.body.len()
            && step_line(s, l).body.take(s.body.len() as int) == s.body && contains(
            step_line(s, l).body.skip(s.body.len() as int),
            "* * *"@,
        ),
{
    reveal_strlit("\n\n* * *\n\n");
    reveal_strlit("* * *");
    if s.body.len() > 0 {
        let b = s.body + "\n\n* * *\n\n"@;
        assert(b.take(s.body.len() as int) =~= s.body);
        assert(b.skip(s.body.len() as int) =~= "\n\n* * *\n\n"@);
        assert("\n\n* * *\n\n"@.subrange(2, 7) =~= "* * *"@);
        assert(occurs_at("\n\n* * *\n\n"@, "* * *"@, 2));
    }
}

/// Text before a scene break and a body line after it stay apart: the
/// body keeps the text before, then a separator holding `* * *`, then the
/// new line, trimmed.
pub proof fn lemma_scene_break_separates(s: ScanState, l: LineView, m: LineView)
    requires
        s.body.len() > 0,
        l.kind == LineKind::SceneBreak,
        m.kind == LineKind::Body,
    ensures
        ({
            let b = step_line(step_line(s, l), m).body;
            exists|sep: Seq<char>|
                #![trigger contains(sep, "* * *"@)]
                b == s.body + sep + trim(m.text) && contains(sep, "* * *"@)
        }),
{
    reveal_strlit("\n\n* * *\n\n");
    reveal_strlit("\n\n");
    reveal_strlit("* * *");
    let s1 = step_line(s, l);
    let sep = "\n\n* * *\n\n"@ + "\n\n"@;
    assert(s1.body.len() > 1);
    assert(!drop_cap_remainder(s1.body, trim(m.text)));
    assert(step_line(s1, m).body == s1.body + "\n\n"@ + trim(m.text));
    assert(step_line(s1, m).body =~= s.body + sep + trim(m.text));
    assert(sep.subrange(2, 7) =~= "* * *"@);
    assert(occurs_at(sep, "* * *"@, 2));
    assert(contains(sep, "* * *"@));
}

/// A line that is not a running header or footer.
pub open spec fn not_running(l: LineView) -> bool {
    l.kind != LineKind::Running
}

/// The pages with their running headers and footers removed, the other
/// lines kept in order.
pub open spec fn without_running(ps: Seq<Seq<LineView>>) -> Seq<Seq<LineView>> {
    ps.map_values(|ls: Seq<LineView>| ls.filter(|l: LineView| not_running(l)))
}

proof fn lemma_lines_skip_running(s: ScanState, ls: Seq<LineView>)
    ensures
        run_lines(s, ls) == run_lines(s, ls.filter(|l: LineView| not_running(l))),
        last_body_continues(ls) == last_body_continues(ls.filter(|l: LineView| not_running(l))),
    decreases ls.len(),
{
    reveal(Seq::filter);
    if ls.len() > 0 {
        lemma_lines_skip_running(s, ls.drop_last());
        let f = ls.filter(|l: LineView| not_running(l));
        let fd = ls.drop_last().filter(|l: LineView| not_running(l));
        if not_running(ls.last()) {
            assert(f == fd.push(ls.last()));
            assert(f.drop_last() =~= fd);
            assert(f.last() == ls.last());
        } else {
            assert(f == fd);
        }
    }
}

proof fn lemma_pages_skip_running(s: ScanState, ps: Seq<Seq<LineView>>)
    ensures
        run_pages(s, ps) == run_pages(s, without_running(ps)),
    decreases ps.len(),
{
    if ps.len() > 0 {
        lemma_pages_skip_running(s, ps.drop_last());
        let w = without_running(ps);
        assert(w.drop_last() =~= without_running(ps.drop_last()));
        let s0 = run_pages(s, ps.drop_last());
        lemma_lines_skip_running(ScanState { first_body: true, ..s0 }, ps.last());
    }
}

/// Running headers and footers never reach a chapter nor break a
/// paragraph across pages: removing them from the pages leaves the
/// reconstruction unchanged.
pub proof fn lemma_running_lines_ignored(ps: Seq<Seq<LineView>>)
    ensures
        reconstructed(without_running(ps)) == reconstructed(ps),
{
    lemma_pages_skip_running(initial_scan(), ps);
}

/// Sanitizing leaves only characters that XML allows, and sanitizing again
/// changes nothing.
pub proof fn lemma_sanitized_is_clean(s: Seq<char>)
    ensures
        forall|i: int| 0 <= i < xml_sanitized(s).len() ==> xml_char(#[trigger] xml_sanitized(s)[i]),
        xml_sanitized(xml_sanitized(s)) == xml_sanitized(s),
    decreases s.len(),
{
    reveal(Seq::filter);
    if s.len() > 0 {
        lemma_sanitized_is_clean(s.drop_last());
        let prev = xml_sanitized(s.drop_last());
        if xml_char(s.last()) {
            assert(xml_sanitized(s) == prev.push(s.last()));
            assert(xml_sanitized(s).drop_last() == prev);
            assert(xml_sanitized(xml_sanitized(s)) == xml_sanitized(prev).push(s.last()));
        } else {
            assert(xml_sanitized(s) == prev);
        }
    } else {
        assert(xml_sanitized(s) =~= Seq::<char>::empty());
    }
}

/// The XML text without its `<!DOCTYPE ...>` lines, which the XML parser
/// refuses; the lines are rejoined with `'\n'`. Text without a doctype is
/// left as it is.
pub open spec fn without_doctype(xml: Seq<char>) -> Seq<char> {
    if contains(xml, "<!DOCTYPE"@) {
        join(lines(xml).filter(|l: Seq<char>| !starts_with(trim_start(l), "<!DOCTYPE"@)), "\n"@)
    } else {
        xml
    }
}

/// A doctype line: after its leading whitespace it starts with `<!DOCTYPE`.
pub open spec fn is_doctype_line(l: Seq<char>) -> bool {
    starts_with(trim_start(l), "<!DOCTYPE"@)
}

/// Where the text that `trim_start` keeps begins.
proof fn trim_start_offset(s: Seq<char>) -> (k: int)
    ensures
        0 <= k <= s.len(),
        trim_start(s) == s.subrange(k, s.len() as int),
    decreases s.len(),
{
    if s.len() > 0 && is_ws(s[0]) {
        let k1 = trim_start_offset(s.drop_first());
        assert(s.drop_first().subrange(k1, s.drop_first().len() as int) =~= s.subrange(k1 + 1, s.len() as int));
        k1 + 1
    } else {
        assert(s.subrange(0, s.len() as int) =~= s);
        0
    }
}

proof fn lemma_filter_keeps_all(s: Seq<Seq<char>>, pred: spec_fn(Seq<char>) -> bool)
    requires
        forall|i: int| 0 <= i < s.len() ==> pred(#[trigger] s[i]),
    ensures
        s.filter(pred) == s,
    decreases s.len(),
{
    reveal(Seq::filter);
    if s.len() > 0 {
        lemma_filter_keeps_all(s.drop_last(), pred);
        assert(pred(s[s.len() - 1]));
        assert(s.drop_last().push(s.last()) =~= s);
    }
}

proof fn lemma_doctype_line_contains(l: Seq<char>)
    requires
        is_doctype_line(l),
    ensures
        contains(l, "<!DOCTYPE"@),
{
    let k = trim_start_offset(l);
    reveal_strlit("<!DOCTYPE");
    assert(l.subrange(k, k + 9) =~= l.subrange(k, l.len() as int).take(9));
    assert(occurs_at(l, "<!DOCTYPE"@, k));
}

/// A DOCTYPE line never changes what is parsed: a doctype line and a
/// newline put before a document leave the text handed to the XML parser
/// as it was. (When the document holds no `<!DOCTYPE` at all, it must hold
/// no `'\r'` and not end with a newline: the document is then handed over
/// as it is, while the stripped text has its lines rejoined.)
pub proof fn lemma_doctype_line_ignored(d: Seq<char>, x: Seq<char>)
    requires
        is_doctype_line(d),
        !d.contains('\n'),
        !d.contains('\r'),
        contains(x, "<!DOCTYPE"@) || (!x.contains('\r') && (x.len() == 0 || x.last() != '\n')),
    ensures
        without_doctype(d.push('\n') + x) == without_doctype(x),
{
    reveal(Seq::filter);
    let pred = |l: Seq<char>| !starts_with(trim_start(l), "<!DOCTYPE"@);
    let t = d.push('\n') + x;
    crate::text::lemma_lines_after_line(d, x);
    assert(seq![d].filter(pred) =~= Seq::<Seq<char>>::empty()) by {
        assert(seq![d].drop_last() =~= Seq::<Seq<char>>::empty());
        assert(Seq::<Seq<char>>::empty().filter(pred) =~= Seq::<Seq<char>>::empty());
    }
    Seq::filter_distributes_over_add(seq![d], lines(x), pred);
    assert(Seq::<Seq<char>>::empty() + lines(x).filter(pred) =~= lines(x).filter(pred));
    lemma_doctype_line_contains(d);
    assert(contains(t, "<!DOCTYPE"@)) by {
        assert(t.subrange(0, d.len() as int) =~= d);
        crate::text::lemma_contains_in_part(t, 0, d.len() as int, "<!DOCTYPE"@);
    }
    if !contains(x, "<!DOCTYPE"@) {
        crate::text::lemma_lines_rejoin(x);
        crate::text::lemma_lines_within(x, "<!DOCTYPE"@);
        assert forall|i: int| 0 <= i < lines(x).len() implies pred(#[trigger] lines(x)[i]) by {
            if !pred(lines(x)[i]) {
                lemma_doctype_line_contains(lines(x)[i]);
            }
        }
        lemma_filter_keeps_all(lines(x), pred);
    }
}

/// The lines of a text that are not doctype lines.
pub open spec fn kept_lines(xml: Seq<char>) -> Seq<Seq<char>> {
    lines(xml).filter(|l: Seq<char>| !starts_with(trim_start(l), "<!DOCTYPE"@))
}

/// The text without its doctype lines, as a line filter gives it: the
/// other lines joined by newlines, whatever the text holds.
pub open spec fn doctype_lines_dropped(xml: Seq<char>) -> Seq<char> {
    join(kept_lines(xml), "\n"@)
}

proof fn lemma_filter_lines(s: Seq<Seq<char>>, pred: spec_fn(Seq<char>) -> bool)
    requires
        forall|i: int| 0 <= i < s.len() ==> !(#[trigger] s[i]).contains('\n'),
    ensures
        forall|i: int|
            0 <= i < s.filter(pred).len() ==> pred(#[trigger] s.filter(pred)[i]) && !s.filter(pred)[i].contains(
                '\n',
            ),
    decreases s.len(),
{
    reveal(Seq::filter);
    if s.len() > 0 {
        let d = s.drop_last();
        assert forall|i: int| 0 <= i < d.len() implies !(#[trigger] d[i]).contains('\n') by {
            assert(d[i] == s[i]);
        }
        lemma_filter_lines(d, pred);
        assert(!s[s.len() - 1].contains('\n'));
        let f = s.filter(pred);
        let fd = d.filter(pred);
        if pred(s.last()) {
            assert(f == fd.push(s.last()));
            assert forall|i: int| 0 <= i < f.len() implies pred(#[trigger] f[i]) && !f[i].contains('\n') by {
                if i < fd.len() {
                    assert(f[i] == fd[i]);
                }
            }
        } else {
            assert(f == fd);
        }
    }
}

/// Doctype lines anywhere never change what is parsed: the text handed to
/// the XML parser is the same for a document and for that document with
/// its doctype lines filtered out. It is stated for the documents where
/// filtering again is exact: when the document holds `<!DOCTYPE`, every
/// kept line but the last must not end with `'\r'` and the last kept line
/// must not be empty; when it holds none, the document must hold no `'\r'`
/// and not end with a newline (the filter rejoins its lines, while the
/// document itself is handed over as it is).
pub proof fn lemma_doctype_lines_ignored(xml: Seq<char>)
    requires
        contains(xml, "<!DOCTYPE"@) ==> (forall|i: int|
            0 <= i < kept_lines(xml).len() - 1 ==> !crate::text::ends_with_cr(#[trigger] kept_lines(xml)[i]))
            && (kept_lines(xml).len() == 0 || kept_lines(xml).last().len() > 0),
        !contains(xml, "<!DOCTYPE"@) ==> !xml.contains('\r') && (xml.len() == 0 || xml.last() != '\n'),
    ensures
        without_doctype(doctype_lines_dropped(xml)) == without_doctype(xml),
{
    reveal(Seq::filter);
    let pred = |l: Seq<char>| !starts_with(trim_start(l), "<!DOCTYPE"@);
    let k = kept_lines(xml);
    crate::text::lemma_lines_no_newline(xml);
    lemma_filter_lines(lines(xml), pred);
    if contains(xml, "<!DOCTYPE"@) {
        let x2 = doctype_lines_dropped(xml);
        if contains(x2, "<!DOCTYPE"@) {
            assert(crate::text::rejoinable(k));
            crate::text::lemma_lines_of_join(k);
            assert forall|i: int| 0 <= i < k.len() implies pred(#[trigger] k[i]) by {
                assert(pred(lines(xml).filter(pred)[i]));
            }
            lemma_filter_keeps_all(k, pred);
        }
    } else {
        crate::text::lemma_lines_rejoin(xml);
        crate::text::lemma_lines_within(xml, "<!DOCTYPE"@);
        assert forall|i: int| 0 <= i < lines(xml).len() implies pred(#[trigger] lines(xml)[i]) by {
            if !pred(lines(xml)[i]) {
                lemma_doctype_line_contains(lines(xml)[i]);
            }
        }
        lemma_filter_keeps_all(lines(xml), pred);
    }
}

/// Leading whitespace removed.
pub fn trim_start_chars(v: &Vec<char>) -> (r: Vec<char>)
    ensures
        r@ == trim_start(v@),
{
    let n = v.len();
    let mut i: usize = 0;
    while i < n && is_whitespace(v[i])
        invariant
            i <= n == v.len(),
            forall|k: int| 0 <= k < i ==> is_ws(#[trigger] v@[k]),
        decreases n - i,
    {
        i += 1;
    }
    proof {
        lemma_trim_start_skip(v@, i as int);
        let t = v@.subrange(i as int, n as int);
        if i < n {
            assert(t[0] == v@[i as int]);
        }
        assert(trim_start(t) == t);
    }
    sub_chars(v, i, n)
}

/// Drops the doctype lines of a `pdftohtml` XML document.
pub fn strip_doctype(xml: &str) -> (r: String)
    ensures
        r@ == without_doctype(xml@),
{
    let v = chars_of(xml);
    let pat = chars_of("<!DOCTYPE");
    if !contains_chars(&v, &pat) {
        return string_of(&v);
    }
    let ls = lines_of(&v);
    let mut kept: Vec<Vec<char>> = Vec::new();
    let ghost pred = |l: Seq<char>| !starts_with(trim_start(l), "<!DOCTYPE"@);
    let mut i: usize = 0;
    while i < ls.len()
        invariant
            i <= ls.len(),
            views(kept@) == views(ls@).take(i as int).filter(pred),
            pred == (|l: Seq<char>| !starts_with(trim_start(l), "<!DOCTYPE"@)),
        decreases ls.len() - i,
    {
        proof {
            reveal(Seq::filter);
            assert(views(ls@).take(i + 1).drop_last() == views(ls@).take(i as int));
            assert(views(ls@).take(i + 1).last() == ls@[i as int]@);
        }
        let lead = trim_start_chars(&ls[i]);
        if !has_prefix(&lead, "<!DOCTYPE") {
            let ghost k0 = kept@;
            kept.push(copy_chars(&ls[i]));
            assert(views(kept@) =~= views(k0).push(ls@[i as int]@));
        }
        i += 1;
    }
    assert(views(ls@).take(ls.len() as int) == views(ls@));
    let joined = join_chars(&kept, "\n");
    string_of(&joined)
}

// ─── Line properties ─────────────────────────────────────────────────────

/// Closing quote characters that may follow the end of a sentence.
pub open spec fn closing_quote(c: char) -> bool {
    c == '"' || c == '\'' || c == '»'
}

/// Trailing closing quotes removed.
pub open spec fn trim_end_quotes(s: Seq<char>) -> Seq<char>
    decreases s.len(),
{
    if s.len() > 0 && closing_quote(s.last()) {
        trim_end_quotes(s.drop_last())
    } else {
        s
    }
}

/// Sentence-ending punctuation.
pub open spec fn sentence_end(c: char) -> bool {
    c == '.' || c == '?' || c == '!' || c == ':' || c == ';' || c == '…'
}

/// The text, closing quotes aside, ends in sentence punctuation.
pub open spec fn ends_in_sentence(s: Seq<char>) -> bool {
    let t = trim_end_quotes(s);
    t.len() > 0 && sentence_end(t.last())
}

/// Whether the line ends a sentence.
pub fn ends_sentence(text: &Vec<char>) -> (b: bool)
    ensures
        b == ends_in_sentence(text@),
{
    let mut j = text.len();
    assert(text@.take(j as int) == text@);
    while j > 0 && (text[j - 1] == '"' || text[j - 1] == '\'' || text[j - 1] == '»')
        invariant
            j <= text.len(),
            trim_end_quotes(text@) == trim_end_quotes(text@.take(j as int)),
        decreases j,
    {
        assert(text@.take(j as int).drop_last() == text@.take(j - 1));
        j -= 1;
    }
    proof {
        let t = text@.take(j as int);
        if j > 0 {
            assert(t.last() == text@[j - 1]);
        }
        assert(trim_end_quotes(t) == t);
    }
    if j == 0 {
        return false;
    }
    let c = text[j - 1];
    c == '.' || c == '?' || c == '!' || c == ':' || c == ';' || c == '…'
}

/// The pattern of a scene-break line (`* * *`, `- -`, `— —`, ...).
pub open spec fn scene_break_pattern() -> Seq<char> {
    "^[\\*\\-·•–—]{1,3}(\\s*[\\*\\-·•–—]{1,3})+$"@
}

/// Number of alphabetic characters.
pub open spec fn alphabetic_count(s: Seq<char>) -> nat
    decreases s.len(),
{
    if s.len() == 0 {
        0
    } else {
        alphabetic_count(s.drop_last()) + (if alphabetic(s.last()) {
            1nat
        } else {
            0nat
        })
    }
}

/// Every character is an ASCII digit (true of the empty text).
pub open spec fn digits_only(s: Seq<char>) -> bool {
    forall|i: int| 0 <= i < s.len() ==> ascii_digit(#[trigger] s[i])
}

/// The role of a line, decided in this order:
///  1. in the running zone at the top of the page and a known running text,
///     or made of digits only (a page number): `Running`;
///  2. smaller than the heading threshold: `Body`;
///  3. a scene-break pattern: `SceneBreak`;
///  4. at most two characters with exactly one letter: `DropCap`;
///  5. otherwise `ChapterHeading`.
pub open spec fn line_kind(
    text: Seq<char>,
    font_size: u32,
    heading_threshold: u32,
    in_running_zone: bool,
    running: Seq<Seq<char>>,
) -> LineKind {
    let t = trim(text);
    if in_running_zone && running.contains(t) {
        LineKind::Running
    } else if in_running_zone && digits_only(t) {
        LineKind::Running
    } else if font_size < heading_threshold {
        LineKind::Body
    } else if matched(scene_break_pattern(), t) {
        LineKind::SceneBreak
    } else if t.len() <= 2 && alphabetic_count(t) == 1 {
        LineKind::DropCap
    } else {
        LineKind::ChapterHeading
    }
}

/// Whether the list holds the text.
pub fn contains_text(list: &Vec<String>, t: &Vec<char>) -> (b: bool)
    ensures
        b == string_views(list@).contains(t@),
{
    let mut i: usize = 0;
    while i < list.len()
        invariant
            i <= list.len(),
            forall|k: int| 0 <= k < i ==> list@[k]@ != t@,
        decreases list.len() - i,
    {
        let item = chars_of(list[i].as_str());
        let same = item.len() == t.len() && matches_at(&item, t, 0);
        if same {
            assert(item@.subrange(0, t@.len() as int) == item@);
            assert(string_views(list@)[i as int] == t@);
            return true;
        } else {
            proof {
                if item@ == t@ {
                    assert(item@.subrange(0, t@.len() as int) == item@);
                }
            }
        }
        i += 1;
    }
    assert forall|k: int| 0 <= k < string_views(list@).len() implies string_views(list@)[k] != t@ by {
        assert(string_views(list@)[k] == list@[k]@);
    }
    false
}

/// Classifies a line of text. The caller measures the geometry: whether the
/// line lies in the running zone at the top of the page, and the heading
/// threshold (the body font size scaled by the heading ratio).
pub fn classify_line(
    text: &Vec<char>,
    font_size: u32,
    heading_threshold: u32,
    in_running_zone: bool,
    running: &Vec<String>,
) -> (k: LineKind)
    ensures
        k == line_kind(text@, font_size, heading_threshold, in_running_zone, string_views(running@)),
{
    let t = trim_chars(text);
    if in_running_zone && contains_text(running, &t) {
        return LineKind::Running;
    }
    if in_running_zone {
        let mut all_digits = true;
        let mut i: usize = 0;
        while i < t.len()
            invariant
                i <= t.len(),
                all_digits == (forall|k: int| 0 <= k < i ==> ascii_digit(#[trigger] t@[k])),
            decreases t.len() - i,
        {
            if !is_ascii_digit(t[i]) {
                all_digits = false;
            }
            i += 1;
        }
        if all_digits {
            return LineKind::Running;
        }
    }
    if font_size < heading_threshold {
        return LineKind::Body;
    }
    let ts = string_of(&t);
    if is_match("^[\\*\\-·•–—]{1,3}(\\s*[\\*\\-·•–—]{1,3})+$", ts.as_str()) {
        return LineKind::SceneBreak;
    }
    let mut alpha: usize = 0;
    let mut i: usize = 0;
    while i < t.len()
        invariant
            i <= t.len(),
            alpha == alphabetic_count(t@.take(i as int)),
            alpha <= i,
        decreases t.len() - i,
    {
        assert(t@.take(i + 1).drop_last() == t@.take(i as int));
        if is_alphabetic(t[i]) {
            alpha += 1;
        }
        i += 1;
    }
    assert(t@.take(t.len() as int) == t@);
    if t.len() <= 2 && alpha == 1 {
        LineKind::DropCap
    } else {
        LineKind::ChapterHeading
    }
}


// ─── Heaviest key (font sizes, positions) ────────────────────────────────

/// Total weight of the items with key `k`.
pub open spec fn weight_of(items: Seq<(i64, usize)>, k: i64) -> int
    decreases items.len(),
{
    if items.len() == 0 {
        0
    } else {
        weight_of(items.drop_last(), k) + (if items.last().0 == k {
            items.last().1 as int
        } else {
            0
        })
    }
}

/// Total weight of all items.
pub open spec fn total_weight(items: Seq<(i64, usize)>) -> int
    decreases items.len(),
{
    if items.len() == 0 {
        0
    } else {
        total_weight(items.drop_last()) + items.last().1 as int
    }
}

/// A key that may be chosen: any, or any but zero.
pub open spec fn eligible(k: i64, skip_zero: bool) -> bool {
    !skip_zero || k != 0
}

/// Item `i` has an eligible key of greatest total weight.
pub open spec fn max_weight_at(items: Seq<(i64, usize)>, skip_zero: bool, i: int) -> bool {
    &&& 0 <= i < items.len()
    &&& eligible(items[i].0, skip_zero)
    &&& forall|k: int|
        0 <= k < items.len() && eligible(#[trigger] items[k].0, skip_zero) ==> weight_of(
            items,
            items[k].0,
        ) <= weight_of(items, items[i].0)
}

/// Item `i` is the first item with an eligible key of greatest weight.
pub open spec fn first_max_weight_at(items: Seq<(i64, usize)>, skip_zero: bool, i: int) -> bool {
    &&& max_weight_at(items, skip_zero, i)
    &&& forall|k: int| 0 <= k < i ==> !#[trigger] max_weight_at(items, skip_zero, k)
}

/// The eligible key of greatest total weight; on a tie, the key that
/// occurs first; `None` when no item has an eligible key.
pub open spec fn heaviest(items: Seq<(i64, usize)>, skip_zero: bool) -> Option<i64> {
    if exists|i: int| first_max_weight_at(items, skip_zero, i) {
        Some(items[choose|i: int| first_max_weight_at(items, skip_zero, i)].0)
    } else {
        None
    }
}

proof fn lemma_weight_le_total(items: Seq<(i64, usize)>, k: i64)
    ensures
        0 <= weight_of(items, k) <= total_weight(items),
    decreases items.len(),
{
    if items.len() > 0 {
        lemma_weight_le_total(items.drop_last(), k);
    }
}

proof fn lemma_total_prefix(items: Seq<(i64, usize)>, i: int)
    requires
        0 <= i <= items.len(),
    ensures
        total_weight(items.take(i)) <= total_weight(items),
    decreases items.len() - i,
{
    if i < items.len() {
        lemma_total_prefix(items, i + 1);
        assert(items.take(i + 1).drop_last() == items.take(i));
    } else {
        assert(items.take(i) == items);
    }
}

/// The eligible key of greatest total weight (the first to occur, on a tie).
pub fn heaviest_key(items: &Vec<(i64, usize)>, skip_zero: bool) -> (r: Option<i64>)
    requires
        total_weight(items@) <= usize::MAX,
    ensures
        r == heaviest(items@, skip_zero),
{
    let mut ks: Vec<i64> = Vec::new();
    let mut ws: Vec<usize> = Vec::new();
    let ghost mut wit: Seq<int> = Seq::empty();
    let mut i: usize = 0;
    while i < items.len()
        invariant
            i <= items.len(),
            total_weight(items@) <= usize::MAX,
            ks.len() == ws.len() == wit.len(),
            forall|j: int| 0 <= j < ks.len() ==> #[trigger] ws@[j] == weight_of(items@.take(i as int), ks@[j]),
            forall|j1: int, j2: int| 0 <= j1 < ks.len() && 0 <= j2 < ks.len() && j1 != j2 ==> #[trigger] ks@[j1] != #[trigger] ks@[j2],
            forall|k: int| 0 <= k < i ==> ks@.contains(#[trigger] items@[k].0),
            forall|j: int| 0 <= j < ks.len() ==> 0 <= #[trigger] wit[j] < i && items@[wit[j]].0 == ks@[j],
            forall|j1: int, j2: int| 0 <= j1 < j2 < ks.len() ==> #[trigger] wit[j1] < #[trigger] wit[j2],
            forall|j: int, k: int| 0 <= j < ks.len() && 0 <= k < wit[j] ==> #[trigger] items@[k].0 != #[trigger] ks@[j],
            forall|k: i64| !ks@.contains(k) ==> weight_of(items@.take(i as int), k) == 0,
        decreases items.len() - i,
    {
        let (key, w) = items[i];
        let ghost pre = items@.take(i as int);
        let ghost nxt = items@.take(i + 1);
        proof {
            assert(nxt.drop_last() == pre);
            assert(nxt.last() == items@[i as int]);
            lemma_total_prefix(items@, i + 1);
            lemma_weight_le_total(nxt, key);
            assert forall|k: i64| #[trigger] weight_of(nxt, k) == weight_of(pre, k) + (if k == key {
                w as int
            } else {
                0
            }) by {}
        }
        let mut j: usize = 0;
        while j < ks.len() && ks[j] != key
            invariant
                j <= ks.len(),
                forall|m: int| 0 <= m < j ==> ks@[m] != key,
            decreases ks.len() - j,
        {
            j += 1;
        }
        let found = j < ks.len();
        if found {
            let ghost ws0 = ws@;
            assert(ks@[j as int] == key);
            let nw = ws[j] + w;
            ws.set(j, nw);
            proof {
                assert forall|m: int| 0 <= m < ks.len() implies #[trigger] ws@[m] == weight_of(nxt, ks@[m]) by {
                    assert(weight_of(nxt, ks@[m]) == weight_of(pre, ks@[m]) + (if ks@[m] == key {
                        w as int
                    } else {
                        0
                    }));
                    if m != j {
                        assert(ws@[m] == ws0[m]);
                    }
                }
                assert forall|k: i64| !ks@.contains(k) implies weight_of(nxt, k) == 0 by {
                    assert(k != key);
                }
                assert(ks@.contains(items@[i as int].0)) by {
                    assert(ks@[j as int] == key);
                }
            }
        } else {
            proof {
                assert(!ks@.contains(key)) by {
                    if ks@.contains(key) {
                        let m = choose|m: int| 0 <= m < ks.len() && ks@[m] == key;
                    }
                }
                assert(weight_of(pre, key) == 0);
            }
            let ghost ks0 = ks@;
            let ghost ws0 = ws@;
            let ghost wit0 = wit;
            ks.push(key);
            ws.push(w);
            proof {
                wit = wit.push(i as int);
                assert forall|j1: int, j2: int| 0 <= j1 < ks.len() && 0 <= j2 < ks.len() && j1 != j2 implies #[trigger] ks@[j1] != #[trigger] ks@[j2] by {
                    if j1 < ks0.len() && j2 < ks0.len() {
                        assert(ks@[j1] == ks0[j1] && ks@[j2] == ks0[j2]);
                    } else if j1 < ks0.len() {
                        assert(ks@[j1] == ks0[j1]);
                        assert(ks0[j1] != key);
                    } else {
                        assert(ks@[j2] == ks0[j2]);
                        assert(ks0[j2] != key);
                    }
                }
                assert forall|m: int| 0 <= m < ks.len() implies #[trigger] ws@[m] == weight_of(nxt, ks@[m]) by {
                    if m < ks0.len() {
                        assert(ks@[m] == ks0[m]);
                        assert(ws@[m] == ws0[m]);
                        assert(ks0[m] != key);
                    }
                }
                assert forall|k: int| 0 <= k < i + 1 implies ks@.contains(#[trigger] items@[k].0) by {
                    if k < i {
                        assert(ks0.contains(items@[k].0));
                        let m = choose|m: int| 0 <= m < ks0.len() && ks0[m] == items@[k].0;
                        assert(ks@[m] == ks0[m]);
                    } else {
                        assert(ks@[ks0.len() as int] == key);
                    }
                }
                assert forall|k: i64| !ks@.contains(k) implies weight_of(nxt, k) == 0 by {
                    if ks0.contains(k) {
                        let m = choose|m: int| 0 <= m < ks0.len() && ks0[m] == k;
                        assert(ks@[m] == ks0[m]);
                    }
                    assert(k != key) by {
                        assert(ks@[ks0.len() as int] == key);
                    }
                }
                assert forall|m: int| 0 <= m < ks.len() implies 0 <= #[trigger] wit[m] < i + 1 && items@[wit[m]].0 == ks@[m] by {
                    if m < ks0.len() {
                        assert(ks@[m] == ks0[m]);
                        assert(wit[m] == wit0[m]);
                    }
                }
                assert forall|j1: int, j2: int| 0 <= j1 < j2 < ks.len() implies #[trigger] wit[j1] < #[trigger] wit[j2] by {
                    assert(wit[j1] == wit0[j1]);
                    if j2 < ks0.len() {
                        assert(wit[j2] == wit0[j2]);
                    }
                }
                assert forall|m: int, k: int| 0 <= m < ks.len() && 0 <= k < wit[m] implies #[trigger] items@[k].0 != #[trigger] ks@[m] by {
                    if m < ks0.len() {
                        assert(ks@[m] == ks0[m]);
                        assert(wit[m] == wit0[m]);
                    } else {
                        assert(ks@[m] == key);
                        assert(ks@.contains(items@[k].0) ==> true);
                        assert(ks0.contains(items@[k].0));
                        if items@[k].0 == key {
                            assert(ks0.contains(key));
                        }
                    }
                }
            }
        }
        i += 1;
    }
    assert(items@.take(items.len() as int) == items@);
    let mut best: Option<i64> = None;
    let mut best_w: usize = 0;
    let ghost mut best_at: int = 0;
    let mut j: usize = 0;
    while j < ks.len()
        invariant
            j <= ks.len() == ws.len() == wit.len(),
            i == items.len(),
            items@.take(items.len() as int) == items@,
            forall|m: int| 0 <= m < ks.len() ==> #[trigger] ws@[m] == weight_of(items@, ks@[m]),
            forall|m: int| 0 <= m < ks.len() ==> 0 <= #[trigger] wit[m] < i && items@[wit[m]].0 == ks@[m],
            best is None ==> forall|m: int| 0 <= m < j ==> !eligible(#[trigger] ks@[m], skip_zero),
            best matches Some(b) ==> {
                &&& eligible(b, skip_zero)
                &&& 0 <= best_at < j
                &&& ks@[best_at] == b
                &&& best_w == weight_of(items@, b)
                &&& forall|m: int| 0 <= m < j && eligible(#[trigger] ks@[m], skip_zero) ==> ws@[m] <= best_w
                &&& forall|m: int| 0 <= m < best_at && eligible(#[trigger] ks@[m], skip_zero) ==> ws@[m] < best_w
            },
        decreases ks.len() - j,
    {
        let k = ks[j];
        if !skip_zero || k != 0 {
            if best.is_none() || ws[j] > best_w {
                best = Some(k);
                best_w = ws[j];
                proof {
                    best_at = j as int;
                }
            }
        }
        j += 1;
    }
    proof {
        match best {
            None => {
                assert forall|i: int| 0 <= i < items.len() implies !#[trigger] max_weight_at(items@, skip_zero, i) by {
                    assert(ks@.contains(items@[i].0));
                    let m = choose|m: int| 0 <= m < ks.len() && ks@[m] == items@[i].0;
                }
                assert(!exists|i: int| first_max_weight_at(items@, skip_zero, i));
            },
            Some(b) => {
                let w0 = wit[best_at];
                assert(0 <= w0 < items.len() && items@[w0].0 == b);
                assert forall|i: int| 0 <= i < items.len() && eligible(#[trigger] items@[i].0, skip_zero) implies weight_of(items@, items@[i].0) <= weight_of(items@, b) by {
                    assert(ks@.contains(items@[i].0));
                    let m2 = choose|m2: int| 0 <= m2 < ks.len() && ks@[m2] == items@[i].0;
                    assert(ws@[m2] == weight_of(items@, ks@[m2]));
                }
                assert(max_weight_at(items@, skip_zero, w0));
                assert forall|k: int| 0 <= k < w0 implies !#[trigger] max_weight_at(items@, skip_zero, k) by {
                    if max_weight_at(items@, skip_zero, k) {
                        assert(ks@.contains(items@[k].0));
                        let m2 = choose|m2: int| 0 <= m2 < ks.len() && ks@[m2] == items@[k].0;
                        assert(wit[m2] <= k);
                        if m2 > best_at {
                            assert(wit[best_at] < wit[m2]);
                        }
                        if m2 == best_at {
                            assert(ks@[m2] == b);
                        }
                        assert(m2 < best_at);
                        assert(ws@[m2] < best_w);
                        assert(weight_of(items@, b) <= weight_of(items@, items@[k].0));
                    }
                }
                assert(first_max_weight_at(items@, skip_zero, w0));
                let c = choose|i: int| first_max_weight_at(items@, skip_zero, i);
                if c < w0 {
                    assert(!max_weight_at(items@, skip_zero, c));
                } else if c > w0 {
                    assert(!max_weight_at(items@, skip_zero, w0));
                }
                assert(c == w0);
            },
        }
    }
    best
}

/// The text and font size of a positioned text element of a page.
#[derive(Debug, Clone)]
pub struct TextElement {
    pub text: String,
    pub font_size: u32,
}

/// Font sizes weighted by the number of characters set in them.
pub open spec fn font_items(els: Seq<TextElement>) -> Seq<(i64, usize)> {
    els.map_values(|e: TextElement| (e.font_size as i64, e.text@.len() as usize))
}

/// Number of characters set in font size `size`.
pub open spec fn font_weight(els: Seq<TextElement>, size: u32) -> int {
    weight_of(font_items(els), size as i64)
}

/// Number of characters over all elements.
pub open spec fn total_chars(els: Seq<TextElement>) -> int {
    total_weight(font_items(els))
}

fn font_items_of(els: &Vec<TextElement>) -> (r: Vec<(i64, usize)>)
    ensures
        r@ == font_items(els@),
{
    let mut r: Vec<(i64, usize)> = Vec::new();
    let mut i: usize = 0;
    while i < els.len()
        invariant
            i <= els.len(),
            r@ == font_items(els@).take(i as int),
        decreases els.len() - i,
    {
        let n = chars_of(els[i].text.as_str()).len();
        r.push((els[i].font_size as i64, n));
        assert(r@ =~= font_items(els@).take(i + 1));
        i += 1;
    }
    assert(font_items(els@).take(els.len() as int) =~= font_items(els@));
    r
}

/// The font size of the body text: the non-zero size in which the most
/// characters are set (the first to occur, on a tie); 12 when no element
/// has a non-zero size.
pub open spec fn body_size_of(els: Seq<TextElement>) -> u32 {
    match heaviest(font_items(els), true) {
        Some(k) => k as u32,
        None => 12,
    }
}

/// The dominant font size of a line: the size in which the most
/// characters are set (the first to occur, on a tie); `default` when there
/// are no elements.
pub open spec fn dominant_size_of(els: Seq<TextElement>, default: u32) -> u32 {
    match heaviest(font_items(els), false) {
        Some(k) => k as u32,
        None => default,
    }
}

/// The font size of the body text of a document.
pub fn body_font_size(els: &Vec<TextElement>) -> (r: u32)
    requires
        total_chars(els@) <= usize::MAX,
    ensures
        r == body_size_of(els@),
{
    let items = font_items_of(els);
    match heaviest_key(&items, true) {
        Some(k) => k as u32,
        None => 12,
    }
}

/// The dominant font size of a line.
pub fn dominant_font_size(els: &Vec<TextElement>, default: u32) -> (r: u32)
    requires
        total_chars(els@) <= usize::MAX,
    ensures
        r == dominant_size_of(els@, default),
{
    let items = font_items_of(els);
    match heaviest_key(&items, false) {
        Some(k) => k as u32,
        None => default,
    }
}

/// The key that `heaviest` picks has the greatest weight among the
/// eligible keys, and it is `None` exactly when no key is eligible.
pub proof fn lemma_heaviest_is_max(items: Seq<(i64, usize)>, skip_zero: bool)
    ensures
        heaviest(items, skip_zero) is None <==> (forall|i: int|
            0 <= i < items.len() ==> !eligible(#[trigger] items[i].0, skip_zero)),
        heaviest(items, skip_zero) matches Some(k) ==> {
            &&& eligible(k, skip_zero)
            &&& forall|i: int|
                0 <= i < items.len() && eligible(#[trigger] items[i].0, skip_zero) ==> weight_of(
                    items,
                    items[i].0,
                ) <= weight_of(items, k)
        },
{
    if exists|i: int| first_max_weight_at(items, skip_zero, i) {
        let c = choose|i: int| first_max_weight_at(items, skip_zero, i);
        assert(eligible(items[c].0, skip_zero));
    } else if !(forall|i: int| 0 <= i < items.len() ==> !eligible(#[trigger] items[i].0, skip_zero)) {
        // A finite set of eligible items has a first one of greatest weight.
        let e = choose|i: int| 0 <= i < items.len() && eligible(#[trigger] items[i].0, skip_zero);
        let m = lemma_weight_above(items, skip_zero, e);
        lemma_first_max_exists(items, skip_zero, m);
    }
}

proof fn lemma_weight_above(items: Seq<(i64, usize)>, skip_zero: bool, e: int) -> (m: int)
    requires
        0 <= e < items.len(),
        eligible(items[e].0, skip_zero),
    ensures
        max_weight_at(items, skip_zero, m),
    decreases total_weight(items) - weight_of(items, items[e].0),
{
    lemma_weight_le_total(items, items[e].0);
    if exists|k: int|
        0 <= k < items.len() && eligible(#[trigger] items[k].0, skip_zero) && weight_of(
            items,
            items[k].0,
        ) > weight_of(items, items[e].0) {
        let k = choose|k: int|
            0 <= k < items.len() && eligible(#[trigger] items[k].0, skip_zero) && weight_of(
                items,
                items[k].0,
            ) > weight_of(items, items[e].0);
        lemma_weight_le_total(items, items[k].0);
        lemma_weight_above(items, skip_zero, k)
    } else {
        e
    }
}

proof fn lemma_first_max_exists(items: Seq<(i64, usize)>, skip_zero: bool, m: int)
    requires
        max_weight_at(items, skip_zero, m),
    ensures
        exists|i: int| first_max_weight_at(items, skip_zero, i),
    decreases m,
{
    if exists|k: int| 0 <= k < m && max_weight_at(items, skip_zero, k) {
        let k = choose|k: int| 0 <= k < m && max_weight_at(items, skip_zero, k);
        lemma_first_max_exists(items, skip_zero, k);
    } else {
        assert(first_max_weight_at(items, skip_zero, m));
    }
}

/// Positions each counted once.
pub open spec fn position_items(vals: Seq<i32>) -> Seq<(i64, usize)> {
    vals.map_values(|v: i32| (v as i64, 1usize))
}

proof fn lemma_position_total(vals: Seq<i32>)
    ensures
        total_weight(position_items(vals)) == vals.len(),
    decreases vals.len(),
{
    if vals.len() > 0 {
        lemma_position_total(vals.drop_last());
        assert(position_items(vals).drop_last() == position_items(vals.drop_last()));
    }
}

/// The most frequent value (the first to occur, on a tie); 0 for no values.
pub open spec fn mode(vals: Seq<i32>) -> i32 {
    match heaviest(position_items(vals), false) {
        Some(k) => k as i32,
        None => 0,
    }
}

/// The most frequent value (0 for no values).
pub fn mode_of(vals: &Vec<i32>) -> (r: i32)
    ensures
        r == mode(vals@),
{
    let mut items: Vec<(i64, usize)> = Vec::new();
    let mut i: usize = 0;
    while i < vals.len()
        invariant
            i <= vals.len(),
            items@ == position_items(vals@).take(i as int),
        decreases vals.len() - i,
    {
        items.push((vals[i] as i64, 1));
        assert(items@ =~= position_items(vals@).take(i + 1));
        i += 1;
    }
    assert(position_items(vals@).take(vals.len() as int) =~= position_items(vals@));
    proof {
        lemma_position_total(vals@);
    }
    match heaviest_key(&items, false) {
        Some(k) => k as i32,
        None => 0,
    }
}

/// The left and right edges of the text area: the most frequent left end
/// and the most frequent right end of body-size text, the area being at
/// least 100 units wide.
pub open spec fn text_area_of(lefts: Seq<i32>, rights: Seq<i32>) -> (i64, i64) {
    let l = mode(lefts) as i64;
    let r = mode(rights) as i64;
    (l, if r >= l + 100 { r } else { (l + 100) as i64 })
}

/// The left and right edges of the text area.
pub fn text_area(lefts: &Vec<i32>, rights: &Vec<i32>) -> (r: (i64, i64))
    ensures
        r == text_area_of(lefts@, rights@),
{
    let l = mode_of(lefts);
    let m = mode_of(rights);
    let left = l as i64;
    let right = m as i64;
    if right >= left + 100 {
        (left, right)
    } else {
        (left, left + 100)
    }
}


// ─── Running headers and footers ─────────────────────────────────────────

/// The texts of the elements that lie in the running zone (the top of the
/// page) of one page.
#[derive(Debug, Clone)]
pub struct RunningZone {
    pub page_number: u32,
    pub texts: Vec<String>,
}

/// A trimmed text that may be a running element: not empty, and not made
/// of digits and whitespace only (page numbers are handled apart).
pub open spec fn running_candidate(t: Seq<char>) -> bool {
    t.len() > 0 && !(forall|i: int| 0 <= i < t.len() ==> ascii_digit(#[trigger] t[i]) || is_ws(t[i]))
}

/// The running zone of a page shows the (trimmed, candidate) text `t`.
pub open spec fn zone_shows(texts: Seq<Seq<char>>, t: Seq<char>) -> bool {
    running_candidate(t) && exists|j: int| 0 <= j < texts.len() && trim(#[trigger] texts[j]) == t
}

/// The numbers of the pages whose running zone shows `t`, in page order.
pub open spec fn pages_showing(zones: Seq<RunningZone>, t: Seq<char>) -> Seq<u32>
    decreases zones.len(),
{
    if zones.len() == 0 {
        Seq::empty()
    } else {
        let r = pages_showing(zones.drop_last(), t);
        if zone_shows(string_views(zones.last().texts@), t) {
            r.push(zones.last().page_number)
        } else {
            r
        }
    }
}

/// Greatest value (0 for none).
pub open spec fn seq_max(ns: Seq<u32>) -> int
    decreases ns.len(),
{
    if ns.len() == 0 {
        0
    } else if ns.len() == 1 || ns.last() > seq_max(ns.drop_last()) {
        ns.last() as int
    } else {
        seq_max(ns.drop_last())
    }
}

/// Least value (0 for none).
pub open spec fn seq_min(ns: Seq<u32>) -> int
    decreases ns.len(),
{
    if ns.len() == 0 {
        0
    } else if ns.len() == 1 || ns.last() < seq_min(ns.drop_last()) {
        ns.last() as int
    } else {
        seq_min(ns.drop_last())
    }
}

/// `t` is a running header or footer: it shows in the running zone of at
/// least three pages, and the average gap between consecutive such pages
/// is at most four pages.
pub open spec fn is_running_text(zones: Seq<RunningZone>, t: Seq<char>) -> bool {
    let ns = pages_showing(zones, t);
    ns.len() >= 3 && seq_max(ns) - seq_min(ns) <= 4 * (ns.len() - 1)
}

/// Whether the trimmed text is a running candidate.
fn is_running_candidate(t: &Vec<char>) -> (b: bool)
    ensures
        b == running_candidate(t@),
{
    if t.len() == 0 {
        return false;
    }
    let mut i: usize = 0;
    while i < t.len()
        invariant
            i <= t.len(),
            forall|k: int| 0 <= k < i ==> ascii_digit(#[trigger] t@[k]) || is_ws(t@[k]),
        decreases t.len() - i,
    {
        if !(is_ascii_digit(t[i]) || is_whitespace(t[i])) {
            return true;
        }
        i += 1;
    }
    false
}

/// Whether two character vectors are equal.
pub fn same_chars(a: &Vec<char>, b: &Vec<char>) -> (r: bool)
    ensures
        r == (a@ == b@),
{
    if a.len() != b.len() {
        return false;
    }
    let r = matches_at(a, b, 0);
    assert(a@.subrange(0, b@.len() as int) == a@);
    r
}

/// Whether the running zone shows `t`.
fn zone_shows_text(texts: &Vec<String>, t: &Vec<char>) -> (b: bool)
    ensures
        b == zone_shows(string_views(texts@), t@),
{
    if !is_running_candidate(t) {
        return false;
    }
    let mut j: usize = 0;
    while j < texts.len()
        invariant
            j <= texts.len(),
            running_candidate(t@),
            forall|k: int| 0 <= k < j ==> trim(#[trigger] string_views(texts@)[k]) != t@,
        decreases texts.len() - j,
    {
        let v = chars_of(texts[j].as_str());
        let tv = trim_chars(&v);
        if same_chars(&tv, t) {
            assert(string_views(texts@)[j as int] == texts@[j as int]@);
            assert(trim(string_views(texts@)[j as int]) == t@);
            return true;
        }
        assert(string_views(texts@)[j as int] == texts@[j as int]@);
        j += 1;
    }
    false
}

/// Detects running headers and footers: texts at the top of the page that
/// repeat on at least three pages, at most four pages apart on average.
/// Each such text is listed once, in the order of first appearance.
pub fn detect_running_elements(zones: &Vec<RunningZone>) -> (r: Vec<String>)
    ensures
        string_views(r@).no_duplicates(),
        forall|k: int| 0 <= k < r.len() ==> is_running_text(zones@, #[trigger] r@[k]@),
        forall|t: Seq<char>| is_running_text(zones@, t) ==> string_views(r@).contains(t),
{
    // Every candidate text, once.
    let mut cands: Vec<Vec<char>> = Vec::new();
    let mut p: usize = 0;
    while p < zones.len()
        invariant
            p <= zones.len(),
            views(cands@).no_duplicates(),
            forall|t: Seq<char>| #[trigger] pages_showing(zones@.take(p as int), t).len() > 0 ==> views(cands@).contains(t),
        decreases zones.len() - p,
    {
        let texts = &zones[p].texts;
        let ghost before = cands@;
        let mut q: usize = 0;
        while q < texts.len()
            invariant
                q <= texts.len(),
                views(cands@).no_duplicates(),
                forall|t: Seq<char>| #[trigger] views(before).contains(t) ==> views(cands@).contains(t),
                forall|k: int| 0 <= k < q && running_candidate(trim(#[trigger] string_views(texts@)[k])) ==> views(cands@).contains(trim(string_views(texts@)[k])),
            decreases texts.len() - q,
        {
            let v = chars_of(texts[q].as_str());
            let t = trim_chars(&v);
            assert(string_views(texts@)[q as int] == texts@[q as int]@);
            if is_running_candidate(&t) {
                let mut known = false;
                let mut c: usize = 0;
                while c < cands.len()
                    invariant
                        c <= cands.len(),
                        known ==> views(cands@).contains(t@),
                        !known ==> forall|m: int| 0 <= m < c ==> cands@[m]@ != t@,
                    decreases cands.len() - c,
                {
                    if same_chars(&cands[c], &t) {
                        known = true;
                        assert(views(cands@)[c as int] == t@);
                    }
                    c += 1;
                }
                if !known {
                    let ghost c0 = cands@;
                    cands.push(t);
                    proof {
                        assert(views(cands@) =~= views(c0).push(t@));
                        assert(!views(c0).contains(t@)) by {
                            if views(c0).contains(t@) {
                                let m = choose|m: int| 0 <= m < views(c0).len() && views(c0)[m] == t@;
                                assert(c0[m]@ == t@);
                            }
                        }
                        assert(views(cands@).no_duplicates()) by {
                            assert forall|a: int, b: int| 0 <= a < b < views(cands@).len() implies views(cands@)[a] != views(cands@)[b] by {
                                if b < views(c0).len() {
                                } else {
                                    assert(views(c0)[a] == views(cands@)[a]);
                                }
                            }
                        }
                        assert forall|u: Seq<char>| #[trigger] views(before).contains(u) implies views(cands@).contains(u) by {
                            assert(views(c0).contains(u));
                            let m = choose|m: int| 0 <= m < views(c0).len() && views(c0)[m] == u;
                            assert(views(cands@)[m] == u);
                        }
                        assert forall|k: int| 0 <= k < q + 1 && running_candidate(trim(#[trigger] string_views(texts@)[k])) implies views(cands@).contains(trim(string_views(texts@)[k])) by {
                            if k < q {
                                let u = trim(string_views(texts@)[k]);
                                assert(views(c0).contains(u));
                                let m = choose|m: int| 0 <= m < views(c0).len() && views(c0)[m] == u;
                                assert(views(cands@)[m] == u);
                            } else {
                                assert(views(cands@)[views(c0).len() as int] == t@);
                            }
                        }
                    }
                }
            }
            q += 1;
        }
        proof {
            let zs = zones@.take(p + 1);
            assert(zs.drop_last() == zones@.take(p as int));
            assert(zs.last() == zones@[p as int]);
            assert forall|t: Seq<char>| #[trigger] pages_showing(zs, t).len() > 0 implies views(cands@).contains(t) by {
                if pages_showing(zones@.take(p as int), t).len() > 0 {
                    assert(views(before).contains(t));
                } else {
                    assert(zone_shows(string_views(texts@), t));
                    let j = choose|j: int| 0 <= j < string_views(texts@).len() && trim(#[trigger] string_views(texts@)[j]) == t;
                }
            }
        }
        p += 1;
    }
    assert(zones@.take(zones.len() as int) == zones@);
    // Keep the candidates that are running.
    let mut r: Vec<String> = Vec::new();
    let mut c: usize = 0;
    while c < cands.len()
        invariant
            c <= cands.len(),
            views(cands@).no_duplicates(),
            forall|t: Seq<char>| #[trigger] pages_showing(zones@, t).len() > 0 ==> views(cands@).contains(t),
            string_views(r@).no_duplicates(),
            forall|k: int| 0 <= k < r.len() ==> is_running_text(zones@, #[trigger] r@[k]@),
            forall|k: int| 0 <= k < r.len() ==> exists|m: int| 0 <= m < c && cands@[m]@ == #[trigger] r@[k]@,
            forall|m: int| 0 <= m < c && is_running_text(zones@, #[trigger] cands@[m]@) ==> string_views(r@).contains(cands@[m]@),
        decreases cands.len() - c,
    {
        let t = &cands[c];
        // Pages that show it, with their count, least and greatest number.
        let mut count: u64 = 0;
        let mut lo: u32 = 0;
        let mut hi: u32 = 0;
        let mut p: usize = 0;
        while p < zones.len()
            invariant
                p <= zones.len(),
                count == pages_showing(zones@.take(p as int), t@).len(),
                count <= p,
                lo == seq_min(pages_showing(zones@.take(p as int), t@)),
                hi == seq_max(pages_showing(zones@.take(p as int), t@)),
            decreases zones.len() - p,
        {
            let ghost zs = zones@.take(p + 1);
            assert(zs.drop_last() == zones@.take(p as int));
            assert(zs.last() == zones@[p as int]);
            let ghost ns = pages_showing(zones@.take(p as int), t@);
            if zone_shows_text(&zones[p].texts, t) {
                let n = zones[p].page_number;
                assert(pages_showing(zs, t@) == ns.push(n));
                assert(ns.push(n).drop_last() == ns);
                if count == 0 || n < lo {
                    lo = n;
                }
                if count == 0 || n > hi {
                    hi = n;
                }
                count += 1;
            }
            p += 1;
        }
        assert(zones@.take(zones.len() as int) == zones@);
        let running = count >= 3 && (hi as u128) <= (lo as u128) + 4 * ((count - 1) as u128);
        if running {
            let ghost r0 = r@;
            let ts = string_of(t);
            r.push(ts);
            proof {
                assert(string_views(r@) =~= string_views(r0).push(t@));
                assert(!string_views(r0).contains(t@)) by {
                    if string_views(r0).contains(t@) {
                        let k = choose|k: int| 0 <= k < string_views(r0).len() && string_views(r0)[k] == t@;
                        assert(r0[k]@ == t@);
                        let m = choose|m: int| 0 <= m < c && cands@[m]@ == #[trigger] r0[k]@;
                        assert(views(cands@)[m] == views(cands@)[c as int]);
                    }
                }
                assert(string_views(r@).no_duplicates()) by {
                    assert forall|a: int, b: int| 0 <= a < b < string_views(r@).len() implies string_views(r@)[a] != string_views(r@)[b] by {
                        if b < string_views(r0).len() {
                        } else {
                            assert(string_views(r0)[a] == string_views(r@)[a]);
                        }
                    }
                }
                assert forall|k: int| 0 <= k < r.len() implies exists|m: int| 0 <= m < c + 1 && cands@[m]@ == #[trigger] r@[k]@ by {
                    if k < r0.len() {
                        assert(r@[k] == r0[k]);
                        let m = choose|m: int| 0 <= m < c && cands@[m]@ == #[trigger] r0[k]@;
                    } else {
                        assert(cands@[c as int]@ == r@[k]@);
                    }
                }
                assert forall|k: int| 0 <= k < r.len() implies is_running_text(zones@, #[trigger] r@[k]@) by {
                    if k < r0.len() {
                        assert(r@[k] == r0[k]);
                    }
                }
                assert forall|m: int| 0 <= m < c + 1 && is_running_text(zones@, #[trigger] cands@[m]@) implies string_views(r@).contains(cands@[m]@) by {
                    if m < c {
                        let k = choose|k: int| 0 <= k < string_views(r0).len() && string_views(r0)[k] == cands@[m]@;
                        assert(string_views(r@)[k] == cands@[m]@);
                    } else {
                        assert(string_views(r@)[r0.len() as int] == t@);
                    }
                }
            }
        } else {
            proof {
                assert forall|k: int| 0 <= k < r.len() implies exists|m: int| 0 <= m < c + 1 && cands@[m]@ == #[trigger] r@[k]@ by {
                    let m = choose|m: int| 0 <= m < c && cands@[m]@ == #[trigger] r@[k]@;
                }
            }
        }
        c += 1;
    }
    proof {
        assert forall|t: Seq<char>| is_running_text(zones@, t) implies string_views(r@).contains(t) by {
            assert(pages_showing(zones@, t).len() > 0);
            assert(views(cands@).contains(t));
            let m = choose|m: int| 0 <= m < views(cands@).len() && views(cands@)[m] == t;
            assert(cands@[m]@ == t);
        }
    }
    r
}


// ─── Lines of a page ─────────────────────────────────────────────────────

/// The text elements that lie on one line of a page, left to right, with
/// what the caller measured of their geometry.
#[derive(Debug, Clone)]
pub struct LineGroup {
    pub elements: Vec<TextElement>,
    /// For each element: a real horizontal gap separates it from the
    /// element before it, so a space goes between their texts.
    pub space_before: Vec<bool>,
    /// The line lies in the running zone at the top of the page.
    pub in_running_zone: bool,
    /// The line fills enough of the text width for a paragraph to go on.
    pub fills_width: bool,
    /// For each earlier group of the page: this line sits close enough
    /// below that one for a paragraph to go on from it.
    pub close_below: Vec<bool>,
}

/// The texts of the elements concatenated, with one space where a gap
/// separates an element from the previous one (never at the start).
pub open spec fn joined_text(els: Seq<TextElement>, space: Seq<bool>) -> Seq<char>
    decreases els.len(),
{
    if els.len() == 0 {
        Seq::empty()
    } else {
        let acc = joined_text(els.drop_last(), space);
        let k = els.len() - 1;
        if acc.len() > 0 && k < space.len() && space[k] {
            acc.push(' ') + els.last().text@
        } else {
            acc + els.last().text@
        }
    }
}

/// The text of a line: its elements joined, trimmed.
pub open spec fn group_text(g: LineGroup) -> Seq<char> {
    trim(joined_text(g.elements@, g.space_before@))
}

/// The lines of the groups seen so far and the index of the group of the
/// most recent body line.
pub open spec fn built_lines_state(
    groups: Seq<LineGroup>,
    body_size: u32,
    heading_threshold: u32,
    running: Seq<Seq<char>>,
) -> (Seq<LineView>, Option<int>)
    decreases groups.len(),
{
    if groups.len() == 0 {
        (Seq::empty(), None)
    } else {
        let (ls, last_body) = built_lines_state(groups.drop_last(), body_size, heading_threshold, running);
        let g = groups.last();
        let t = group_text(g);
        if t.len() == 0 {
            (ls, last_body)
        } else {
            let font = dominant_size_of(g.elements@, body_size);
            let kind = line_kind(t, font, heading_threshold, g.in_running_zone, running);
            let near = match last_body {
                Some(b) => b < g.close_below.len() && g.close_below[b],
                None => false,
            };
            let line = LineView {
                text: t,
                font_size: font,
                ends_sentence: ends_in_sentence(t),
                kind,
                near_previous_body: near,
                fills_width: g.fills_width,
            };
            (ls.push(line), if kind == LineKind::Body {
                Some(groups.len() - 1)
            } else {
                last_body
            })
        }
    }
}

/// The lines of a page: one per group with a non-empty text.
pub open spec fn built_lines(
    groups: Seq<LineGroup>,
    body_size: u32,
    heading_threshold: u32,
    running: Seq<Seq<char>>,
) -> Seq<LineView> {
    built_lines_state(groups, body_size, heading_threshold, running).0
}

/// The texts of the elements joined into one line text.
fn join_elements(els: &Vec<TextElement>, space: &Vec<bool>) -> (r: Vec<char>)
    ensures
        r@ == joined_text(els@, space@),
{
    let mut acc: Vec<char> = Vec::new();
    let mut k: usize = 0;
    while k < els.len()
        invariant
            k <= els.len(),
            acc@ == joined_text(els@.take(k as int), space@),
        decreases els.len() - k,
    {
        assert(els@.take(k + 1).drop_last() == els@.take(k as int));
        assert(els@.take(k + 1).last() == els@[k as int]);
        if acc.len() > 0 && k < space.len() && space[k] {
            acc.push(' ');
        }
        extend_str(&mut acc, els[k].text.as_str());
        k += 1;
    }
    assert(els@.take(els.len() as int) == els@);
    acc
}

/// Builds and classifies the lines of a page from its groups, top to bottom.
pub fn build_lines(
    groups: &Vec<LineGroup>,
    body_size: u32,
    heading_threshold: u32,
    running: &Vec<String>,
) -> (r: Vec<LayoutLine>)
    requires
        forall|i: int| 0 <= i < groups.len() ==> total_chars(#[trigger] groups@[i].elements@) <= usize::MAX,
    ensures
        line_views(r@) == built_lines(groups@, body_size, heading_threshold, string_views(running@)),
{
    let ghost rs = string_views(running@);
    let mut lines: Vec<LayoutLine> = Vec::new();
    let mut last_body: Option<usize> = None;
    let mut i: usize = 0;
    while i < groups.len()
        invariant
            i <= groups.len(),
            rs == string_views(running@),
            forall|i: int| 0 <= i < groups.len() ==> total_chars(#[trigger] groups@[i].elements@) <= usize::MAX,
            (line_views(lines@), match last_body {
                Some(b) => Some(b as int),
                None => None,
            }) == built_lines_state(groups@.take(i as int), body_size, heading_threshold, rs),
            last_body matches Some(b) ==> b < i,
        decreases groups.len() - i,
    {
        let g = &groups[i];
        proof {
            assert(groups@.take(i + 1).drop_last() == groups@.take(i as int));
            assert(groups@.take(i + 1).last() == groups@[i as int]);
        }
        let joined = join_elements(&g.elements, &g.space_before);
        let t = trim_chars(&joined);
        if t.len() > 0 {
            let font = dominant_font_size(&g.elements, body_size);
            let kind = classify_line(&t, font, heading_threshold, g.in_running_zone, running);
            proof {
                lemma_trim_idempotent(joined@);
            }
            let near = match last_body {
                Some(b) => b < g.close_below.len() && g.close_below[b],
                None => false,
            };
            let ends = ends_sentence(&t);
            let line = LayoutLine {
                text: string_of(&t),
                font_size: font,
                ends_sentence: ends,
                kind,
                near_previous_body: near,
                fills_width: g.fills_width,
            };
            let ghost l0 = lines@;
            lines.push(line);
            assert(line_views(lines@) =~= line_views(l0).push(line@));
            if kind == LineKind::Body {
                last_body = Some(i);
            }
        }
        i += 1;
    }
    assert(groups@.take(groups.len() as int) == groups@);
    lines
}

} // verus!
