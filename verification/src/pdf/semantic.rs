//! Chapters to XHTML fragments: headings, paragraphs, dialogue, quotations
//! and scene breaks.
use vstd::prelude::*;
use crate::markup::{escaped, extend_escaped};
use crate::patterns::{replace_all, replaced};
use crate::pdf::Chapter;
use crate::text::{
    chars_of, extend_chars, extend_str, join, join_chars, lines, lines_of, same_chars_str,
    split_blank, split_blank_of, split_blank_state, string_of, string_views, trim, trim_chars, views,
};
use crate::unicode::{lowercased, to_lowercase};

verus! {

/// Turns structured chapters into XHTML fragments for the EPUB assembler.
pub struct SemanticStructurer;

/// A block with runs of two or more spaces or tabs collapsed to one space
/// (pattern `[ \t]{2,}`), after trimming.
pub open spec fn normalized_spaces(s: Seq<char>) -> Seq<char> {
    replaced("[ \\t]{2,}"@, trim(s), " "@)
}

/// Collapses runs of spaces and tabs in the trimmed text.
fn normalize_spaces(s: &Vec<char>) -> (r: Vec<char>)
    ensures
        r@ == normalized_spaces(s@),
{
    let t = trim_chars(s);
    let ts = string_of(&t);
    let r = replace_all("[ \\t]{2,}", ts.as_str(), " ");
    chars_of(r.as_str())
}

/// The non-empty trimmed blocks between blank lines.
pub open spec fn blocks(text: Seq<char>) -> Seq<Seq<char>> {
    split_blank(text).map_values(|b: Seq<char>| trim(b)).filter(|b: Seq<char>| b.len() > 0)
}

/// The XHTML of one block:
///  - `* * *` or `***`: a horizontal rule;
///  - starting with a dash (`—`, `–`): a dialogue paragraph;
///  - starting with a quotation mark (`"`, `«`): a block quotation;
///  - otherwise a paragraph whose lines are joined by spaces.
pub open spec fn block_xhtml(b: Seq<char>) -> Seq<char> {
    let first = if b.len() > 0 {
        b[0]
    } else {
        ' '
    };
    if trim(b) == "* * *"@ || trim(b) == "***"@ {
        "<hr/>\n"@
    } else if first == '—' || first == '–' {
        "<p class=\"dialogue\">"@ + escaped(normalized_spaces(b)) + "</p>\n"@
    } else if first == '"' || first == '«' {
        "<blockquote><p>"@ + escaped(normalized_spaces(b)) + "</p></blockquote>\n"@
    } else {
        "<p>"@ + escaped(
            normalized_spaces(join(lines(b).map_values(|l: Seq<char>| trim(l)), " "@)),
        ) + "</p>\n"@
    }
}

proof fn lemma_trim_end_prefix(s: Seq<char>)
    ensures
        crate::text::trim_end(s).len() <= s.len(),
        forall|i: int| 0 <= i < crate::text::trim_end(s).len() ==> crate::text::trim_end(s)[i] == s[i],
    decreases s.len(),
{
    if s.len() > 0 && crate::text::is_ws(s.last()) {
        lemma_trim_end_prefix(s.drop_last());
        assert forall|i: int| 0 <= i < s.drop_last().len() implies s.drop_last()[i] == s[i] by {}
    }
}

/// A block that opens with a guillemet `«` is a quotation, as one that opens
/// with `"` is: a single `blockquote` paragraph around its text, spaces
/// collapsed and escaped (no markup of its own between the two).
pub proof fn lemma_quotation_blocks(b: Seq<char>)
    requires
        b.len() > 0,
        b[0] == '«' || b[0] == '"',
    ensures
        ({
            let x = block_xhtml(b);
            let open = "<blockquote><p>"@;
            let close = "</p></blockquote>\n"@;
            &&& x.len() >= open.len() + close.len()
            &&& x.take(open.len() as int) == open
            &&& x.skip(x.len() - close.len()) == close
            &&& forall|i: int| open.len() <= i < x.len() - close.len() ==> x[i] != '<'
            &&& x.subrange(open.len() as int, x.len() - close.len()) == escaped(normalized_spaces(b))
        }),
{
    reveal_strlit("* * *");
    reveal_strlit("***");
    reveal_strlit("<blockquote><p>");
    reveal_strlit("</p></blockquote>\n");
    assert(!crate::text::is_ws(b[0]));
    assert(crate::text::trim_start(b) == b);
    lemma_trim_end_prefix(b);
    if trim(b).len() > 0 {
        assert(trim(b)[0] == b[0]);
    }
    assert(trim(b) != "* * *"@ && trim(b) != "***"@);
    let c = escaped(normalized_spaces(b));
    crate::markup::lemma_escaped_has_no_markup(normalized_spaces(b));
    let open = "<blockquote><p>"@;
    let close = "</p></blockquote>\n"@;
    let x = open + c + close;
    assert(block_xhtml(b) == x);
    assert(x.take(open.len() as int) =~= open);
    assert(x.skip(x.len() - close.len()) =~= close);
    assert(x.subrange(open.len() as int, x.len() - close.len()) =~= c);
    assert forall|i: int| open.len() <= i < x.len() - close.len() implies x[i] != '<' by {
        assert(x[i] == c[i - open.len()]);
        let y = c[i - open.len()];
    }
}

/// The XHTML of the blocks, in order.
pub open spec fn blocks_xhtml(bs: Seq<Seq<char>>) -> Seq<char>
    decreases bs.len(),
{
    if bs.len() == 0 {
        Seq::empty()
    } else {
        blocks_xhtml(bs.drop_last()) + block_xhtml(bs.last())
    }
}

/// The XHTML of a chapter body.
pub open spec fn structured(text: Seq<char>) -> Seq<char> {
    blocks_xhtml(blocks(text))
}

/// The blocks of two texts joined by a blank line, when the first does not
/// end with a newline: the separator is found where it was put.
proof fn lemma_blocks_concat_plain(a: Seq<char>, b: Seq<char>)
    requires
        a.len() == 0 || a.last() != '\n',
    ensures
        blocks(a + "\n\n"@ + b) == blocks(a) + blocks(b),
{
    crate::text::lemma_split_blank_concat(a, b);
    let pa = split_blank(a).map_values(|x: Seq<char>| trim(x));
    let pb = split_blank(b).map_values(|x: Seq<char>| trim(x));
    assert(split_blank(a + "\n\n"@ + b).map_values(|x: Seq<char>| trim(x)) =~= pa + pb);
    Seq::filter_distributes_over_add(pa, pb, |x: Seq<char>| x.len() > 0);
}

proof fn lemma_blocks_empty()
    ensures
        blocks(Seq::<char>::empty()) == Seq::<Seq<char>>::empty(),
{
    reveal(Seq::filter);
    assert(split_blank_state(Seq::<char>::empty()) == (Seq::<Seq<char>>::empty(), Seq::<char>::empty()));
    let m = split_blank(Seq::<char>::empty()).map_values(|x: Seq<char>| trim(x));
    assert(m =~= seq![Seq::<char>::empty()]);
    assert(m.drop_last() =~= Seq::<Seq<char>>::empty());
    assert(m.last().len() == 0);
    assert(Seq::<Seq<char>>::empty().filter(|x: Seq<char>| x.len() > 0) =~= Seq::<Seq<char>>::empty());
    assert(m.filter(|x: Seq<char>| x.len() > 0) == m.drop_last().filter(|x: Seq<char>| x.len() > 0));
    assert(m.filter(|x: Seq<char>| x.len() > 0) =~= Seq::<Seq<char>>::empty());
}

/// A leading newline changes no block.
proof fn lemma_blocks_newline_front(b: Seq<char>)
    ensures
        blocks(seq!['\n'] + b) == blocks(b),
    decreases b.len(),
{
    if b.len() > 0 && b[0] == '\n' {
        let b1 = b.drop_first();
        reveal_strlit("\n\n");
        assert(seq!['\n'] + b =~= Seq::<char>::empty() + "\n\n"@ + b1);
        lemma_blocks_concat_plain(Seq::<char>::empty(), b1);
        lemma_blocks_empty();
        assert(Seq::<Seq<char>>::empty() + blocks(b1) =~= blocks(b1));
        lemma_blocks_newline_front(b1);
        assert(b =~= seq!['\n'] + b1);
    } else {
        crate::text::lemma_split_blank_state_newline_front(b);
        let (d, c) = split_blank_state(b);
        if d.len() == 0 {
            crate::text::lemma_trim_newline_front(c);
        } else {
            crate::text::lemma_trim_newline_front(d[0]);
        }
        assert(split_blank(seq!['\n'] + b).map_values(|x: Seq<char>| trim(x)) =~= split_blank(b).map_values(
            |x: Seq<char>| trim(x),
        ));
    }
}

/// A trailing newline changes no block.
proof fn lemma_blocks_newline_back(a: Seq<char>)
    ensures
        blocks(a.push('\n')) == blocks(a),
    decreases a.len(),
{
    if a.len() > 0 && a.last() == '\n' {
        let a1 = a.drop_last();
        reveal_strlit("\n\n");
        assert(a.push('\n') =~= a1 + "\n\n"@ + Seq::<char>::empty());
        lemma_blocks_concat(a1, Seq::<char>::empty());
        lemma_blocks_empty();
        assert(blocks(a1) + Seq::<Seq<char>>::empty() =~= blocks(a1));
        lemma_blocks_newline_back(a1);
        assert(a =~= a1.push('\n'));
    } else {
        let (d, c) = split_blank_state(a);
        if a.len() > 0 {
            assert(c.len() > 0 && c.last() == a.last()) by {
                let (d0, c0) = split_blank_state(a.drop_last());
            }
        }
        assert(a.push('\n').drop_last() =~= a);
        assert(split_blank_state(a.push('\n')) == (d, c.push('\n')));
        crate::text::lemma_trim_newline_back(c);
        assert(split_blank(a.push('\n')).map_values(|x: Seq<char>| trim(x)) =~= split_blank(a).map_values(
            |x: Seq<char>| trim(x),
        ));
    }
}

/// The blocks of two texts joined by a blank line are those of the first
/// followed by those of the second.
pub proof fn lemma_blocks_concat(a: Seq<char>, b: Seq<char>)
    ensures
        blocks(a + "\n\n"@ + b) == blocks(a) + blocks(b),
    decreases a.len(),
{
    if a.len() > 0 && a.last() == '\n' {
        let a1 = a.drop_last();
        reveal_strlit("\n\n");
        assert(a + "\n\n"@ + b =~= a1 + "\n\n"@ + (seq!['\n'] + b));
        lemma_blocks_concat(a1, seq!['\n'] + b);
        lemma_blocks_newline_back(a1);
        assert(a =~= a1.push('\n'));
        lemma_blocks_newline_front(b);
    } else {
        lemma_blocks_concat_plain(a, b);
    }
}

/// The XHTML of blocks is that of each block in turn.
pub proof fn lemma_blocks_xhtml_concat(x: Seq<Seq<char>>, y: Seq<Seq<char>>)
    ensures
        blocks_xhtml(x + y) == blocks_xhtml(x) + blocks_xhtml(y),
    decreases y.len(),
{
    if y.len() == 0 {
        assert(x + y =~= x);
        assert(blocks_xhtml(x) + Seq::<char>::empty() =~= blocks_xhtml(x));
    } else {
        lemma_blocks_xhtml_concat(x, y.drop_last());
        assert((x + y).drop_last() =~= x + y.drop_last());
        assert((x + y).last() == y.last());
        assert(blocks_xhtml(x) + blocks_xhtml(y.drop_last()) + block_xhtml(y.last()) =~= blocks_xhtml(x)
            + (blocks_xhtml(y.drop_last()) + block_xhtml(y.last())));
    }
}

/// Blocks are structured independently: the XHTML of two texts joined by a
/// blank line is the XHTML of the first followed by that of the second.
pub proof fn lemma_structured_concat(a: Seq<char>, b: Seq<char>)
    ensures
        structured(a + "\n\n"@ + b) == structured(a) + structured(b),
{
    lemma_blocks_concat(a, b);
    lemma_blocks_xhtml_concat(blocks(a), blocks(b));
}

/// The XHTML of a chapter: an `<h1>` with the title lines (each trimmed
/// and escaped, separated by `<br/>`) when the title is not empty, then
/// the body.
pub open spec fn chapter_xhtml(title: Seq<char>, body: Seq<char>) -> Seq<char> {
    if title.len() > 0 {
        "<h1>"@ + join(lines(title).map_values(|l: Seq<char>| escaped(trim(l))), "<br/>"@)
            + "</h1>\n"@ + structured(body)
    } else {
        structured(body)
    }
}

/// Words too common to carry meaning (Spanish and English).
pub open spec fn common_words() -> Seq<Seq<char>> {
    seq![
        "el"@, "la"@, "los"@, "las"@, "un"@, "una"@, "unos"@, "unas"@, "y"@, "e"@, "o"@, "u"@,
        "de"@, "del"@, "al"@, "en"@, "con"@, "por"@, "para"@, "que"@, "se"@, "su"@, "sus"@, "es"@,
        "son"@, "fue"@, "fueron"@, "ha"@, "han"@, "no"@, "si"@, "sí"@, "pero"@, "como"@, "más"@,
        "muy"@, "todo"@, "todos"@, "the"@, "and"@, "of"@, "to"@, "a"@, "in"@, "for"@, "is"@,
        "on"@, "that"@,
    ]
}

fn common_word_list() -> (v: Vec<&'static str>)
    ensures
        v@.map_values(|w: &str| w@) == common_words(),
{
    let v = vec![
        "el", "la", "los", "las", "un", "una", "unos", "unas", "y", "e", "o", "u", "de", "del",
        "al", "en", "con", "por", "para", "que", "se", "su", "sus", "es", "son", "fue", "fueron",
        "ha", "han", "no", "si", "sí", "pero", "como", "más", "muy", "todo", "todos", "the", "and",
        "of", "to", "a", "in", "for", "is", "on", "that",
    ];
    assert(v@.map_values(|w: &str| w@) =~= common_words());
    v
}

impl SemanticStructurer {
    /// The XHTML fragment of a chapter.
    pub fn structure_chapter(chapter: &Chapter) -> (r: String)
        ensures
            r@ == chapter_xhtml(chapter.title@, chapter.body@),
    {
        let mut out: Vec<char> = Vec::new();
        let title = chars_of(chapter.title.as_str());
        if title.len() > 0 {
            let ls = lines_of(&title);
            let mut parts: Vec<Vec<char>> = Vec::new();
            let mut i: usize = 0;
            while i < ls.len()
                invariant
                    i <= ls.len(),
                    views(parts@) == views(ls@).take(i as int).map_values(|l: Seq<char>| escaped(trim(l))),
                decreases ls.len() - i,
            {
                let t = trim_chars(&ls[i]);
                let mut e: Vec<char> = Vec::new();
                extend_escaped(&mut e, &t);
                let ghost p0 = parts@;
                parts.push(e);
                proof {
                    let f = |l: Seq<char>| escaped(trim(l));
                    assert(views(parts@) =~= views(p0).push(escaped(trim(ls@[i as int]@))));
                    assert(views(ls@).take(i + 1) =~= views(ls@).take(i as int).push(ls@[i as int]@));
                    assert(views(ls@).take(i + 1).map_values(f) =~= views(ls@).take(i as int).map_values(f).push(f(ls@[i as int]@)));
                }
                i += 1;
            }
            assert(views(ls@).take(ls.len() as int) == views(ls@));
            extend_str(&mut out, "<h1>");
            let joined = join_chars(&parts, "<br/>");
            extend_chars(&mut out, &joined);
            extend_str(&mut out, "</h1>\n");
        }
        let body = Self::structure(chapter.body.as_str());
        extend_str(&mut out, body.as_str());
        proof {
            if title@.len() > 0 {
                assert(out@ =~= chapter_xhtml(chapter.title@, chapter.body@));
            } else {
                assert(out@ =~= chapter_xhtml(chapter.title@, chapter.body@));
            }
        }
        string_of(&out)
    }

    /// The XHTML of a chapter body: one element per non-empty block.
    pub fn structure(text: &str) -> (r: String)
        ensures
            r@ == structured(text@),
    {
        let v = chars_of(text);
        let pieces = split_blank_of(&v);
        let mut bs: Vec<Vec<char>> = Vec::new();
        let ghost tr = views(pieces@).map_values(|b: Seq<char>| trim(b));
        let mut i: usize = 0;
        while i < pieces.len()
            invariant
                i <= pieces.len(),
                tr == views(pieces@).map_values(|b: Seq<char>| trim(b)),
                views(bs@) == tr.take(i as int).filter(|b: Seq<char>| b.len() > 0),
            decreases pieces.len() - i,
        {
            proof {
                reveal(Seq::filter);
                assert(tr.take(i + 1).drop_last() == tr.take(i as int));
                assert(tr.take(i + 1).last() == trim(pieces@[i as int]@));
            }
            let t = trim_chars(&pieces[i]);
            if t.len() > 0 {
                let ghost b0 = bs@;
                bs.push(t);
                assert(views(bs@) =~= views(b0).push(views(bs@).last()));
            }
            i += 1;
        }
        assert(tr.take(pieces.len() as int) == tr);
        Self::blocks_to_xhtml(&bs)
    }

    fn blocks_to_xhtml(bs: &Vec<Vec<char>>) -> (r: String)
        ensures
            r@ == blocks_xhtml(views(bs@)),
    {
        let mut out: Vec<char> = Vec::new();
        let mut i: usize = 0;
        while i < bs.len()
            invariant
                i <= bs.len(),
                out@ == blocks_xhtml(views(bs@).take(i as int)),
            decreases bs.len() - i,
        {
            proof {
                assert(views(bs@).take(i + 1).drop_last() == views(bs@).take(i as int));
                assert(views(bs@).take(i + 1).last() == bs@[i as int]@);
            }
            let ghost o = out@;
            Self::push_block(&mut out, &bs[i]);
            i += 1;
        }
        assert(views(bs@).take(bs.len() as int) == views(bs@));
        string_of(&out)
    }

    fn push_block(out: &mut Vec<char>, b: &Vec<char>)
        ensures
            final(out)@ == old(out)@ + block_xhtml(b@),
    {
        let first = if b.len() > 0 {
            b[0]
        } else {
            ' '
        };
        let t = trim_chars(b);
        if same_chars_str(&t, "* * *") || same_chars_str(&t, "***") {
            extend_str(out, "<hr/>\n");
            return ;
        }
        if first == '—' || first == '–' {
            let norm = normalize_spaces(b);
            extend_str(out, "<p class=\"dialogue\">");
            extend_escaped(out, &norm);
            extend_str(out, "</p>\n");
            return ;
        }
        if first == '"' || first == '«' {
            let norm = normalize_spaces(b);
            extend_str(out, "<blockquote><p>");
            extend_escaped(out, &norm);
            extend_str(out, "</p></blockquote>\n");
            return ;
        }
        let ls = lines_of(b);
        let mut tl: Vec<Vec<char>> = Vec::new();
        let mut i: usize = 0;
        while i < ls.len()
            invariant
                i <= ls.len(),
                views(tl@) == views(ls@).take(i as int).map_values(|l: Seq<char>| trim(l)),
            decreases ls.len() - i,
        {
            let t = trim_chars(&ls[i]);
            let ghost t0 = tl@;
            tl.push(t);
            proof {
                let f = |l: Seq<char>| trim(l);
                assert(views(tl@) =~= views(t0).push(trim(ls@[i as int]@)));
                assert(views(ls@).take(i + 1) =~= views(ls@).take(i as int).push(ls@[i as int]@));
                assert(views(ls@).take(i + 1).map_values(f) =~= views(ls@).take(i as int).map_values(f).push(f(ls@[i as int]@)));
            }
            i += 1;
        }
        assert(views(ls@).take(ls.len() as int) == views(ls@));
        let joined = join_chars(&tl, " ");
        let norm = normalize_spaces(&joined);
        extend_str(out, "<p>");
        extend_escaped(out, &norm);
        extend_str(out, "</p>\n");
    }

    /// Whether `w` is a very common word, in any letter case.
    pub fn is_common_word(w: &str) -> (b: bool)
        ensures
            b == common_words().contains(lowercased(w@)),
    {
        let lw = to_lowercase(w);
        let lv = chars_of(lw.as_str());
        let words = common_word_list();
        let mut i: usize = 0;
        while i < words.len()
            invariant
                i <= words.len(),
                words@.map_values(|w: &str| w@) == common_words(),
                lv@ == lowercased(w@),
                forall|k: int| 0 <= k < i ==> common_words()[k] != lv@,
            decreases words.len() - i,
        {
            assert(common_words()[i as int] == words@[i as int]@);
            if same_chars_str(&lv, words[i]) {
                assert(common_words().contains(lv@));
                return true;
            }
            i += 1;
        }
        false
    }
}

} // verus!
