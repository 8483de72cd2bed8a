//! The EPUB assembler's text logic: Markdown fallback, fragment validation
//! and repair, archive entry names and digests.
use vstd::prelude::*;
use crate::digest::{sha256_hex, sha256_hex_of};
use crate::markup::{decimal, decimal_chars, escaped, extend_escaped};
use crate::patterns::{capture, captured, replace_all, replaced};
use crate::pdf::{PdfPipelineError, PipelineStatus};
use crate::xml::{parse_xml, xml_document, XmlNodeView};
use crate::pdf::semantic::blocks;
use crate::pdf::inline::{apply_inline_md, inline_md, lemma_inline_balanced};
use crate::xhtml::{
    balanced, element, lemma_balanced_concat, lemma_element_balanced, lemma_empty_balanced,
    lemma_text_balanced, lemma_wrapped_well_nested, tag_name, tag_of, well_nested,
};
use crate::text::{
    chars_of, copy_chars, count_occurrences, extend_chars, extend_str, join, join_chars,
    lemma_occurrences_half, lines, lines_of, matches_at, occurrences, repeated, split_blank_of,
    starts_with, string_of, sub_chars, trim, trim_chars, trim_str, views,
};

verus! {

/// Validates XHTML fragments and packages them as an EPUB.
pub struct Assembler;

/// `s` with every leading repetition of `p` removed (`trim_start_matches`).
pub open spec fn strip_leading(s: Seq<char>, p: Seq<char>) -> Seq<char>
    decreases s.len(),
{
    if p.len() > 0 && starts_with(s, p) {
        strip_leading(s.skip(p.len() as int), p)
    } else {
        s
    }
}

/// Removes every leading repetition of `p`.
pub fn strip_leading_chars(v: &Vec<char>, p: &str) -> (r: Vec<char>)
    ensures
        r@ == strip_leading(v@, p@),
{
    let pv = chars_of(p);
    if pv.len() == 0 {
        return copy_chars(v);
    }
    let mut i: usize = 0;
    assert(v@.skip(0) =~= v@);
    loop
        invariant
            i <= v.len(),
            pv@ == p@,
            pv.len() > 0,
            strip_leading(v@.skip(i as int), p@) == strip_leading(v@, p@),
        ensures
            i <= v.len(),
            strip_leading(v@.skip(i as int), p@) == strip_leading(v@, p@),
            !starts_with(v@.skip(i as int), p@),
        decreases v.len() - i,
    {
        let m = matches_at(v, &pv, i);
        proof {
            if m || p@.len() <= v@.len() - i {
                assert(v@.skip(i as int).take(p@.len() as int) =~= v@.subrange(
                    i as int,
                    i + p@.len(),
                ));
            }
        }
        if !m {
            break;
        }
        proof {
            assert(v@.skip(i as int).skip(p@.len() as int) =~= v@.skip(i + p@.len()));
        }
        i = i + pv.len();
    }
    let r = sub_chars(v, i, v.len());
    assert(r@ =~= v@.skip(i as int));
    r
}

/// The lines after the first (none when there is none).
pub open spec fn after_first(ls: Seq<Seq<char>>) -> Seq<Seq<char>> {
    if ls.len() > 0 {
        ls.drop_first()
    } else {
        ls
    }
}

/// The lines of a block after its first one, trimmed and joined by spaces.
pub open spec fn remainder_text(block: Seq<char>) -> Seq<char> {
    join(after_first(lines(block)).map_values(|l: Seq<char>| trim(l)), " "@)
}

/// The lines after a heading line stay apart: one more line at the end of
/// a heading block adds a single space and that line, trimmed, to the text
/// of the paragraph after the heading. (The block is written as its lines
/// joined by newlines; they hold no newline, none but the last ends with
/// `'\r'`, and the last ones are not empty.)
pub proof fn lemma_remainder_adds_line(h: Seq<char>, ls: Seq<Seq<char>>, m: Seq<char>)
    requires
        ls.len() >= 1,
        crate::text::rejoinable(seq![h] + ls + seq![m]),
        ls.last().len() > 0,
    ensures
        remainder_text(join(seq![h] + ls + seq![m], "\n"@)) == remainder_text(join(seq![h] + ls, "\n"@))
            + " "@ + trim(m),
{
    let big = seq![h] + ls + seq![m];
    let small = seq![h] + ls;
    assert(small =~= big.drop_last());
    assert(crate::text::rejoinable(small)) by {
        assert forall|i: int| 0 <= i < small.len() implies !(#[trigger] small[i]).contains('\n') by {
            assert(small[i] == big[i]);
        }
        assert forall|i: int| 0 <= i < small.len() - 1 implies !crate::text::ends_with_cr(#[trigger] small[i]) by {
            assert(small[i] == big[i]);
        }
        assert(small.last() == ls.last());
    }
    crate::text::lemma_lines_of_join(big);
    crate::text::lemma_lines_of_join(small);
    let f = |l: Seq<char>| trim(l);
    let rb = after_first(big).map_values(f);
    let rs = after_first(small).map_values(f);
    assert(after_first(big) =~= ls + seq![m]);
    assert(after_first(small) =~= ls);
    assert(rb =~= rs.push(trim(m)));
    assert(rb.drop_last() =~= rs);
    assert(rs.len() >= 1);
}

/// The paragraph that follows a heading line: the rest of the block, if
/// anything but white space is left.
pub open spec fn remainder_html(block: Seq<char>) -> Seq<char> {
    let rest = remainder_text(block);
    if trim(rest).len() > 0 {
        "<p>"@ + inline_md(trim(rest)) + "</p>\n"@
    } else {
        Seq::empty()
    }
}

/// The trimmed lines, in order.
fn trimmed_lines(ls: &Vec<Vec<char>>, from: usize) -> (r: Vec<Vec<char>>)
    requires
        from <= ls.len(),
    ensures
        views(r@) == views(ls@).skip(from as int).map_values(|l: Seq<char>| trim(l)),
{
    let mut out: Vec<Vec<char>> = Vec::new();
    let mut i: usize = from;
    while i < ls.len()
        invariant
            from <= i <= ls.len(),
            views(out@) == views(ls@).subrange(from as int, i as int).map_values(
                |l: Seq<char>| trim(l),
            ),
        decreases ls.len() - i,
    {
        let t = trim_chars(&ls[i]);
        let ghost o = out@;
        out.push(t);
        proof {
            let f = |l: Seq<char>| trim(l);
            assert(views(out@) =~= views(o).push(trim(ls@[i as int]@)));
            assert(views(ls@).subrange(from as int, i + 1) =~= views(ls@).subrange(
                from as int,
                i as int,
            ).push(ls@[i as int]@));
            assert(views(ls@).subrange(from as int, i + 1).map_values(f) =~= views(
                ls@,
            ).subrange(from as int, i as int).map_values(f).push(f(ls@[i as int]@)));
        }
        i += 1;
    }
    assert(views(ls@).subrange(from as int, ls.len() as int) =~= views(ls@).skip(from as int));
    out
}

/// Appends the paragraph made of the lines of `block` after its first one,
/// if any text is left.
pub fn append_remainder(out: &mut Vec<char>, block: &Vec<char>)
    ensures
        final(out)@ == old(out)@ + remainder_html(block@),
{
    let ls = lines_of(block);
    let from: usize = if ls.len() > 0 {
        1
    } else {
        0
    };
    let tl = trimmed_lines(&ls, from);
    proof {
        assert(views(ls@).skip(from as int) =~= after_first(lines(block@)));
    }
    let rest = join_chars(&tl, " ");
    let t = trim_chars(&rest);
    if t.len() > 0 {
        let inline = apply_inline_md(&t);
        extend_str(out, "<p>");
        extend_chars(out, &inline);
        extend_str(out, "</p>\n");
    }
}

/// The first line of a block, trimmed.
pub open spec fn first_line(block: Seq<char>) -> Seq<char> {
    if lines(block).len() > 0 {
        trim(lines(block)[0])
    } else {
        Seq::empty()
    }
}

/// A heading of the given tag: the first line without its `#` markers,
/// escaped, then the rest of the block as a paragraph.
pub open spec fn heading_html(tag: Seq<char>, marker: Seq<char>, block: Seq<char>) -> Seq<char> {
    "<"@ + tag + ">"@ + escaped(trim(strip_leading(first_line(block), marker))) + "</"@ + tag
        + ">\n"@ + remainder_html(block)
}

/// The XHTML of one Markdown block: `### `, `## ` and `# ` headings, or a
/// paragraph of the trimmed lines joined by spaces.
pub open spec fn md_block_html(block: Seq<char>) -> Seq<char> {
    let first = first_line(block);
    if starts_with(first, "### "@) {
        heading_html("h3"@, "### "@, block)
    } else if starts_with(first, "## "@) {
        heading_html("h2"@, "## "@, block)
    } else if starts_with(first, "# "@) {
        heading_html("h1"@, "# "@, block)
    } else {
        "<p>"@ + inline_md(join(lines(block).map_values(|l: Seq<char>| trim(l)), " "@))
            + "</p>\n"@
    }
}

/// The XHTML of the blocks, in order.
pub open spec fn md_blocks_html(bs: Seq<Seq<char>>) -> Seq<char>
    decreases bs.len(),
{
    if bs.len() == 0 {
        Seq::empty()
    } else {
        md_blocks_html(bs.drop_last()) + md_block_html(bs.last())
    }
}

/// The XHTML of a Markdown text: its non-empty trimmed blocks between blank
/// lines, each rendered by `md_block_html`.
pub open spec fn markdown_html(md: Seq<char>) -> Seq<char> {
    md_blocks_html(blocks(md))
}

/// The XHTML of Markdown blocks is that of each block in turn.
pub proof fn lemma_md_blocks_html_concat(x: Seq<Seq<char>>, y: Seq<Seq<char>>)
    ensures
        md_blocks_html(x + y) == md_blocks_html(x) + md_blocks_html(y),
    decreases y.len(),
{
    if y.len() == 0 {
        assert(x + y =~= x);
        assert(md_blocks_html(x) + Seq::<char>::empty() =~= md_blocks_html(x));
    } else {
        lemma_md_blocks_html_concat(x, y.drop_last());
        assert((x + y).drop_last() =~= x + y.drop_last());
        assert((x + y).last() == y.last());
        assert(md_blocks_html(x) + md_blocks_html(y.drop_last()) + md_block_html(y.last()) =~= md_blocks_html(x)
            + (md_blocks_html(y.drop_last()) + md_block_html(y.last())));
    }
}

/// Markdown blocks are converted independently: the XHTML of two texts
/// joined by a blank line is the XHTML of the first followed by that of the
/// second.
pub proof fn lemma_markdown_concat(a: Seq<char>, b: Seq<char>)
    ensures
        markdown_html(a + "\n\n"@ + b) == markdown_html(a) + markdown_html(b),
{
    crate::pdf::semantic::lemma_blocks_concat(a, b);
    lemma_md_blocks_html_concat(blocks(a), blocks(b));
}

/// Appends the heading of `tag` for a block whose first line starts with `marker`.
fn push_heading(out: &mut Vec<char>, tag: &str, marker: &str, first: &Vec<char>, block: &Vec<char>)
    requires
        first@ == first_line(block@),
    ensures
        final(out)@ == old(out)@ + heading_html(tag@, marker@, block@),
{
    let ghost o = out@;
    let stripped = strip_leading_chars(first, marker);
    let title = trim_chars(&stripped);
    extend_str(out, "<");
    extend_str(out, tag);
    extend_str(out, ">");
    extend_escaped(out, &title);
    extend_str(out, "</");
    extend_str(out, tag);
    extend_str(out, ">\n");
    append_remainder(out, block);
    assert(out@ =~= o + heading_html(tag@, marker@, block@));
}

/// Appends the XHTML of one block.
fn push_md_block(out: &mut Vec<char>, block: &Vec<char>)
    ensures
        final(out)@ == old(out)@ + md_block_html(block@),
{
    let ghost o = out@;
    let ls = lines_of(block);
    let first = if ls.len() > 0 {
        trim_chars(&ls[0])
    } else {
        Vec::new()
    };
    assert(first@ == first_line(block@));
    if has_prefix_str(&first, "### ") {
        push_heading(out, "h3", "### ", &first, block);
    } else if has_prefix_str(&first, "## ") {
        push_heading(out, "h2", "## ", &first, block);
    } else if has_prefix_str(&first, "# ") {
        push_heading(out, "h1", "# ", &first, block);
    } else {
        let tl = trimmed_lines(&ls, 0);
        assert(views(ls@).skip(0) =~= views(ls@));
        let text = join_chars(&tl, " ");
        let inline = apply_inline_md(&text);
        extend_str(out, "<p>");
        extend_chars(out, &inline);
        extend_str(out, "</p>\n");
        assert(out@ =~= o + md_block_html(block@));
    }
}

/// Whether `s` starts with `p`.
fn has_prefix_str(s: &Vec<char>, p: &str) -> (b: bool)
    ensures
        b == starts_with(s@, p@),
{
    crate::text::has_prefix(s, p)
}

/// A paragraph element around inline markup, then a newline.
proof fn lemma_paragraph_balanced(x: Seq<char>)
    ensures
        balanced("<p>"@ + inline_md(x) + "</p>\n"@),
{
    reveal_strlit("<p>");
    reveal_strlit("</p>\n");
    reveal_strlit("p");
    lemma_inline_balanced(x);
    lemma_element_balanced("p"@, inline_md(x));
    lemma_text_balanced(seq!['\n']);
    lemma_balanced_concat(element("p"@, inline_md(x)), seq!['\n']);
    assert("<p>"@ + inline_md(x) + "</p>\n"@ =~= element("p"@, inline_md(x)) + seq!['\n']);
}

proof fn lemma_remainder_balanced(block: Seq<char>)
    ensures
        balanced(remainder_html(block)),
{
    if trim(remainder_text(block)).len() > 0 {
        lemma_paragraph_balanced(trim(remainder_text(block)));
    } else {
        lemma_empty_balanced();
    }
}

proof fn lemma_heading_balanced(tag: Seq<char>, marker: Seq<char>, block: Seq<char>)
    requires
        tag_name(tag),
    ensures
        balanced(heading_html(tag, marker, block)),
{
    reveal_strlit("<");
    reveal_strlit(">");
    reveal_strlit("</");
    reveal_strlit(">\n");
    let t = escaped(trim(strip_leading(first_line(block), marker)));
    crate::markup::lemma_escaped_has_no_markup(trim(strip_leading(first_line(block), marker)));
    assert forall|i: int| 0 <= i < t.len() implies t[i] != '<' by {
        let c = t[i];
    }
    lemma_text_balanced(t);
    lemma_element_balanced(tag, t);
    lemma_text_balanced(seq!['\n']);
    lemma_remainder_balanced(block);
    lemma_balanced_concat(element(tag, t), seq!['\n']);
    lemma_balanced_concat(element(tag, t) + seq!['\n'], remainder_html(block));
    assert(heading_html(tag, marker, block) =~= element(tag, t) + seq!['\n'] + remainder_html(block));
}

/// The markup of one Markdown block is balanced.
pub proof fn lemma_md_block_balanced(block: Seq<char>)
    ensures
        balanced(md_block_html(block)),
{
    reveal_strlit("h1");
    reveal_strlit("h2");
    reveal_strlit("h3");
    let first = first_line(block);
    if starts_with(first, "### "@) {
        lemma_heading_balanced("h3"@, "### "@, block);
    } else if starts_with(first, "## "@) {
        lemma_heading_balanced("h2"@, "## "@, block);
    } else if starts_with(first, "# "@) {
        lemma_heading_balanced("h1"@, "# "@, block);
    } else {
        lemma_paragraph_balanced(join(lines(block).map_values(|l: Seq<char>| trim(l)), " "@));
    }
}

/// The markup of Markdown blocks is balanced.
pub proof fn lemma_md_blocks_balanced(bs: Seq<Seq<char>>)
    ensures
        balanced(md_blocks_html(bs)),
    decreases bs.len(),
{
    if bs.len() == 0 {
        lemma_empty_balanced();
    } else {
        lemma_md_blocks_balanced(bs.drop_last());
        lemma_md_block_balanced(bs.last());
        lemma_balanced_concat(md_blocks_html(bs.drop_last()), md_block_html(bs.last()));
    }
}

/// The XHTML of any Markdown text, put inside a `div`, is well nested:
/// every element opened is closed, in the reverse order of opening.
pub proof fn lemma_markdown_well_nested(md: Seq<char>)
    ensures
        well_nested("<div>"@ + markdown_html(md) + "</div>"@),
{
    lemma_md_blocks_balanced(blocks(md));
    reveal_strlit("div");
    reveal_strlit("<div>");
    reveal_strlit("</div>");
    lemma_wrapped_well_nested("div"@, markdown_html(md));
    assert("<div>"@ + markdown_html(md) + "</div>"@ =~= element("div"@, markdown_html(md)));
}

/// Converts Markdown (headings `#`, `##`, `###`, paragraphs, `**bold**`,
/// `*emphasis*`) to XHTML for an EPUB. The fragment is well nested.
pub fn markdown_to_xhtml(md: &str) -> (r: String)
    ensures
        r@ == markdown_html(md@),
        well_nested("<div>"@ + r@ + "</div>"@),
{
    proof {
        lemma_markdown_well_nested(md@);
    }
    let v = chars_of(md);
    let pieces = split_blank_of(&v);
    let ghost tr = views(pieces@).map_values(|b: Seq<char>| trim(b));
    let ghost kept = tr.filter(|b: Seq<char>| b.len() > 0);
    let mut out: Vec<char> = Vec::new();
    let mut i: usize = 0;
    while i < pieces.len()
        invariant
            i <= pieces.len(),
            tr == views(pieces@).map_values(|b: Seq<char>| trim(b)),
            out@ == md_blocks_html(tr.take(i as int).filter(|b: Seq<char>| b.len() > 0)),
        decreases pieces.len() - i,
    {
        proof {
            reveal(Seq::filter);
            assert(tr.take(i + 1).drop_last() == tr.take(i as int));
            assert(tr.take(i + 1).last() == trim(pieces@[i as int]@));
        }
        let t = trim_chars(&pieces[i]);
        if t.len() > 0 {
            let ghost f0 = tr.take(i as int).filter(|b: Seq<char>| b.len() > 0);
            push_md_block(&mut out, &t);
            proof {
                assert(tr.take(i + 1).filter(|b: Seq<char>| b.len() > 0) == f0.push(t@));
                assert(f0.push(t@).drop_last() == f0);
            }
        }
        i += 1;
    }
    assert(tr.take(pieces.len() as int) == tr);
    string_of(&out)
}

/// The first line of `ls` that is not blank, trimmed.
pub open spec fn first_text_line(ls: Seq<Seq<char>>) -> Option<Seq<char>>
    decreases ls.len(),
{
    if ls.len() == 0 {
        None
    } else if trim(ls[0]).len() > 0 {
        Some(trim(ls[0]))
    } else {
        first_text_line(ls.drop_first())
    }
}

/// A fragment reads as Markdown when its first non-blank line does not
/// start with `<`.
pub open spec fn reads_as_markdown(s: Seq<char>) -> bool {
    match first_text_line(lines(s)) {
        Some(l) => l[0] != '<',
        None => false,
    }
}

impl Assembler {
    /// Whether the fragment looks like Markdown rather than XHTML: its first
    /// non-blank line does not start with `<`.
    pub fn looks_like_markdown(s: &str) -> (b: bool)
        ensures
            b == reads_as_markdown(s@),
    {
        let v = chars_of(s);
        let ls = lines_of(&v);
        let mut i: usize = 0;
        assert(views(ls@).skip(0) =~= views(ls@));
        while i < ls.len()
            invariant
                i <= ls.len(),
                views(ls@) == lines(s@),
                first_text_line(views(ls@).skip(i as int)) == first_text_line(lines(s@)),
            decreases ls.len() - i,
        {
            let t = trim_chars(&ls[i]);
            proof {
                assert(views(ls@).skip(i as int)[0] == ls@[i as int]@);
                assert(views(ls@).skip(i as int).drop_first() =~= views(ls@).skip(i + 1));
            }
            if t.len() > 0 {
                return t[0] != '<';
            }
            i += 1;
        }
        false
    }
}


/// A fragment without the Markdown code fence around it (the inside of the
/// first fenced block, if there is one, trimmed) and without `---` rule
/// lines, trimmed.
pub open spec fn unfenced(fragment: Seq<char>) -> Seq<char> {
    let inner = match captured("(?s)```[a-z]*\\n?(.*?)\\n?```"@, fragment, 1) {
        Some(g) => trim(g),
        None => trim(fragment),
    };
    trim(replaced("(?m)^\\s*---+\\s*$"@, inner, ""@))
}

/// The tags whose unclosed openings the emergency cleanup closes, in order.
pub open spec fn cleanup_tags() -> Seq<Seq<char>> {
    seq!["p"@, "h1"@, "h2"@, "h3"@, "div"@, "span"@, "strong"@, "em"@]
}

fn cleanup_tag_list() -> (v: Vec<&'static str>)
    ensures
        v@.map_values(|t: &str| t@) == cleanup_tags(),
{
    let v = vec!["p", "h1", "h2", "h3", "div", "span", "strong", "em"];
    assert(v@.map_values(|t: &str| t@) =~= cleanup_tags());
    v
}

/// How many closings of `tag` are missing: the openings (`<tag>` or
/// `<tag `) beyond the closings (`</tag>`), or none.
pub open spec fn missing_closers(text: Seq<char>, tag: Seq<char>) -> nat {
    let opened = occurrences(text, "<"@ + tag + ">"@) + occurrences(text, "<"@ + tag + " "@);
    let closed = occurrences(text, "</"@ + tag + ">"@);
    if opened > closed {
        (opened - closed) as nat
    } else {
        0
    }
}

/// The text with the missing closings of each tag appended, one `</tag>\n`
/// for each, the tags taken in order.
pub open spec fn closed_tags(text: Seq<char>, tags: Seq<Seq<char>>) -> Seq<char>
    decreases tags.len(),
{
    if tags.len() == 0 {
        text
    } else {
        let t = closed_tags(text, tags.drop_last());
        t + repeated("</"@ + tags.last() + ">\n"@, missing_closers(t, tags.last()))
    }
}

/// Closing a tag in the emergency cleanup appends closings `</tag>` until
/// they are at least as many as the openings, plain (`<tag>`) or with
/// attributes (`<tag ...`), and appends none beyond that.
pub proof fn lemma_cleanup_closes_openings(t: Seq<char>, g: Seq<char>)
    ensures
        exists|k: nat|
            #![trigger repeated("</"@ + g + ">\n"@, k)]
            {
                let opened = occurrences(t, "<"@ + g + ">"@) + occurrences(t, "<"@ + g + " "@);
                let closed = occurrences(t, "</"@ + g + ">"@);
                &&& closed_tags(t, seq![g]) == t + repeated("</"@ + g + ">\n"@, k)
                &&& closed + k >= opened
                &&& k > 0 ==> closed + k == opened
            },
{
    assert(seq![g].drop_last() =~= Seq::<Seq<char>>::empty());
    assert(seq![g].last() == g);
    let k = missing_closers(t, g);
    assert(closed_tags(t, Seq::<Seq<char>>::empty()) == t);
    assert(closed_tags(t, seq![g]) == closed_tags(t, seq![g].drop_last()) + repeated(
        "</"@ + seq![g].last() + ">\n"@,
        missing_closers(closed_tags(t, seq![g].drop_last()), seq![g].last()),
    ));
    assert(closed_tags(t, seq![g]) == t + repeated("</"@ + g + ">\n"@, k));
}

/// The emergency cleanup of a broken fragment: missing closings appended,
/// then `script`, `iframe` and `object` elements and `on…=` event
/// attributes removed.
pub open spec fn emergency_cleaned(fragment: Seq<char>) -> Seq<char> {
    replaced(
        "\\s+on\\w+=[\"'][^\"']*[\"']"@,
        replaced(
            "<script[^>]*>.*?</script>|<iframe[^>]*>.*?</iframe>|<object[^>]*>.*?</object>"@,
            closed_tags(fragment, cleanup_tags()),
            ""@,
        ),
        ""@,
    )
}

/// `a`, then `tag`, then `b`.
fn tag_text(a: &str, tag: &str, b: &str) -> (r: Vec<char>)
    ensures
        r@ == a@ + tag@ + b@,
{
    let mut r: Vec<char> = Vec::new();
    extend_str(&mut r, a);
    extend_str(&mut r, tag);
    extend_str(&mut r, b);
    assert(r@ =~= a@ + tag@ + b@);
    r
}

/// Appends the missing closings of `tag`.
fn close_tag(text: &mut Vec<char>, tag: &str)
    ensures
        final(text)@ == old(text)@ + repeated(
            "</"@ + tag@ + ">\n"@,
            missing_closers(old(text)@, tag@),
        ),
{
    let open_plain = tag_text("<", tag, ">");
    let open_attrs = tag_text("<", tag, " ");
    let close = tag_text("</", tag, ">");
    proof {
        reveal_strlit("<");
        reveal_strlit(">");
        reveal_strlit(" ");
        reveal_strlit("</");
        lemma_occurrences_half(text@, open_plain@);
        lemma_occurrences_half(text@, open_attrs@);
    }
    let a = count_occurrences(text, &open_plain);
    let b = count_occurrences(text, &open_attrs);
    let c = count_occurrences(text, &close);
    assert(text@.len() == text.len());
    assert(2 * a <= text.len() && 2 * b <= text.len());
    let opened = a + b;
    let missing: usize = if opened > c {
        opened - c
    } else {
        0
    };
    let closer = tag_text("</", tag, ">\n");
    let ghost t0 = text@;
    let mut k: usize = 0;
    while k < missing
        invariant
            k <= missing,
            text@ == t0 + repeated(closer@, k as nat),
        decreases missing - k,
    {
        extend_chars(text, &closer);
        proof {
            assert(text@ =~= t0 + repeated(closer@, (k + 1) as nat));
        }
        k += 1;
    }
}

/// The value of a fragment once fences are stripped and Markdown, if it
/// reads as such, is converted.
pub open spec fn prepared(fragment: Seq<char>) -> Seq<char> {
    let s = unfenced(fragment);
    if reads_as_markdown(s) {
        markdown_html(s)
    } else {
        s
    }
}

/// A fragment wrapped in an XHTML `div`, so that loose blocks parse as one
/// document.
pub open spec fn xhtml_wrapped(content: Seq<char>) -> Seq<char> {
    "<div xmlns=\"http://www.w3.org/1999/xhtml\">"@ + content + "</div>"@
}

/// The message of a chunk that does not parse.
pub open spec fn chunk_error(idx: nat, e: Seq<char>) -> Seq<char> {
    "Chunk "@ + decimal(idx) + " XML parse error: "@ + e
}

/// The outcome of validating a fragment: the prepared content if its
/// wrapped form parses, else the parse error of that chunk.
pub open spec fn validation_of(fragment: Seq<char>, idx: nat) -> Result<Seq<char>, Seq<char>> {
    match xml_document(xhtml_wrapped(prepared(fragment))) {
        Ok(_) => Ok(prepared(fragment)),
        Err(e) => Err(chunk_error(idx, e)),
    }
}

/// The result of checking a fragment for the EPUB.
#[derive(Debug, Clone)]
pub enum FragmentCheck {
    /// It parsed (after fence stripping and Markdown conversion).
    Validated(String),
    /// It parsed only after the emergency cleanup; the cleaned text.
    Recovered(String),
    /// Nothing could make it parse.
    Skipped,
}

/// The mathematical value of a fragment check.
pub enum FragmentCheckView {
    Validated(Seq<char>),
    Recovered(Seq<char>),
    Skipped,
}

impl View for FragmentCheck {
    type V = FragmentCheckView;

    open spec fn view(&self) -> FragmentCheckView {
        match self {
            FragmentCheck::Validated(c) => FragmentCheckView::Validated(c@),
            FragmentCheck::Recovered(c) => FragmentCheckView::Recovered(c@),
            FragmentCheck::Skipped => FragmentCheckView::Skipped,
        }
    }
}

/// A fragment is taken as validated; else its emergency cleanup is taken
/// if that validates; else it is skipped.
pub open spec fn fragment_check(fragment: Seq<char>, idx: nat) -> FragmentCheckView {
    match validation_of(fragment, idx) {
        Ok(c) => FragmentCheckView::Validated(c),
        Err(_) => {
            let cleaned = emergency_cleaned(fragment);
            if validation_of(cleaned, idx) is Ok {
                FragmentCheckView::Recovered(cleaned)
            } else {
                FragmentCheckView::Skipped
            }
        },
    }
}

/// `d` with zeros in front up to `width` characters (`{:0width$}`).
pub open spec fn zero_padded(d: Seq<char>, width: nat) -> Seq<char> {
    if d.len() < width {
        Seq::new((width - d.len()) as nat, |i: int| '0') + d
    } else {
        d
    }
}

/// The document id of chunk `idx`: `chunk_` and at least three digits.
pub open spec fn doc_id_of(idx: nat) -> Seq<char> {
    "chunk_"@ + zero_padded(decimal(idx), 3)
}

/// A document that goes into the EPUB, in spine order.
#[derive(Debug, Clone)]
pub struct PlannedDocument {
    pub doc_id: String,
    pub content: String,
    pub chunk_index: usize,
    /// Whether the content is the emergency cleanup of the fragment.
    pub recovered: bool,
}

/// The mathematical value of a planned document.
pub struct PlannedDocumentView {
    pub doc_id: Seq<char>,
    pub content: Seq<char>,
    pub chunk_index: nat,
    pub recovered: bool,
}

impl View for PlannedDocument {
    type V = PlannedDocumentView;

    open spec fn view(&self) -> PlannedDocumentView {
        PlannedDocumentView {
            doc_id: self.doc_id@,
            content: self.content@,
            chunk_index: self.chunk_index as nat,
            recovered: self.recovered,
        }
    }
}

/// The views of planned documents.
pub open spec fn planned_views(ds: Seq<PlannedDocument>) -> Seq<PlannedDocumentView> {
    ds.map_values(|d: PlannedDocument| d@)
}

/// The documents of the fragments, in order: each validated or recovered
/// fragment under the id of its index; skipped fragments leave no document.
pub open spec fn plan_of(fragments: Seq<Seq<char>>) -> Seq<PlannedDocumentView>
    decreases fragments.len(),
{
    if fragments.len() == 0 {
        Seq::empty()
    } else {
        let prev = plan_of(fragments.drop_last());
        let i = (fragments.len() - 1) as nat;
        match fragment_check(fragments.last(), i) {
            FragmentCheckView::Validated(c) => prev.push(
                PlannedDocumentView { doc_id: doc_id_of(i), content: c, chunk_index: i, recovered: false },
            ),
            FragmentCheckView::Recovered(c) => prev.push(
                PlannedDocumentView { doc_id: doc_id_of(i), content: c, chunk_index: i, recovered: true },
            ),
            FragmentCheckView::Skipped => prev,
        }
    }
}

/// Characters that `sanitize_filename` removes on every platform.
pub open spec fn illegal_file_char(c: char) -> bool {
    c == '/' || c == '?' || c == '<' || c == '>' || c == '\\' || c == ':' || c == '*' || c == '|'
        || c == '"'
}

/// Control characters, which `sanitize_filename` removes.
pub open spec fn control_file_char(c: char) -> bool {
    (c as u32) <= 0x1f || (0x80 <= (c as u32) && (c as u32) <= 0x9f)
}

/// What `sanitize_filename::sanitize` makes of a name.
pub uninterp spec fn sanitized(name: Seq<char>) -> Seq<char>;

/// `sanitize_filename::sanitize`. The crate deletes the characters
/// `/?<>\:*|"` and control characters, empties a name made only of dots and
/// cuts the name to 255 bytes (on Windows it also rewrites reserved names);
/// the contract names the result and states that none of those characters
/// is left in it and that it takes at most 255 bytes in UTF-8.
#[verifier::external_body]
fn sanitize_name(name: &str) -> (r: String)
    ensures
        r@ == sanitized(name@),
        crate::text::utf8_len(r@) <= 255,
        forall|i: int|
            0 <= i < r@.len() ==> !illegal_file_char(#[trigger] r@[i]) && !control_file_char(
                r@[i],
            ),
{
    sanitize_filename::sanitize(name)
}

/// The archive entry of a project file: none for the `mimetype` file (it
/// goes first, stored) and for GutenCore's database files; otherwise the
/// relative path with `/` for every `\`.
pub open spec fn entry_name_of(file_name: Seq<char>, relative: Seq<char>) -> Option<Seq<char>> {
    if file_name == "mimetype"@ || starts_with(relative, ".gutenair.db"@) {
        None
    } else {
        Some(relative.map_values(|c: char| if c == '\\' { '/' } else { c }))
    }
}

impl Assembler {
    /// The fragment without a Markdown code fence around it and without
    /// `---` rule lines.
    pub fn strip_markdown_fences(fragment: &str) -> (r: String)
        ensures
            r@ == unfenced(fragment@),
    {
        let inner = match capture("(?s)```[a-z]*\\n?(.*?)\\n?```", fragment, 1) {
            Some(g) => trim_str(g.as_str()),
            None => trim_str(fragment),
        };
        let cleaned = replace_all("(?m)^\\s*---+\\s*$", inner.as_str(), "");
        trim_str(cleaned.as_str())
    }

    /// The emergency cleanup of a fragment that does not parse: closes the
    /// tags left open, then removes `script`, `iframe`, `object` and event
    /// attributes.
    pub fn emergency_heuristic_cleanup(fragment: &str) -> (r: String)
        ensures
            r@ == emergency_cleaned(fragment@),
    {
        let mut text = chars_of(fragment);
        let tags = cleanup_tag_list();
        let mut i: usize = 0;
        while i < tags.len()
            invariant
                i <= tags.len(),
                tags@.map_values(|t: &str| t@) == cleanup_tags(),
                text@ == closed_tags(fragment@, cleanup_tags().take(i as int)),
            decreases tags.len() - i,
        {
            proof {
                assert(cleanup_tags().take(i + 1).drop_last() == cleanup_tags().take(i as int));
                assert(cleanup_tags().take(i + 1).last() == tags@[i as int]@);
            }
            close_tag(&mut text, tags[i]);
            i += 1;
        }
        assert(cleanup_tags().take(tags.len() as int) == cleanup_tags());
        let closed = string_of(&text);
        let safe = replace_all(
            "<script[^>]*>.*?</script>|<iframe[^>]*>.*?</iframe>|<object[^>]*>.*?</object>",
            closed.as_str(),
            "",
        );
        replace_all("\\s+on\\w+=[\"'][^\"']*[\"']", safe.as_str(), "")
    }

    /// What follows the parse of a wrapped chunk: its content if it parsed,
    /// else the chunk's parse error.
    pub fn parse_outcome(
        content: String,
        parsed: Result<Vec<crate::xml::XmlNode>, String>,
        chunk_index: usize,
    ) -> (r: Result<String, String>)
        ensures
            match parsed {
                Ok(_) => r matches Ok(c) && c@ == content@,
                Err(e) => r matches Err(m) && m@ == chunk_error(chunk_index as nat, e@),
            },
    {
        match parsed {
            Ok(_) => Ok(content),
            Err(e) => {
                let mut m: Vec<char> = Vec::new();
                extend_str(&mut m, "Chunk ");
                let d = decimal_chars(chunk_index as u64);
                extend_chars(&mut m, &d);
                extend_str(&mut m, " XML parse error: ");
                extend_str(&mut m, e.as_str());
                assert(m@ =~= chunk_error(chunk_index as nat, e@));
                Err(string_of(&m))
            },
        }
    }

    /// Validates that a fragment is well-formed XHTML: strips code fences,
    /// converts it first if it reads as Markdown, and parses it wrapped in a
    /// `div`.
    pub fn validate_and_repair(fragment: &str, chunk_index: usize) -> (r: Result<String, String>)
        ensures
            match r {
                Ok(c) => validation_of(fragment@, chunk_index as nat) == Ok::<Seq<char>, Seq<char>>(c@),
                Err(e) => validation_of(fragment@, chunk_index as nat) == Err::<Seq<char>, Seq<char>>(e@),
            },
    {
        let stripped = Self::strip_markdown_fences(fragment);
        let content = if Self::looks_like_markdown(stripped.as_str()) {
            markdown_to_xhtml(stripped.as_str())
        } else {
            stripped
        };
        let mut w: Vec<char> = Vec::new();
        extend_str(&mut w, "<div xmlns=\"http://www.w3.org/1999/xhtml\">");
        extend_str(&mut w, content.as_str());
        extend_str(&mut w, "</div>");
        assert(w@ =~= xhtml_wrapped(content@));
        let wrapped = string_of(&w);
        let parsed = parse_xml(wrapped.as_str());
        Self::parse_outcome(content, parsed, chunk_index)
    }

    /// Checks a fragment: validated as it is, recovered by the emergency
    /// cleanup, or skipped.
    pub fn check_fragment(fragment: &str, chunk_index: usize) -> (r: FragmentCheck)
        ensures
            r@ == fragment_check(fragment@, chunk_index as nat),
    {
        match Self::validate_and_repair(fragment, chunk_index) {
            Ok(repaired) => FragmentCheck::Validated(repaired),
            Err(_) => {
                let emergency = Self::emergency_heuristic_cleanup(fragment);
                match Self::validate_and_repair(emergency.as_str(), chunk_index) {
                    Ok(_) => FragmentCheck::Recovered(emergency),
                    Err(_) => FragmentCheck::Skipped,
                }
            },
        }
    }

    /// The id of chunk `idx` in the EPUB (`chunk_000`, `chunk_001`, …).
    pub fn doc_id(idx: usize) -> (r: String)
        ensures
            r@ == doc_id_of(idx as nat),
    {
        let d = decimal_chars(idx as u64);
        let mut v: Vec<char> = Vec::new();
        extend_str(&mut v, "chunk_");
        let mut k: usize = d.len();
        let ghost v0 = v@;
        while k < 3
            invariant
                d.len() <= k <= 3 || (d.len() > 3 && k == d.len()),
                v@ == v0 + Seq::new((k - d.len()) as nat, |i: int| '0'),
            decreases 3 - k,
        {
            v.push('0');
            assert(v@ =~= v0 + Seq::new((k + 1 - d.len()) as nat, |i: int| '0'));
            k += 1;
        }
        extend_chars(&mut v, &d);
        proof {
            if d@.len() < 3 {
                assert(v@ =~= doc_id_of(idx as nat));
            } else {
                assert(Seq::new(0, |i: int| '0') + d@ =~= d@);
                assert(v@ =~= doc_id_of(idx as nat));
            }
        }
        string_of(&v)
    }

    /// The documents of the EPUB, in spine order, or the assembly error
    /// when no fragment could be validated.
    pub fn plan_documents(fragments: &Vec<String>) -> (r: Result<Vec<PlannedDocument>, PdfPipelineError>)
        ensures
            plan_of(crate::text::string_views(fragments@)).len() > 0 ==> (r matches Ok(ds)
                && planned_views(ds@) == plan_of(crate::text::string_views(fragments@))),
            plan_of(crate::text::string_views(fragments@)).len() == 0 ==> (r matches Err(
                PdfPipelineError::AssemblyFailed(m),
            ) && m@ == "Ningún fragmento pasó la validación XML"@),
    {
        let ghost fs = crate::text::string_views(fragments@);
        let mut docs: Vec<PlannedDocument> = Vec::new();
        let mut i: usize = 0;
        while i < fragments.len()
            invariant
                i <= fragments.len(),
                fs == crate::text::string_views(fragments@),
                planned_views(docs@) == plan_of(fs.take(i as int)),
            decreases fragments.len() - i,
        {
            proof {
                assert(fs.take(i + 1).drop_last() == fs.take(i as int));
                assert(fs.take(i + 1).last() == fragments@[i as int]@);
            }
            let check = Self::check_fragment(fragments[i].as_str(), i);
            let ghost d0 = docs@;
            match check {
                FragmentCheck::Validated(c) => {
                    let id = Self::doc_id(i);
                    docs.push(PlannedDocument { doc_id: id, content: c, chunk_index: i, recovered: false });
                    assert(planned_views(docs@) =~= planned_views(d0).push(docs@.last()@));
                },
                FragmentCheck::Recovered(c) => {
                    let id = Self::doc_id(i);
                    docs.push(PlannedDocument { doc_id: id, content: c, chunk_index: i, recovered: true });
                    assert(planned_views(docs@) =~= planned_views(d0).push(docs@.last()@));
                },
                FragmentCheck::Skipped => {},
            }
            i += 1;
        }
        assert(fs.take(fragments.len() as int) == fs);
        if docs.len() == 0 {
            return Err(PdfPipelineError::AssemblyFailed("Ningún fragmento pasó la validación XML".to_string()));
        }
        Ok(docs)
    }

    /// The file name of the EPUB of a title: the sanitized title and `.epub`.
    /// It holds no path separator, reserved or control character.
    pub fn epub_file_name(title: &str) -> (r: String)
        ensures
            r@ == sanitized(title@) + ".epub"@,
            forall|i: int|
                0 <= i < r@.len() ==> !illegal_file_char(#[trigger] r@[i]) && !control_file_char(r@[i]),
    {
        let base = sanitize_name(title);
        let mut v = chars_of(base.as_str());
        proof {
            reveal_strlit(".epub");
        }
        extend_str(&mut v, ".epub");
        string_of(&v)
    }

    /// The name under which a project file goes into the archive, if it goes
    /// in the walk at all.
    pub fn archive_entry_name(file_name: &str, relative: &str) -> (r: Option<String>)
        ensures
            opt_chars(r) == entry_name_of(file_name@, relative@),
    {
        let f = chars_of(file_name);
        let rel = chars_of(relative);
        if crate::text::same_chars_str(&f, "mimetype") || crate::text::has_prefix(&rel, ".gutenair.db") {
            return None;
        }
        let mut out: Vec<char> = Vec::new();
        let mut i: usize = 0;
        while i < rel.len()
            invariant
                i <= rel.len(),
                out@ == rel@.take(i as int).map_values(|c: char| if c == '\\' { '/' } else { c }),
            decreases rel.len() - i,
        {
            let c = rel[i];
            out.push(if c == '\\' { '/' } else { c });
            assert(out@ =~= rel@.take(i + 1).map_values(|c: char| if c == '\\' { '/' } else { c }));
            i += 1;
        }
        assert(rel@.take(rel.len() as int) == rel@);
        Some(string_of(&out))
    }

    /// The SHA-256 digest of the EPUB's bytes, in lowercase hexadecimal.
    pub fn compute_sha256(bytes: &[u8]) -> (r: String)
        ensures
            r@ == sha256_hex_of(bytes@),
            r@.len() == 64,
    {
        sha256_hex(bytes)
    }
}

impl PlannedDocument {
    /// The progress report of this document: recovered or validated.
    pub fn status(&self) -> (r: PipelineStatus)
        ensures
            r == (if self.recovered {
                PipelineStatus::XmlHeuristicRecovered { chunk_index: self.chunk_index }
            } else {
                PipelineStatus::XmlValidated { chunk_index: self.chunk_index }
            }),
    {
        if self.recovered {
            PipelineStatus::XmlHeuristicRecovered { chunk_index: self.chunk_index }
        } else {
            PipelineStatus::XmlValidated { chunk_index: self.chunk_index }
        }
    }
}

/// The view of an optional string.
pub open spec fn opt_chars(o: Option<String>) -> Option<Seq<char>> {
    crate::xml::opt_view(o)
}

} // verus!
