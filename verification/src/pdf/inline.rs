//! Inline Markdown: `**bold**` and `*emphasis*` over XML-escaped text, in
//! two left-to-right passes that only ever produce properly nested
//! elements. A marker without its partner stays as text.
use vstd::prelude::*;
use crate::markup::{escaped, extend_escaped, lemma_escaped_has_no_markup};
use crate::text::{extend_chars, extend_str, sub_chars};
use crate::xhtml::{balanced, element, lemma_balanced_concat, lemma_element_balanced, lemma_empty_balanced, lemma_text_balanced, tag_name, tag_of};

verus! {

/// A piece of a line after the bold pass: a character, or a bold span with
/// its raw text.
#[derive(Debug, Clone)]
pub enum InlinePiece {
    Ch(char),
    Bold(Vec<char>),
}

/// The mathematical value of a piece: a character as a text of length 1,
/// or a bold span's text.
pub enum InlineToken {
    Text(Seq<char>),
    Bold(Seq<char>),
}

impl View for InlinePiece {
    type V = InlineToken;

    open spec fn view(&self) -> InlineToken {
        match self {
            InlinePiece::Ch(c) => InlineToken::Text(seq![*c]),
            InlinePiece::Bold(b) => InlineToken::Bold(b@),
        }
    }
}

/// The views of pieces.
pub open spec fn token_views(ps: Seq<InlinePiece>) -> Seq<InlineToken> {
    ps.map_values(|p: InlinePiece| p@)
}

/// The first `**` at or after `j`.
pub open spec fn next_double_star(s: Seq<char>, j: int) -> Option<int>
    decreases s.len() - j,
{
    if j < 0 || j + 2 > s.len() {
        None
    } else if s[j] == '*' && s[j + 1] == '*' {
        Some(j)
    } else {
        next_double_star(s, j + 1)
    }
}

pub proof fn lemma_next_double_star(s: Seq<char>, j: int)
    ensures
        next_double_star(s, j) matches Some(k) ==> j <= k && k + 2 <= s.len(),
    decreases s.len() - j,
{
    if !(j < 0 || j + 2 > s.len()) && !(s[j] == '*' && s[j + 1] == '*') {
        lemma_next_double_star(s, j + 1);
    }
}

/// The bold pass (`**…**`, shortest first): at a `**` followed, after at
/// least one character, by another `**`, the text between becomes a bold
/// span; every other character stands for itself.
pub open spec fn bold_tokens(s: Seq<char>, i: int) -> Seq<InlineToken>
    decreases s.len() - i,
{
    if i < 0 || i >= s.len() {
        Seq::empty()
    } else if i + 1 < s.len() && s[i] == '*' && s[i + 1] == '*' && next_double_star(s, i + 3) is Some {
        let j = next_double_star(s, i + 3)->0;
        proof {
            lemma_next_double_star(s, i + 3);
        }
        seq![InlineToken::Bold(s.subrange(i + 2, j))] + bold_tokens(s, j + 2)
    } else {
        seq![InlineToken::Text(s.subrange(i, i + 1))] + bold_tokens(s, i + 1)
    }
}

/// The first `*` at or after `j`.
pub open spec fn next_star(s: Seq<char>, j: int) -> Option<int>
    decreases s.len() - j,
{
    if j < 0 || j >= s.len() {
        None
    } else if s[j] == '*' {
        Some(j)
    } else {
        next_star(s, j + 1)
    }
}

pub proof fn lemma_next_star(s: Seq<char>, j: int)
    ensures
        next_star(s, j) matches Some(k) ==> j <= k < s.len(),
    decreases s.len() - j,
{
    if !(j < 0 || j >= s.len()) && s[j] != '*' {
        lemma_next_star(s, j + 1);
    }
}

/// The emphasis pass over plain text (`*…*`, shortest first): a `*`
/// followed, after at least one character, by another `*` makes the text
/// between emphasized.
pub open spec fn em_chars(c: Seq<char>, i: int) -> Seq<char>
    decreases c.len() - i,
{
    if i < 0 || i >= c.len() {
        Seq::empty()
    } else if c[i] == '*' && next_star(c, i + 2) is Some {
        let k = next_star(c, i + 2)->0;
        proof {
            lemma_next_star(c, i + 2);
        }
        element("em"@, c.subrange(i + 1, k)) + em_chars(c, k + 1)
    } else {
        seq![c[i]] + em_chars(c, i + 1)
    }
}

/// The markup of one piece: a character as itself, a bold span as a
/// `strong` element whose text went through the emphasis pass.
pub open spec fn token_html(t: InlineToken) -> Seq<char> {
    match t {
        InlineToken::Text(t) => t,
        InlineToken::Bold(b) => element("strong"@, em_chars(b, 0)),
    }
}

/// The markup of pieces, in order.
pub open spec fn tokens_html(ts: Seq<InlineToken>) -> Seq<char>
    decreases ts.len(),
{
    if ts.len() == 0 {
        Seq::empty()
    } else {
        tokens_html(ts.drop_last()) + token_html(ts.last())
    }
}

/// A `*` piece.
pub open spec fn is_star_token(t: InlineToken) -> bool {
    t == InlineToken::Text(seq!['*'])
}

/// The first `*` piece at or after `j`.
pub open spec fn next_star_token(ts: Seq<InlineToken>, j: int) -> Option<int>
    decreases ts.len() - j,
{
    if j < 0 || j >= ts.len() {
        None
    } else if is_star_token(ts[j]) {
        Some(j)
    } else {
        next_star_token(ts, j + 1)
    }
}

pub proof fn lemma_next_star_token(ts: Seq<InlineToken>, j: int)
    ensures
        next_star_token(ts, j) matches Some(k) ==> j <= k < ts.len(),
    decreases ts.len() - j,
{
    if !(j < 0 || j >= ts.len()) && !is_star_token(ts[j]) {
        lemma_next_star_token(ts, j + 1);
    }
}

/// The emphasis pass over the pieces: a `*` piece followed, after at least
/// one piece, by another `*` piece makes the pieces between (bold spans
/// whole) emphasized; a `*` inside a bold span never pairs with one
/// outside it.
pub open spec fn em_tokens(ts: Seq<InlineToken>, i: int) -> Seq<char>
    decreases ts.len() - i,
{
    if i < 0 || i >= ts.len() {
        Seq::empty()
    } else if is_star_token(ts[i]) && next_star_token(ts, i + 2) is Some {
        let k = next_star_token(ts, i + 2)->0;
        proof {
            lemma_next_star_token(ts, i + 2);
        }
        element("em"@, tokens_html(ts.subrange(i + 1, k))) + em_tokens(ts, k + 1)
    } else {
        token_html(ts[i]) + em_tokens(ts, i + 1)
    }
}

/// `**bold**` and `*emphasis*` after XML escaping.
pub open spec fn inline_md(s: Seq<char>) -> Seq<char> {
    em_tokens(bold_tokens(escaped(s), 0), 0)
}

// ─── Execution ───────────────────────────────────────────────────────────

/// Where the next `**` at or after `start` is.
fn find_double_star(s: &Vec<char>, start: usize) -> (r: Option<usize>)
    ensures
        match r {
            Some(k) => next_double_star(s@, start as int) == Some(k as int),
            None => next_double_star(s@, start as int) is None,
        },
{
    let mut k = start;
    while k < s.len() && s.len() - k >= 2
        invariant
            start <= k,
            next_double_star(s@, start as int) == next_double_star(s@, k as int),
        decreases s.len() - k,
    {
        if s[k] == '*' && s[k + 1] == '*' {
            return Some(k);
        }
        k += 1;
    }
    None
}

/// Where the next `*` at or after `start` is.
fn find_star(s: &Vec<char>, start: usize) -> (r: Option<usize>)
    ensures
        match r {
            Some(k) => next_star(s@, start as int) == Some(k as int),
            None => next_star(s@, start as int) is None,
        },
{
    let mut k = start;
    while k < s.len()
        invariant
            start <= k,
            next_star(s@, start as int) == next_star(s@, k as int),
        decreases s.len() - k,
    {
        if s[k] == '*' {
            return Some(k);
        }
        k += 1;
    }
    None
}

/// Where the next `*` piece at or after `start` is.
fn find_star_piece(ts: &Vec<InlinePiece>, start: usize) -> (r: Option<usize>)
    ensures
        match r {
            Some(k) => next_star_token(token_views(ts@), start as int) == Some(k as int),
            None => next_star_token(token_views(ts@), start as int) is None,
        },
{
    let ghost tv = token_views(ts@);
    let mut k = start;
    while k < ts.len()
        invariant
            start <= k,
            tv == token_views(ts@),
            next_star_token(tv, start as int) == next_star_token(tv, k as int),
        decreases ts.len() - k,
    {
        let star = match &ts[k] {
            InlinePiece::Ch(c) => {
                assert(seq![*c] == seq!['*'] ==> seq![*c][0] == '*');
                *c == '*'
            },
            InlinePiece::Bold(_) => false,
        };
        assert(tv[k as int] == ts@[k as int]@);
        assert(star == is_star_token(tv[k as int]));
        if star {
            return Some(k);
        }
        k += 1;
    }
    None
}

/// The character at `i`.
fn char_at(e: &Vec<char>, i: usize) -> (c: char)
    requires
        i < e.len(),
    ensures
        c == e@[i as int],
{
    e[i]
}

/// The bold pass over escaped text.
fn bold_pass(e: &Vec<char>) -> (r: Vec<InlinePiece>)
    ensures
        token_views(r@) == bold_tokens(e@, 0),
{
    let mut out: Vec<InlinePiece> = Vec::new();
    let mut i: usize = 0;
    assert(token_views(out@) =~= Seq::<InlineToken>::empty());
    while i < e.len()
        invariant
            i <= e.len(),
            token_views(out@) + bold_tokens(e@, i as int) == bold_tokens(e@, 0),
        decreases e.len() - i,
    {
        let ghost o = token_views(out@);
        let close = if i + 1 < e.len() && e[i] == '*' && e[i + 1] == '*' && e.len() - i >= 5 {
            find_double_star(e, i + 3)
        } else {
            None
        };
        proof {
            lemma_next_double_star(e@, i + 3);
        }
        match close {
            Some(j) => {
                let b = sub_chars(e, i + 2, j);
                out.push(InlinePiece::Bold(b));
                assert(token_views(out@) =~= o.push(InlineToken::Bold(e@.subrange(i + 2, j as int))));
                assert(token_views(out@) + bold_tokens(e@, j + 2) =~= o + bold_tokens(e@, i as int));
                i = j + 2;
            },
            None => {
                let c = char_at(e, i);
                out.push(InlinePiece::Ch(c));
                assert(seq![c] =~= e@.subrange(i as int, i + 1));
                assert(out@.len() == o.len() + 1);
                assert(out@[o.len() as int]@ == InlineToken::Text(seq![c]));
                assert(token_views(out@) =~= o.push(InlineToken::Text(e@.subrange(i as int, i + 1))));
                assert(token_views(out@) + bold_tokens(e@, i + 1) =~= o + bold_tokens(e@, i as int));
                i += 1;
            },
        }
    }
    assert(token_views(out@) + bold_tokens(e@, i as int) =~= token_views(out@));
    out
}

/// Appends `<name>`.
fn push_tag(out: &mut Vec<char>, name: &str)
    ensures
        final(out)@ == old(out)@ + tag_of(name@),
{
    let ghost o = out@;
    out.push('<');
    extend_str(out, name);
    out.push('>');
    assert(out@ =~= o + tag_of(name@));
}

/// The emphasis pass over plain text.
fn em_chars_of(c: &Vec<char>) -> (r: Vec<char>)
    ensures
        r@ == em_chars(c@, 0),
{
    let mut out: Vec<char> = Vec::new();
    let mut i: usize = 0;
    while i < c.len()
        invariant
            i <= c.len(),
            out@ + em_chars(c@, i as int) == em_chars(c@, 0),
        decreases c.len() - i,
    {
        let ghost o = out@;
        if c[i] == '*' && c.len() - i >= 3 {
            match find_star(c, i + 2) {
                Some(k) => {
                    proof {
                        lemma_next_star(c@, i + 2);
                        reveal_strlit("em");
                        reveal_strlit("/em");
                    }
                    push_tag(&mut out, "em");
                    let inner = sub_chars(c, i + 1, k);
                    extend_chars(&mut out, &inner);
                    push_tag(&mut out, "/em");
                    assert(seq!['/'] + "em"@ =~= "/em"@);
                    assert(out@ =~= o + element("em"@, c@.subrange(i + 1, k as int)));
                    assert(out@ + em_chars(c@, k + 1) =~= o + em_chars(c@, i as int));
                    i = k + 1;
                    continue;
                },
                None => {},
            }
        }
        out.push(c[i]);
        assert(out@ + em_chars(c@, i + 1) =~= o + em_chars(c@, i as int));
        i += 1;
    }
    assert(out@ + em_chars(c@, i as int) =~= out@);
    out
}

/// Appends the markup of one piece.
fn push_token_html(out: &mut Vec<char>, p: &InlinePiece)
    ensures
        final(out)@ == old(out)@ + token_html(p@),
{
    let ghost o = out@;
    match p {
        InlinePiece::Ch(c) => {
            out.push(*c);
            assert(out@ =~= o + seq![*c]);
        },
        InlinePiece::Bold(b) => {
            proof {
                reveal_strlit("strong");
                reveal_strlit("/strong");
            }
            push_tag(out, "strong");
            let inner = em_chars_of(b);
            extend_chars(out, &inner);
            push_tag(out, "/strong");
            assert(seq!['/'] + "strong"@ =~= "/strong"@);
            assert(out@ =~= o + token_html(p@));
        },
    }
}

/// The emphasis pass over the pieces.
fn em_pass(ts: &Vec<InlinePiece>) -> (r: Vec<char>)
    ensures
        r@ == em_tokens(token_views(ts@), 0),
{
    let ghost tv = token_views(ts@);
    let mut out: Vec<char> = Vec::new();
    let mut i: usize = 0;
    while i < ts.len()
        invariant
            i <= ts.len(),
            tv == token_views(ts@),
            out@ + em_tokens(tv, i as int) == em_tokens(tv, 0),
        decreases ts.len() - i,
    {
        let ghost o = out@;
        let star = match &ts[i] {
            InlinePiece::Ch(c) => {
                assert(seq![*c] == seq!['*'] ==> seq![*c][0] == '*');
                *c == '*'
            },
            InlinePiece::Bold(_) => false,
        };
        assert(tv[i as int] == ts@[i as int]@);
        assert(star == is_star_token(tv[i as int]));
        if star && ts.len() - i >= 3 {
            match find_star_piece(ts, i + 2) {
                Some(k) => {
                    proof {
                        lemma_next_star_token(tv, i + 2);
                        reveal_strlit("em");
                        reveal_strlit("/em");
                    }
                    push_tag(&mut out, "em");
                    let ghost o1 = out@;
                    let mut m = i + 1;
                    assert(tv.subrange(i + 1, m as int) =~= Seq::<InlineToken>::empty());
                    while m < k
                        invariant
                            i + 1 <= m <= k < ts.len(),
                            tv == token_views(ts@),
                            out@ == o1 + tokens_html(tv.subrange(i + 1, m as int)),
                        decreases k - m,
                    {
                        push_token_html(&mut out, &ts[m]);
                        assert(tv.subrange(i + 1, m + 1).drop_last() =~= tv.subrange(i + 1, m as int));
                        assert(tv.subrange(i + 1, m + 1).last() == ts@[m as int]@);
                        m += 1;
                    }
                    push_tag(&mut out, "/em");
                    assert(seq!['/'] + "em"@ =~= "/em"@);
                    assert(out@ =~= o + element("em"@, tokens_html(tv.subrange(i + 1, k as int))));
                    assert(out@ + em_tokens(tv, k + 1) =~= o + em_tokens(tv, i as int));
                    i = k + 1;
                    continue;
                },
                None => {},
            }
        }
        push_token_html(&mut out, &ts[i]);
        assert(out@ + em_tokens(tv, i + 1) =~= o + em_tokens(tv, i as int));
        i += 1;
    }
    assert(out@ + em_tokens(tv, i as int) =~= out@);
    out
}

/// Escapes the text and renders `**bold**` as `<strong>` and `*emphasis*`
/// as `<em>`, always properly nested.
pub fn apply_inline_md(s: &Vec<char>) -> (r: Vec<char>)
    ensures
        r@ == inline_md(s@),
        balanced(r@),
{
    let mut e: Vec<char> = Vec::new();
    extend_escaped(&mut e, s);
    assert(e@ =~= escaped(s@));
    let ts = bold_pass(&e);
    let r = em_pass(&ts);
    proof {
        lemma_inline_balanced(s@);
    }
    r
}

// ─── Nesting ─────────────────────────────────────────────────────────────

/// Text without `<`.
pub open spec fn no_lt(s: Seq<char>) -> bool {
    forall|i: int| 0 <= i < s.len() ==> s[i] != '<'
}

/// A piece whose text holds no `<`.
pub open spec fn clean_token(t: InlineToken) -> bool {
    match t {
        InlineToken::Text(t) => no_lt(t),
        InlineToken::Bold(b) => no_lt(b),
    }
}

/// Pieces whose texts hold no `<`.
pub open spec fn clean_tokens(ts: Seq<InlineToken>) -> bool {
    forall|i: int| 0 <= i < ts.len() ==> clean_token(#[trigger] ts[i])
}

proof fn lemma_em_tag_names()
    ensures
        tag_name("em"@),
        tag_name("strong"@),
{
    reveal_strlit("em");
    reveal_strlit("strong");
}

proof fn lemma_em_chars_balanced(c: Seq<char>, i: int)
    requires
        no_lt(c),
    ensures
        balanced(em_chars(c, i)),
    decreases c.len() - i,
{
    if i < 0 || i >= c.len() {
        lemma_empty_balanced();
    } else if c[i] == '*' && next_star(c, i + 2) is Some {
        let k = next_star(c, i + 2)->0;
        lemma_next_star(c, i + 2);
        lemma_em_chars_balanced(c, k + 1);
        lemma_text_balanced(c.subrange(i + 1, k));
        lemma_em_tag_names();
        lemma_element_balanced("em"@, c.subrange(i + 1, k));
        lemma_balanced_concat(element("em"@, c.subrange(i + 1, k)), em_chars(c, k + 1));
    } else {
        lemma_em_chars_balanced(c, i + 1);
        lemma_text_balanced(seq![c[i]]);
        lemma_balanced_concat(seq![c[i]], em_chars(c, i + 1));
    }
}

proof fn lemma_token_balanced(t: InlineToken)
    requires
        clean_token(t),
    ensures
        balanced(token_html(t)),
{
    match t {
        InlineToken::Text(t) => {
            lemma_text_balanced(t);
        },
        InlineToken::Bold(b) => {
            lemma_em_chars_balanced(b, 0);
            lemma_em_tag_names();
            lemma_element_balanced("strong"@, em_chars(b, 0));
        },
    }
}

proof fn lemma_tokens_balanced(ts: Seq<InlineToken>)
    requires
        clean_tokens(ts),
    ensures
        balanced(tokens_html(ts)),
    decreases ts.len(),
{
    if ts.len() == 0 {
        lemma_empty_balanced();
    } else {
        lemma_tokens_balanced(ts.drop_last());
        lemma_token_balanced(ts[ts.len() - 1]);
        lemma_balanced_concat(tokens_html(ts.drop_last()), token_html(ts.last()));
    }
}

proof fn lemma_em_tokens_balanced(ts: Seq<InlineToken>, i: int)
    requires
        clean_tokens(ts),
    ensures
        balanced(em_tokens(ts, i)),
    decreases ts.len() - i,
{
    if i < 0 || i >= ts.len() {
        lemma_empty_balanced();
    } else if is_star_token(ts[i]) && next_star_token(ts, i + 2) is Some {
        let k = next_star_token(ts, i + 2)->0;
        lemma_next_star_token(ts, i + 2);
        lemma_em_tokens_balanced(ts, k + 1);
        let inner = ts.subrange(i + 1, k);
        assert(clean_tokens(inner)) by {
            assert forall|m: int| 0 <= m < inner.len() implies clean_token(#[trigger] inner[m]) by {
                assert(inner[m] == ts[i + 1 + m]);
            }
        }
        lemma_tokens_balanced(inner);
        lemma_em_tag_names();
        lemma_element_balanced("em"@, tokens_html(inner));
        lemma_balanced_concat(element("em"@, tokens_html(inner)), em_tokens(ts, k + 1));
    } else {
        lemma_em_tokens_balanced(ts, i + 1);
        lemma_token_balanced(ts[i]);
        lemma_balanced_concat(token_html(ts[i]), em_tokens(ts, i + 1));
    }
}

proof fn lemma_bold_tokens_clean(s: Seq<char>, i: int)
    requires
        no_lt(s),
    ensures
        clean_tokens(bold_tokens(s, i)),
    decreases s.len() - i,
{
    if i < 0 || i >= s.len() {
    } else if i + 1 < s.len() && s[i] == '*' && s[i + 1] == '*' && next_double_star(s, i + 3) is Some {
        let j = next_double_star(s, i + 3)->0;
        lemma_next_double_star(s, i + 3);
        lemma_bold_tokens_clean(s, j + 2);
        let b = s.subrange(i + 2, j);
        assert(no_lt(b)) by {
            assert forall|m: int| 0 <= m < b.len() implies b[m] != '<' by {
                assert(b[m] == s[i + 2 + m]);
            }
        }
        let r = seq![InlineToken::Bold(b)] + bold_tokens(s, j + 2);
        assert forall|m: int| 0 <= m < r.len() implies clean_token(#[trigger] r[m]) by {
            if m > 0 {
                assert(r[m] == bold_tokens(s, j + 2)[m - 1]);
            }
        }
    } else {
        lemma_bold_tokens_clean(s, i + 1);
        let rest = bold_tokens(s, i + 1);
        let r = seq![InlineToken::Text(s.subrange(i, i + 1))] + rest;
        assert(no_lt(s.subrange(i, i + 1))) by {
            let one = s.subrange(i, i + 1);
            assert forall|m: int| 0 <= m < one.len() implies #[trigger] one[m] != '<' by {
                assert(one[m] == s[i + m]);
            }
        }
        assert(bold_tokens(s, i) == r);
        assert forall|m: int| 0 <= m < r.len() implies clean_token(#[trigger] r[m]) by {
            if m > 0 {
                assert(r[m] == rest[m - 1]);
                assert(clean_token(rest[m - 1]));
            }
        }
    }
}

/// The inline markup of any text is balanced: every element it opens it
/// closes, in order, and the text between holds no stray `<`.
pub proof fn lemma_inline_balanced(s: Seq<char>)
    ensures
        balanced(inline_md(s)),
{
    lemma_escaped_has_no_markup(s);
    let e = escaped(s);
    assert(no_lt(e)) by {
        assert forall|i: int| 0 <= i < e.len() implies e[i] != '<' by {
            let c = e[i];
        }
    }
    lemma_bold_tokens_clean(e, 0);
    lemma_em_tokens_balanced(bold_tokens(e, 0), 0);
}

} // verus!
