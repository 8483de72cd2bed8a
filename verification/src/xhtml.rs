//! Well-nested markup: a scan of a text's tags that checks that every
//! closing tag closes the element opened last, and the facts that build
//! well-nested text out of well-nested pieces.
use vstd::prelude::*;

verus! {

/// The state of a scan of tags: the elements open, the text of a tag being
/// read (after its `<`), and whether all was well so far.
pub struct TagScan {
    pub open: Seq<Seq<char>>,
    pub tag: Option<Seq<char>>,
    pub ok: bool,
}

/// A tag read in full (the text between `<` and `>`): `/name` closes the
/// element opened last, which must be `name`; `name/` opens and closes at
/// once; any other non-empty text opens an element of that name.
pub open spec fn finish_tag(open: Seq<Seq<char>>, t: Seq<char>) -> TagScan {
    if t.len() > 0 && t[0] == '/' {
        if open.len() > 0 && open.last() == t.drop_first() {
            TagScan { open: open.drop_last(), tag: None, ok: true }
        } else {
            TagScan { open, tag: None, ok: false }
        }
    } else if t.len() > 0 && t.last() == '/' {
        TagScan { open, tag: None, ok: true }
    } else if t.len() > 0 {
        TagScan { open: open.push(t), tag: None, ok: true }
    } else {
        TagScan { open, tag: None, ok: false }
    }
}

/// One character of the scan. Outside a tag, `<` begins one and any other
/// character is text; inside, `>` ends it and `<` is an error.
pub open spec fn tag_step(st: TagScan, c: char) -> TagScan {
    if !st.ok {
        st
    } else {
        match st.tag {
            Some(t) => if c == '>' {
                finish_tag(st.open, t)
            } else if c == '<' {
                TagScan { ok: false, ..st }
            } else {
                TagScan { tag: Some(t.push(c)), ..st }
            },
            None => if c == '<' {
                TagScan { tag: Some(Seq::empty()), ..st }
            } else {
                st
            },
        }
    }
}

/// The scan of a text from a state.
pub open spec fn tag_run(st: TagScan, s: Seq<char>) -> TagScan
    decreases s.len(),
{
    if s.len() == 0 {
        st
    } else {
        tag_step(tag_run(st, s.drop_last()), s.last())
    }
}

/// Outside any tag, with nothing wrong so far.
pub open spec fn between_tags(st: TagScan) -> bool {
    st.ok && st.tag is None
}

/// Every tag of the text is complete and every element it opens it also
/// closes, in the reverse order of opening.
pub open spec fn well_nested(s: Seq<char>) -> bool {
    tag_run(TagScan { open: Seq::empty(), tag: None, ok: true }, s) == TagScan {
        open: Seq::empty(),
        tag: None,
        ok: true,
    }
}

/// A piece that leaves any scan between tags where it found it: its tags
/// are complete and balanced, and it closes nothing it did not open.
pub open spec fn balanced(s: Seq<char>) -> bool {
    forall|st: TagScan| between_tags(st) ==> #[trigger] tag_run(st, s) == st
}

/// The scan of a concatenation is the scan of the second part from where
/// the first left off.
pub proof fn lemma_tag_run_concat(st: TagScan, a: Seq<char>, b: Seq<char>)
    ensures
        tag_run(st, a + b) == tag_run(tag_run(st, a), b),
    decreases b.len(),
{
    if b.len() == 0 {
        assert(a + b =~= a);
    } else {
        lemma_tag_run_concat(st, a, b.drop_last());
        assert((a + b).drop_last() =~= a + b.drop_last());
        assert((a + b).last() == b.last());
    }
}

/// Balanced pieces put together are balanced.
pub proof fn lemma_balanced_concat(a: Seq<char>, b: Seq<char>)
    requires
        balanced(a),
        balanced(b),
    ensures
        balanced(a + b),
{
    assert forall|st: TagScan| between_tags(st) implies #[trigger] tag_run(st, a + b) == st by {
        lemma_tag_run_concat(st, a, b);
        assert(tag_run(st, a) == st);
    }
}

/// Text without `<` is balanced.
pub proof fn lemma_text_balanced(s: Seq<char>)
    requires
        forall|i: int| 0 <= i < s.len() ==> s[i] != '<',
    ensures
        balanced(s),
    decreases s.len(),
{
    if s.len() > 0 {
        lemma_text_balanced(s.drop_last());
        assert forall|st: TagScan| between_tags(st) implies #[trigger] tag_run(st, s) == st by {
            assert(tag_run(st, s.drop_last()) == st);
            assert(s[s.len() - 1] == s.last());
        }
    } else {
        assert forall|st: TagScan| between_tags(st) implies #[trigger] tag_run(st, s) == st by {}
    }
}

/// The empty text is balanced.
pub proof fn lemma_empty_balanced()
    ensures
        balanced(Seq::<char>::empty()),
{
    lemma_text_balanced(Seq::<char>::empty());
}

/// A name fit for a tag: not empty, no `<`, `>`, and it neither starts nor
/// ends with `/`.
pub open spec fn tag_name(n: Seq<char>) -> bool {
    &&& n.len() > 0
    &&& n[0] != '/'
    &&& n.last() != '/'
    &&& forall|i: int| 0 <= i < n.len() ==> n[i] != '<' && n[i] != '>'
}

proof fn lemma_tag_text(st: TagScan, t: Seq<char>, n: Seq<char>)
    requires
        st.ok,
        st.tag == Some(t),
        forall|i: int| 0 <= i < n.len() ==> n[i] != '<' && n[i] != '>',
    ensures
        tag_run(st, n) == (TagScan { tag: Some(t + n), ..st }),
    decreases n.len(),
{
    if n.len() == 0 {
        assert(t + n =~= t);
    } else {
        lemma_tag_text(st, t, n.drop_last());
        assert(n[n.len() - 1] == n.last());
        assert((t + n.drop_last()).push(n.last()) =~= t + n);
    }
}

/// The tag `<t>`.
pub open spec fn tag_of(t: Seq<char>) -> Seq<char> {
    seq!['<'] + t + seq!['>']
}

/// The element `n` around `x`: `<n>`, `x`, `</n>`.
pub open spec fn element(n: Seq<char>, x: Seq<char>) -> Seq<char> {
    tag_of(n) + x + tag_of(seq!['/'] + n)
}

/// Scanning `<t>` between tags finishes the tag `t`.
proof fn lemma_whole_tag(st: TagScan, t: Seq<char>)
    requires
        between_tags(st),
        forall|i: int| 0 <= i < t.len() ==> t[i] != '<' && t[i] != '>',
    ensures
        tag_run(st, tag_of(t)) == finish_tag(st.open, t),
{
    let lt = seq!['<'];
    assert(lt.drop_last() =~= Seq::<char>::empty());
    assert(tag_run(st, lt.drop_last()) == st);
    assert(lt.last() == '<');
    assert(tag_run(st, lt) == TagScan { tag: Some(Seq::<char>::empty()), ..st });
    lemma_tag_run_concat(st, lt, t);
    lemma_tag_text(TagScan { tag: Some(Seq::<char>::empty()), ..st }, Seq::<char>::empty(), t);
    assert(Seq::<char>::empty() + t =~= t);
    let u = lt + t + seq!['>'];
    assert(u.drop_last() =~= lt + t);
    assert(u.last() == '>');
}

/// An element whose content is balanced is balanced.
pub proof fn lemma_element_balanced(n: Seq<char>, x: Seq<char>)
    requires
        tag_name(n),
        balanced(x),
    ensures
        balanced(element(n, x)),
{
    let close_name = seq!['/'] + n;
    assert(close_name.drop_first() =~= n);
    assert forall|i: int| 0 <= i < close_name.len() implies close_name[i] != '<' && close_name[i] != '>' by {
        if i > 0 {
            assert(close_name[i] == n[i - 1]);
        }
    }
    assert forall|st: TagScan| between_tags(st) implies #[trigger] tag_run(st, element(n, x)) == st by {
        lemma_whole_tag(st, n);
        let st1 = TagScan { open: st.open.push(n), tag: None, ok: true };
        assert(tag_run(st, tag_of(n)) == st1);
        lemma_tag_run_concat(st, tag_of(n), x);
        assert(tag_run(st1, x) == st1);
        lemma_tag_run_concat(st, tag_of(n) + x, tag_of(close_name));
        lemma_whole_tag(st1, close_name);
        assert(st1.open.drop_last() =~= st.open);
    }
}

/// A balanced text inside an element is well nested.
pub proof fn lemma_wrapped_well_nested(n: Seq<char>, x: Seq<char>)
    requires
        tag_name(n),
        balanced(x),
    ensures
        well_nested(element(n, x)),
{
    lemma_element_balanced(n, x);
    let st = TagScan { open: Seq::empty(), tag: None, ok: true };
    assert(between_tags(st));
}

} // verus!
