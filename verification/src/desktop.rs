//! The decisions of the desktop pages: the full-text query that the grid's
//! search box sends, and the reading-time label of the statistics page.
use vstd::prelude::*;
use crate::markup::{decimal, decimal_chars, signed_decimal, signed_decimal_chars};
use crate::text::{chars_of, extend_chars, extend_str, string_of, trim, trim_chars};

verus! {

/// The characters of `s` other than `"`, in order.
pub open spec fn without_quotes(s: Seq<char>) -> Seq<char>
    decreases s.len(),
{
    if s.len() == 0 {
        Seq::empty()
    } else {
        let rest = without_quotes(s.drop_last());
        if s.last() == '"' {
            rest
        } else {
            rest.push(s.last())
        }
    }
}

/// The prefix query that the search box sends to the full-text index: the
/// text without double quotes, followed by `*`.
pub open spec fn prefix_query(text: Seq<char>) -> Seq<char> {
    without_quotes(text).push('*')
}

/// What the grid lists for the text of its search box: everything when the
/// text is blank (`None`), else the books that match its prefix query.
pub fn grid_search_query(text: &str) -> (q: Option<String>)
    ensures
        trim(text@).len() == 0 ==> q is None,
        trim(text@).len() != 0 ==> q is Some && q->0@ == prefix_query(text@),
{
    let v = chars_of(text);
    let t = trim_chars(&v);
    if t.len() == 0 {
        return None;
    }
    let mut out: Vec<char> = Vec::new();
    let mut i: usize = 0;
    while i < v.len()
        invariant
            i <= v.len(),
            out@ == without_quotes(v@.take(i as int)),
        decreases v.len() - i,
    {
        assert(v@.take(i + 1).drop_last() == v@.take(i as int));
        if v[i] != '"' {
            out.push(v[i]);
        }
        i += 1;
    }
    assert(v@.take(v.len() as int) == v@);
    out.push('*');
    Some(string_of(&out))
}

/// Whole minutes in `secs` seconds, truncated toward zero as integer
/// division does.
pub open spec fn whole_minutes(secs: int) -> int {
    if secs >= 0 {
        secs / 60
    } else {
        -((-secs) / 60)
    }
}

/// The label of a total reading time: `"{h}h {m}m"` from one hour on, else
/// `"{m} minutos"`.
pub open spec fn reading_time_label(secs: int) -> Seq<char> {
    let mins = whole_minutes(secs);
    let hours = whole_minutes(mins);
    if hours > 0 {
        decimal(hours as nat) + "h "@ + decimal((mins % 60) as nat) + "m"@
    } else {
        signed_decimal(mins) + " minutos"@
    }
}

/// Integer division by 60, truncated toward zero.
fn div_60(x: i64) -> (q: i64)
    ensures
        q == whole_minutes(x as int),
{
    match x.checked_div(60) {
        Some(q) => q,
        None => 0,
    }
}

/// The label that the statistics page shows for a total reading time in
/// seconds.
pub fn reading_time(total_secs: i64) -> (label: String)
    ensures
        label@ == reading_time_label(total_secs as int),
{
    let mins = div_60(total_secs);
    let hours = div_60(mins);
    let mut v: Vec<char> = Vec::new();
    if hours > 0 {
        let rest = mins - hours * 60;
        assert(rest == mins % 60);
        let h = decimal_chars(hours as u64);
        extend_chars(&mut v, &h);
        extend_str(&mut v, "h ");
        let m = decimal_chars(rest as u64);
        extend_chars(&mut v, &m);
        extend_str(&mut v, "m");
    } else {
        let m = signed_decimal_chars(mins);
        extend_chars(&mut v, &m);
        extend_str(&mut v, " minutos");
    }
    string_of(&v)
}

} // verus!
