//! The command line's own logic: search syntax, REPL lines and aliases,
//! completion, paths and URLs, and result limits.
use vstd::prelude::*;
use crate::pipeline::ImportStatus;
use crate::text::{
    char_width, chars_of, extend_chars, extend_str, has_prefix, is_whitespace, is_ws, join,
    join_chars, lemma_utf8_len_take, matches_at, occurs_at, starts_with, string_of, sub_chars,
    trim, trim_start, trim_str, utf8_len, views,
};

verus! {

// ─── Full-text search syntax ─────────────────────────────────────────────

/// A search word in SQLite FTS5 syntax: `+word` is `word` (FTS5 already
/// requires every word) and `-word` is `NOT word`.
pub open spec fn fts_token(tok: Seq<char>) -> Seq<char> {
    if tok.len() > 1 && tok[0] == '+' {
        tok.skip(1)
    } else if tok.len() > 1 && tok[0] == '-' {
        "NOT "@ + tok.skip(1)
    } else {
        tok
    }
}

/// The finished words with `tok` added, unless it is empty.
pub open spec fn finish_token(done: Seq<Seq<char>>, tok: Seq<char>) -> Seq<Seq<char>> {
    if tok.len() == 0 {
        done
    } else {
        done.push(fts_token(tok))
    }
}

/// The scan of a query: the finished words, and the word being read with
/// whether it is inside quotes (none between words).
pub type FtsState = (Seq<Seq<char>>, Option<(Seq<char>, bool)>);

/// One character read inside a word: a quote is kept and opens or closes a
/// phrase (closing ends the word); unquoted white space ends the word;
/// anything else is kept.
pub open spec fn fts_in_word(done: Seq<Seq<char>>, tok: Seq<char>, quoted: bool, c: char) -> FtsState {
    if c == '"' {
        if quoted {
            (finish_token(done, tok.push('"')), None)
        } else {
            (done, Some((tok.push('"'), true)))
        }
    } else if !quoted && is_ws(c) {
        (finish_token(done, tok), None)
    } else {
        (done, Some((tok.push(c), quoted)))
    }
}

/// One character of the scan: white space between words is skipped; any
/// other character starts a word.
pub open spec fn fts_step(st: FtsState, c: char) -> FtsState {
    match st.1 {
        None => if is_ws(c) {
            st
        } else {
            fts_in_word(st.0, Seq::empty(), false, c)
        },
        Some((tok, quoted)) => fts_in_word(st.0, tok, quoted, c),
    }
}

/// The scan of a whole query.
pub open spec fn fts_state(s: Seq<char>) -> FtsState
    decreases s.len(),
{
    if s.len() == 0 {
        (Seq::empty(), None)
    } else {
        fts_step(fts_state(s.drop_last()), s.last())
    }
}

/// The FTS5 query of a search: its words (quoted phrases kept whole)
/// translated and joined by spaces.
pub open spec fn fts_query(raw: Seq<char>) -> Seq<char> {
    let st = fts_state(raw);
    let words = match st.1 {
        Some((tok, _)) => finish_token(st.0, tok),
        None => st.0,
    };
    join(words, " "@)
}

/// The FTS5 form of a word.
fn fts_token_chars(tok: &Vec<char>) -> (r: Vec<char>)
    ensures
        r@ == fts_token(tok@),
{
    if tok.len() > 1 && tok[0] == '+' {
        sub_chars(tok, 1, tok.len())
    } else if tok.len() > 1 && tok[0] == '-' {
        let rest = sub_chars(tok, 1, tok.len());
        let mut r: Vec<char> = Vec::new();
        extend_str(&mut r, "NOT ");
        extend_chars(&mut r, &rest);
        r
    } else {
        crate::text::copy_chars(tok)
    }
}

/// Adds a finished word.
fn push_token(done: &mut Vec<Vec<char>>, tok: &Vec<char>)
    ensures
        views(final(done)@) == finish_token(views(old(done)@), tok@),
{
    if tok.len() > 0 {
        let t = fts_token_chars(tok);
        let ghost d0 = done@;
        done.push(t);
        assert(views(done@) =~= views(d0).push(t@));
    }
}

/// Translates a search in the familiar syntax (`+required -excluded
/// "exact phrase"`) to SQLite FTS5 syntax.
pub fn parse_fts_query(raw: &str) -> (r: String)
    ensures
        r@ == fts_query(raw@),
{
    let v = chars_of(raw);
    let mut done: Vec<Vec<char>> = Vec::new();
    let mut tok: Vec<char> = Vec::new();
    let mut in_word = false;
    let mut quoted = false;
    let mut i: usize = 0;
    while i < v.len()
        invariant
            i <= v.len(),
            v@ == raw@,
            fts_state(v@.take(i as int)) == (
                views(done@),
                if in_word {
                    Some((tok@, quoted))
                } else {
                    None::<(Seq<char>, bool)>
                },
            ),
        decreases v.len() - i,
    {
        let c = v[i];
        proof {
            assert(v@.take(i + 1).drop_last() =~= v@.take(i as int));
            assert(v@.take(i + 1).last() == c);
        }
        let ws = is_whitespace(c);
        if !in_word && ws {
        } else {
            if !in_word {
                tok = Vec::new();
                quoted = false;
                in_word = true;
            }
            if c == '"' {
                tok.push('"');
                if quoted {
                    push_token(&mut done, &tok);
                    in_word = false;
                    quoted = false;
                } else {
                    quoted = true;
                }
            } else if !quoted && ws {
                push_token(&mut done, &tok);
                in_word = false;
            } else {
                tok.push(c);
            }
        }
        i += 1;
    }
    assert(v@.take(v.len() as int) =~= v@);
    if in_word {
        push_token(&mut done, &tok);
    }
    let r = join_chars(&done, " ");
    string_of(&r)
}

// ─── REPL lines and aliases ───────────────────────────────────────────────

/// What `shell_words::split` makes of a line: its words, or `None` when a
/// quote is left open.
pub uninterp spec fn shell_split(line: Seq<char>) -> Option<Seq<Seq<char>>>;

/// `shell_words::split`: the line's words after shell quoting and escapes.
/// Its only error is an unclosed quote, whose message is
/// `missing closing quote`; the words themselves are named, not restated.
#[verifier::external_body]
fn shell_words_split(line: &str) -> (r: Result<Vec<String>, String>)
    ensures
        match r {
            Ok(ws) => shell_split(line@) == Some(ws@.map_values(|w: String| w@)),
            Err(e) => shell_split(line@) is None && e@ == "missing closing quote"@,
        },
{
    shell_words::split(line).map_err(|e| e.to_string())
}

/// Whether a trimmed REPL line is the import form: `import` followed by a
/// space or a tab.
pub open spec fn is_import_form(t: Seq<char>) -> bool {
    starts_with(t, "import"@) && t.len() > 6 && (t[6] == ' ' || t[6] == '\t')
}

/// The words of a REPL line: none for a blank line; for `import` followed
/// by a space or a tab, the command and everything after it as one path
/// (leading whitespace removed); otherwise the shell words.
pub open spec fn repl_words(line: Seq<char>) -> Option<Seq<Seq<char>>> {
    let t = trim(line);
    if t.len() == 0 {
        Some(Seq::empty())
    } else if is_import_form(t) {
        Some(seq!["import"@, trim_start(t.skip(7))])
    } else {
        shell_split(t)
    }
}

/// Splits a REPL line into words. `import` is special: everything after
/// the space or tab that follows it is one path, spaces included.
pub fn parse_repl_line(line: &str) -> (r: Result<Vec<String>, String>)
    ensures
        match r {
            Ok(ws) => repl_words(line@) == Some(ws@.map_values(|w: String| w@)),
            Err(e) => repl_words(line@) is None && e@ == "missing closing quote"@,
        },
{
    let t = trim_str(line);
    let tv = chars_of(t.as_str());
    if tv.len() == 0 {
        let ws: Vec<String> = Vec::new();
        assert(ws@.map_values(|w: String| w@) =~= Seq::<Seq<char>>::empty());
        return Ok(ws);
    }
    if has_prefix(&tv, "import") && tv.len() > 6 && (tv[6] == ' ' || tv[6] == '\t') {
        proof {
            reveal_strlit("import");
        }
        let rest = sub_chars(&tv, 7, tv.len());
        let path = crate::pdf::layout::trim_start_chars(&rest);
        let mut ws: Vec<String> = Vec::new();
        ws.push("import".to_string());
        ws.push(string_of(&path));
        assert(rest@ =~= tv@.skip(7));
        assert(ws@.map_values(|w: String| w@) =~= seq!["import"@, trim_start(trim(line@).skip(7))]);
        return Ok(ws);
    }
    shell_words_split(t.as_str())
}

/// The arguments of a REPL command: the program name, then the words, the
/// first replaced by the words of its alias when it has one (the alias text
/// itself when it does not split).
pub open spec fn command_args(words: Seq<Seq<char>>, alias: Option<Seq<char>>) -> Seq<Seq<char>> {
    let resolved = if words.len() > 0 && alias is Some {
        let a = alias->0;
        let parts = match shell_split(a) {
            Some(ps) => ps,
            None => seq![a],
        };
        parts + words.skip(1)
    } else {
        words
    };
    seq!["rubrica"@] + resolved
}

/// The arguments of a REPL command, with its alias (looked up for the
/// first word) resolved.
pub fn command_line(words: &Vec<String>, alias: Option<&str>) -> (r: Vec<String>)
    ensures
        r@.map_values(|w: String| w@) == command_args(
            words@.map_values(|w: String| w@),
            crate::library_db::opt_str(alias),
        ),
{
    let ghost ws = words@.map_values(|w: String| w@);
    let mut out: Vec<String> = Vec::new();
    out.push("rubrica".to_string());
    let mut from: usize = 0;
    if words.len() > 0 {
        if let Some(a) = alias {
            let parts = match shell_words_split(a) {
                Ok(ps) => ps,
                Err(_) => {
                    let mut one: Vec<String> = Vec::new();
                    one.push(a.to_string());
                    assert(one@.map_values(|w: String| w@) =~= seq![a@]);
                    one
                },
            };
            let mut k: usize = 0;
            let ghost o0 = out@.map_values(|w: String| w@);
            while k < parts.len()
                invariant
                    k <= parts.len(),
                    out@.map_values(|w: String| w@) == o0 + parts@.map_values(|w: String| w@).take(
                        k as int,
                    ),
                decreases parts.len() - k,
            {
                let ghost before = out@.map_values(|w: String| w@);
                out.push(parts[k].clone());
                assert(out@.map_values(|w: String| w@) =~= before.push(parts@[k as int]@));
                assert(parts@.map_values(|w: String| w@).take(k + 1) =~= parts@.map_values(
                    |w: String| w@,
                ).take(k as int).push(parts@[k as int]@));
                k += 1;
            }
            assert(parts@.map_values(|w: String| w@).take(parts.len() as int) =~= parts@.map_values(
                |w: String| w@,
            ));
            from = 1;
        }
    }
    let ghost o1 = out@.map_values(|w: String| w@);
    let mut i: usize = from;
    while i < words.len()
        invariant
            from <= i <= words.len(),
            from <= 1,
            ws == words@.map_values(|w: String| w@),
            out@.map_values(|w: String| w@) == o1 + ws.subrange(from as int, i as int),
        decreases words.len() - i,
    {
        let ghost before = out@.map_values(|w: String| w@);
        out.push(words[i].clone());
        assert(out@.map_values(|w: String| w@) =~= before.push(ws[i as int]));
        assert(ws.subrange(from as int, i + 1) =~= ws.subrange(from as int, i as int).push(ws[i as int]));
        i += 1;
    }
    proof {
        assert(ws.subrange(from as int, words.len() as int) =~= ws.skip(from as int));
        assert(ws.skip(0) =~= ws);
        assert(out@.map_values(|w: String| w@) =~= command_args(ws, crate::library_db::opt_str(alias)));
    }
    out
}

/// What the `alias` command does.
#[derive(Debug, Clone)]
pub enum AliasCommand {
    /// List the aliases.
    List,
    /// Create or replace an alias.
    Assign { name: String, command: String },
    /// Delete an alias.
    Delete { name: String },
}

/// The `alias` command: without a name it lists the aliases; with a name
/// and no command it deletes that alias; otherwise it sets the alias to the
/// words joined by spaces.
pub fn alias_command(name: Option<String>, command: &Vec<String>) -> (r: AliasCommand)
    ensures
        match name {
            None => r is List,
            Some(n) => {
                let cmd = join(command@.map_values(|w: String| w@), " "@);
                if cmd.len() == 0 {
                    r matches AliasCommand::Delete { name: rn } && rn@ == n@
                } else {
                    r matches AliasCommand::Assign { name: rn, command: rc } && rn@ == n@ && rc@ == cmd
                }
            },
        },
{
    match name {
        None => AliasCommand::List,
        Some(n) => {
            let mut parts: Vec<Vec<char>> = Vec::new();
            let mut i: usize = 0;
            while i < command.len()
                invariant
                    i <= command.len(),
                    views(parts@) == command@.map_values(|w: String| w@).take(i as int),
                decreases command.len() - i,
            {
                let ghost p0 = parts@;
                parts.push(chars_of(command[i].as_str()));
                assert(views(parts@) =~= views(p0).push(command@[i as int]@));
                assert(command@.map_values(|w: String| w@).take(i + 1) =~= command@.map_values(
                    |w: String| w@,
                ).take(i as int).push(command@[i as int]@));
                i += 1;
            }
            assert(command@.map_values(|w: String| w@).take(command.len() as int) =~= command@.map_values(
                |w: String| w@,
            ));
            let cmd = join_chars(&parts, " ");
            if cmd.len() == 0 {
                AliasCommand::Delete { name: n }
            } else {
                AliasCommand::Assign { name: n, command: string_of(&cmd) }
            }
        },
    }
}

/// Where the `books` command takes its books from.
#[derive(Debug, Clone)]
pub enum BooksSource {
    /// A full-text search, already in FTS5 syntax.
    Search(String),
    /// A filtered listing (`Some(true)` keeps normalized books only).
    Filter { normalized: Option<bool> },
}

/// The source of the `books` command: a search when `--fts` is given,
/// else the listing, restricted to normalized books by `--normalized`.
pub fn books_source(fts: Option<&str>, normalized: bool) -> (r: BooksSource)
    ensures
        match fts {
            Some(q) => r matches BooksSource::Search(s) && s@ == fts_query(q@),
            None => r == BooksSource::Filter {
                normalized: if normalized {
                    Some(true)
                } else {
                    None
                },
            },
        },
{
    match fts {
        Some(q) => BooksSource::Search(parse_fts_query(q)),
        None => BooksSource::Filter {
            normalized: if normalized {
                Some(true)
            } else {
                None
            },
        },
    }
}

/// Keeps the first `limit` items when `limit` is set (not 0) and exceeded;
/// says whether it cut.
pub fn apply_limit<T>(items: &mut Vec<T>, limit: usize) -> (cut: bool)
    ensures
        cut == (limit > 0 && old(items).len() > limit),
        cut ==> final(items)@ == old(items)@.take(limit as int),
        !cut ==> final(items)@ == old(items)@,
{
    if limit > 0 && items.len() > limit {
        items.truncate(limit);
        true
    } else {
        false
    }
}

/// Whether a file extension is `epub`, in any ASCII letter case.
pub open spec fn is_epub_ext(ext: Seq<char>) -> bool {
    ext.len() == 4 && ascii_lower(ext[0]) == 'e' && ascii_lower(ext[1]) == 'p' && ascii_lower(ext[2])
        == 'u' && ascii_lower(ext[3]) == 'b'
}

/// The ASCII lower case of a character (`char::to_ascii_lowercase`).
pub open spec fn ascii_lower(c: char) -> char {
    if 'A' <= c <= 'Z' {
        ((c as u32) + 32) as char
    } else {
        c
    }
}

fn to_ascii_lower(c: char) -> (r: char)
    ensures
        r == ascii_lower(c),
{
    if 'A' <= c && c <= 'Z' {
        ((c as u8) + 32) as char
    } else {
        c
    }
}

/// Whether a file extension names an EPUB (`eq_ignore_ascii_case("epub")`).
pub fn is_epub_extension(ext: &str) -> (b: bool)
    ensures
        b == is_epub_ext(ext@),
{
    let v = chars_of(ext);
    v.len() == 4 && to_ascii_lower(v[0]) == 'e' && to_ascii_lower(v[1]) == 'p' && to_ascii_lower(v[2])
        == 'u' && to_ascii_lower(v[3]) == 'b'
}

/// The running count of a batch import.
#[derive(Debug, Clone, Copy, PartialEq, Eq, Structural)]
pub struct ImportTally {
    pub imported: u64,
    pub duplicates: u64,
    pub errors: u64,
}

impl ImportTally {
    /// No file processed yet.
    pub fn new() -> (t: ImportTally)
        ensures
            t == (ImportTally { imported: 0, duplicates: 0, errors: 0 }),
    {
        ImportTally { imported: 0, duplicates: 0, errors: 0 }
    }

    /// The number of files processed so far.
    pub open spec fn total(self) -> int {
        self.imported + self.duplicates + self.errors
    }

    /// Counts the outcome of one file (`None` for a failed import) and
    /// returns its position in the batch, from 1.
    pub fn record(&mut self, outcome: &Option<ImportStatus>) -> (n: u64)
        requires
            old(self).total() < u64::MAX,
        ensures
            n == old(self).total() + 1,
            final(self).total() == old(self).total() + 1,
            match outcome {
                Some(ImportStatus::Imported) => final(self).imported == old(self).imported + 1
                    && final(self).duplicates == old(self).duplicates && final(self).errors
                    == old(self).errors,
                Some(ImportStatus::Duplicate { .. }) => final(self).duplicates == old(self).duplicates
                    + 1 && final(self).imported == old(self).imported && final(self).errors
                    == old(self).errors,
                None => final(self).errors == old(self).errors + 1 && final(self).imported
                    == old(self).imported && final(self).duplicates == old(self).duplicates,
            },
    {
        let n = self.imported + self.duplicates + self.errors + 1;
        match outcome {
            Some(ImportStatus::Imported) => {
                self.imported = self.imported + 1;
            },
            Some(ImportStatus::Duplicate { .. }) => {
                self.duplicates = self.duplicates + 1;
            },
            None => {
                self.errors = self.errors + 1;
            },
        }
        n
    }
}

// ─── Paths and database URLs ─────────────────────────────────────────────

/// `base` joined with `p` as `PathBuf::push` does on Unix: an absolute `p`
/// replaces `base`; otherwise a `/` goes between them unless `base` is empty
/// or already ends with one.
pub open spec fn path_join(base: Seq<char>, p: Seq<char>) -> Seq<char> {
    if p.len() > 0 && p[0] == '/' {
        p
    } else if base.len() == 0 || base.last() == '/' {
        base + p
    } else {
        base + "/"@ + p
    }
}

/// Joins two paths as `PathBuf::push` does on Unix.
pub fn join_path(base: &str, p: &str) -> (r: String)
    ensures
        r@ == path_join(base@, p@),
{
    let bv = chars_of(base);
    let pv = chars_of(p);
    if pv.len() > 0 && pv[0] == '/' {
        return string_of(&pv);
    }
    let mut r = crate::text::copy_chars(&bv);
    if !(bv.len() == 0 || bv[bv.len() - 1] == '/') {
        r.push('/');
    }
    extend_chars(&mut r, &pv);
    proof {
        reveal_strlit("/");
        if !(bv@.len() == 0 || bv@.last() == '/') {
            assert(r@ =~= base@ + "/"@ + p@);
        } else {
            assert(r@ =~= base@ + p@);
        }
    }
    string_of(&r)
}

/// `~/` at the start of a path stands for the home directory, when it is known.
pub open spec fn tilde_expanded(path: Seq<char>, home: Option<Seq<char>>) -> Seq<char> {
    if starts_with(path, "~/"@) && home is Some {
        home->0 + "/"@ + path.skip(2)
    } else {
        path
    }
}

/// Expands a leading `~/` to the home directory (`HOME`), if known.
pub fn expand_tilde(path: &str, home: Option<&str>) -> (r: String)
    ensures
        r@ == tilde_expanded(path@, crate::library_db::opt_str(home)),
{
    let v = chars_of(path);
    if has_prefix(&v, "~/") {
        if let Some(h) = home {
            proof {
                reveal_strlit("~/");
            }
            let rest = sub_chars(&v, 2, v.len());
            let mut r = chars_of(h);
            extend_str(&mut r, "/");
            extend_chars(&mut r, &rest);
            assert(rest@ =~= path@.skip(2));
            return string_of(&r);
        }
    }
    string_of(&v)
}

/// The database URL of a `--db` argument: a `sqlite:` URL as it is;
/// otherwise `sqlite://` and the file's absolute path (relative to the
/// working directory, `.` when that is unknown).
pub open spec fn db_url_of(db: Seq<char>, cwd: Option<Seq<char>>) -> Seq<char> {
    if starts_with(db, "sqlite:"@) {
        db
    } else {
        let abs = if db.len() > 0 && db[0] == '/' {
            db
        } else {
            path_join(
                match cwd {
                    Some(c) => c,
                    None => "."@,
                },
                db,
            )
        };
        "sqlite://"@ + abs
    }
}

/// The database URL of the `--db` argument.
pub fn to_db_url(db: &str, cwd: Option<&str>) -> (r: String)
    ensures
        r@ == db_url_of(db@, crate::library_db::opt_str(cwd)),
{
    let v = chars_of(db);
    if has_prefix(&v, "sqlite:") {
        return string_of(&v);
    }
    let abs = if v.len() > 0 && v[0] == '/' {
        string_of(&v)
    } else {
        let base: &str = match cwd {
            Some(c) => c,
            None => ".",
        };
        join_path(base, db)
    };
    let mut r: Vec<char> = Vec::new();
    extend_str(&mut r, "sqlite://");
    extend_str(&mut r, abs.as_str());
    string_of(&r)
}

// ─── Display ─────────────────────────────────────────────────────────────

/// The number of leading characters whose UTF-8 bytes are exactly `n`, if
/// `n` falls on a character boundary.
pub open spec fn chars_in_bytes(s: Seq<char>, n: nat) -> Option<nat> {
    if exists|m: nat| m <= s.len() && utf8_len(s.take(m as int)) == n {
        Some(choose|m: nat| m <= s.len() && utf8_len(s.take(m as int)) == n)
    } else {
        None
    }
}

/// The cut of a text longer than `max_len` bytes: its first
/// `max_len - 3` bytes (none if fewer) and `...`.
pub open spec fn truncated(s: Seq<char>, max_len: nat) -> Seq<char> {
    if utf8_len(s) > max_len {
        let cut: nat = if max_len >= 3 {
            (max_len - 3) as nat
        } else {
            0
        };
        s.take(chars_in_bytes(s, cut)->0 as int) + "..."@
    } else {
        s
    }
}

/// Whether the cut of `truncate` falls on a character boundary, as
/// slicing a `str` requires.
pub open spec fn truncation_fits(s: Seq<char>, max_len: nat) -> bool {
    utf8_len(s) > max_len ==> chars_in_bytes(
        s,
        if max_len >= 3 {
            (max_len - 3) as nat
        } else {
            0
        },
    ) is Some
}

/// Prefix lengths in bytes grow with the number of characters.
proof fn lemma_utf8_len_take_mono(s: Seq<char>, a: int, b: int)
    requires
        0 <= a < b <= s.len(),
    ensures
        utf8_len(s.take(a)) < utf8_len(s.take(b)),
    decreases b - a,
{
    lemma_utf8_len_take(s, b - 1);
    assert(crate::text::utf8_width(s[b - 1]) > 0);
    if a < b - 1 {
        lemma_utf8_len_take_mono(s, a, b - 1);
    }
}

/// Cuts a text to at most `max_len` bytes, ending it with `...` when it was
/// longer.
pub fn truncate(s: &str, max_len: usize) -> (r: String)
    requires
        utf8_len(s@) <= usize::MAX,
        truncation_fits(s@, max_len as nat),
    ensures
        r@ == truncated(s@, max_len as nat),
{
    proof {
        crate::text::lemma_utf8_len_encode(s@);
    }
    let total = s.len();
    let v = chars_of(s);
    if total <= max_len {
        return string_of(&v);
    }
    let cut: usize = if max_len >= 3 {
        max_len - 3
    } else {
        0
    };
    let ghost target: nat = chars_in_bytes(s@, cut as nat)->0;
    proof {
        assert(target <= s@.len() && utf8_len(s@.take(target as int)) == cut);
    }
    let mut bytes: usize = 0;
    let mut i: usize = 0;
    assert(v@.take(0) =~= Seq::<char>::empty());
    while bytes < cut
        invariant
            v@ == s@,
            i <= target <= v.len(),
            utf8_len(v@.take(target as int)) == cut,
            bytes == utf8_len(v@.take(i as int)),
            cut <= usize::MAX,
        decreases target - i,
    {
        proof {
            assert(i != target);
            lemma_utf8_len_take(v@, i as int);
            if i + 1 < target {
                lemma_utf8_len_take_mono(v@, (i + 1) as int, target as int);
            }
        }
        let w = char_width(v[i]);
        bytes = bytes + w;
        i += 1;
    }
    proof {
        if i < target {
            lemma_utf8_len_take_mono(v@, i as int, target as int);
        }
    }
    let mut r = sub_chars(&v, 0, i);
    extend_str(&mut r, "...");
    assert(r@ =~= s@.take(target as int) + "..."@);
    string_of(&r)
}

// ─── Completion ──────────────────────────────────────────────────────────

/// A completion offered to the line editor.
#[derive(Debug, Clone)]
pub struct Candidate {
    pub display: String,
    pub replacement: String,
}

/// The view of a candidate: what is shown and what replaces the word.
pub open spec fn candidate_view(c: Candidate) -> (Seq<char>, Seq<char>) {
    (c.display@, c.replacement@)
}

/// The completions of a line: the byte offset where the completed word
/// starts, the candidates, and the word to complete as a path, if any (the
/// caller lists that directory).
#[derive(Debug, Clone)]
pub struct Completion {
    pub start: usize,
    pub candidates: Vec<Candidate>,
    pub path_token: Option<String>,
}

/// The commands of the command line.
pub open spec fn command_names() -> Seq<Seq<char>> {
    seq![
        "init"@, "import"@, "import-dir"@, "books"@, "authors"@, "series"@, "add-series"@,
        "delete-series"@, "assign-series"@, "unassign-series"@, "stats"@, "health"@, "normalize"@,
        "serve"@, "delete"@, "export-config"@, "import-config"@, "alias"@, "unalias"@, "exit"@,
        "help"@,
    ]
}

fn command_name_list() -> (v: Vec<&'static str>)
    ensures
        v@.map_values(|w: &str| w@) == command_names(),
{
    let v = vec![
        "init", "import", "import-dir", "books", "authors", "series", "add-series", "delete-series",
        "assign-series", "unassign-series", "stats", "health", "normalize", "serve", "delete",
        "export-config", "import-config", "alias", "unalias", "exit", "help",
    ];
    assert(v@.map_values(|w: &str| w@) =~= command_names());
    v
}

/// The flags of a command.
pub open spec fn command_flags(cmd: Seq<char>) -> Seq<Seq<char>> {
    if cmd == "normalize"@ {
        seq!["--base-dir"@]
    } else if cmd == "serve"@ {
        seq!["--port"@]
    } else if cmd == "books"@ {
        seq![
            "--long"@, "--extralong"@, "--normalized"@, "--author"@, "--series"@, "--fts"@,
            "--ids"@, "--limit"@,
        ]
    } else if cmd == "authors"@ || cmd == "series"@ {
        seq!["--long"@, "--limit"@]
    } else {
        Seq::empty()
    }
}

fn command_flag_list(cmd: &Vec<char>) -> (v: Vec<&'static str>)
    ensures
        v@.map_values(|w: &str| w@) == command_flags(cmd@),
{
    let v: Vec<&'static str> = if crate::text::same_chars_str(cmd, "normalize") {
        vec!["--base-dir"]
    } else if crate::text::same_chars_str(cmd, "serve") {
        vec!["--port"]
    } else if crate::text::same_chars_str(cmd, "books") {
        vec!["--long", "--extralong", "--normalized", "--author", "--series", "--fts", "--ids", "--limit"]
    } else if crate::text::same_chars_str(cmd, "authors") || crate::text::same_chars_str(cmd, "series") {
        vec!["--long", "--limit"]
    } else {
        Vec::new()
    };
    assert(v@.map_values(|w: &str| w@) =~= command_flags(cmd@));
    v
}

/// The names that start with `token`, in order.
pub open spec fn prefixed(names: Seq<Seq<char>>, token: Seq<char>) -> Seq<Seq<char>>
    decreases names.len(),
{
    if names.len() == 0 {
        Seq::empty()
    } else if starts_with(names.last(), token) {
        prefixed(names.drop_last(), token).push(names.last())
    } else {
        prefixed(names.drop_last(), token)
    }
}

/// The candidates of the names that start with `token`, each shown and
/// inserted as it is.
fn prefixed_candidates(names: &Vec<&'static str>, token: &Vec<char>) -> (r: Vec<Candidate>)
    ensures
        r@.map_values(|c: Candidate| candidate_view(c)) == prefixed(
            names@.map_values(|w: &str| w@),
            token@,
        ).map_values(|n: Seq<char>| (n, n)),
{
    let ghost ns = names@.map_values(|w: &str| w@);
    let mut r: Vec<Candidate> = Vec::new();
    let mut i: usize = 0;
    while i < names.len()
        invariant
            i <= names.len(),
            ns == names@.map_values(|w: &str| w@),
            r@.map_values(|c: Candidate| candidate_view(c)) == prefixed(ns.take(i as int), token@).map_values(
                |n: Seq<char>| (n, n),
            ),
        decreases names.len() - i,
    {
        proof {
            assert(ns.take(i + 1).drop_last() =~= ns.take(i as int));
            assert(ns.take(i + 1).last() == names@[i as int]@);
        }
        let name = chars_of(names[i]);
        if crate::text::matches_at(&name, token, 0) {
            proof {
                assert(name@.subrange(0, token@.len() as int) =~= name@.take(token@.len() as int));
            }
            let ghost r0 = r@.map_values(|c: Candidate| candidate_view(c));
            r.push(Candidate { display: names[i].to_string(), replacement: names[i].to_string() });
            assert(r@.map_values(|c: Candidate| candidate_view(c)) =~= r0.push((name@, name@)));
        } else {
            proof {
                if token@.len() <= name@.len() {
                    assert(name@.subrange(0, token@.len() as int) =~= name@.take(token@.len() as int));
                }
            }
        }
        proof {
            let f = |n: Seq<char>| (n, n);
            if starts_with(ns.take(i + 1).last(), token@) {
                assert(prefixed(ns.take(i + 1), token@).map_values(f) =~= prefixed(ns.take(i as int), token@).map_values(f).push(f(ns[i as int])));
            }
        }
        i += 1;
    }
    assert(ns.take(names.len() as int) =~= ns);
    r
}

/// The index of the last white-space character.
pub open spec fn last_ws(p: Seq<char>) -> Option<int>
    decreases p.len(),
{
    if p.len() == 0 {
        None
    } else if is_ws(p.last()) {
        Some(p.len() - 1)
    } else {
        last_ws(p.drop_last())
    }
}

/// Where the word being completed starts: after the last white space.
pub open spec fn word_start(p: Seq<char>) -> int {
    match last_ws(p) {
        Some(i) => i + 1,
        None => 0,
    }
}

/// The length of the run of non-white-space characters at the start.
pub open spec fn word_len(s: Seq<char>) -> nat
    decreases s.len(),
{
    if s.len() == 0 || is_ws(s[0]) {
        0
    } else {
        1 + word_len(s.drop_first())
    }
}

/// The first white-space-separated word, if any.
pub open spec fn first_word(s: Seq<char>) -> Option<Seq<char>> {
    let t = trim_start(s);
    if t.len() == 0 {
        None
    } else {
        Some(t.take(word_len(t) as int))
    }
}

/// The first position, from `i` on, where `pat` occurs.
pub open spec fn find_from(s: Seq<char>, pat: Seq<char>, i: nat) -> Option<nat>
    decreases s.len() + 1 - i,
{
    if i + pat.len() > s.len() {
        None
    } else if occurs_at(s, pat, i as int) {
        Some(i)
    } else {
        find_from(s, pat, i + 1)
    }
}

/// The completions of the text before the cursor: commands for the first
/// word, the command's flags for a word starting with `-`, a path after
/// `import` (from the first `import `), nothing otherwise. The offset is in
/// bytes.
pub open spec fn completion_of(p: Seq<char>) -> (nat, Seq<Seq<char>>, Option<Seq<char>>) {
    let ws = word_start(p);
    let token = p.skip(ws);
    let before = p.take(ws);
    match first_word(before) {
        None => (utf8_len(before), prefixed(command_names(), token), None),
        Some(cmd) => if token.len() > 0 && token[0] == '-' {
            (utf8_len(before), prefixed(command_flags(cmd), token), None)
        } else if cmd == "import"@ {
            match find_from(p, "import "@, 0) {
                Some(k) => (utf8_len(p.take((k + 7) as int)), Seq::empty(), Some(p.skip((k + 7) as int))),
                None => (utf8_len(before), Seq::empty(), Some(token)),
            }
        } else {
            (utf8_len(before), Seq::empty(), None)
        },
    }
}

/// Whether the text before the cursor is one the line editor can cut at
/// its last white space: that character takes one byte (the editor slices
/// right after it).
pub open spec fn completable(p: Seq<char>) -> bool {
    match last_ws(p) {
        Some(i) => crate::text::utf8_width(p[i]) == 1,
        None => true,
    }
}

/// The UTF-8 length of the first `n` characters.
fn utf8_prefix_len(v: &Vec<char>, n: usize) -> (r: usize)
    requires
        n <= v.len(),
        utf8_len(v@) <= usize::MAX,
    ensures
        r == utf8_len(v@.take(n as int)),
{
    let mut bytes: usize = 0;
    let mut i: usize = 0;
    assert(v@.take(0) =~= Seq::<char>::empty());
    while i < n
        invariant
            i <= n <= v.len(),
            utf8_len(v@) <= usize::MAX,
            bytes == utf8_len(v@.take(i as int)),
        decreases n - i,
    {
        proof {
            lemma_utf8_len_take(v@, i as int);
            lemma_utf8_len_prefix_le(v@, (i + 1) as int);
        }
        bytes = bytes + char_width(v[i]);
        i += 1;
    }
    bytes
}

/// A prefix is no longer in bytes than the whole.
proof fn lemma_utf8_len_prefix_le(s: Seq<char>, n: int)
    requires
        0 <= n <= s.len(),
    ensures
        utf8_len(s.take(n)) <= utf8_len(s),
{
    crate::text::lemma_utf8_len_concat(s.take(n), s.skip(n));
    assert(s.take(n) + s.skip(n) =~= s);
}

impl Completion {
    /// The completions of the text before the cursor.
    pub fn complete(prefix: &str) -> (r: Completion)
        requires
            completable(prefix@),
            utf8_len(prefix@) <= usize::MAX,
        ensures
            r.start == completion_of(prefix@).0,
            r.candidates@.map_values(|c: Candidate| candidate_view(c)) == completion_of(prefix@).1.map_values(
                |n: Seq<char>| (n, n),
            ),
            crate::xml::opt_view(r.path_token) == completion_of(prefix@).2,
    {
        let p = chars_of(prefix);
        // The last white space.
        let mut j: usize = p.len();
        assert(p@.take(p.len() as int) =~= p@);
        while j > 0 && !is_whitespace(p[j - 1])
            invariant
                j <= p.len(),
                p@ == prefix@,
                last_ws(p@.take(j as int)) == last_ws(p@),
            decreases j,
        {
            proof {
                assert(p@.take(j as int).drop_last() =~= p@.take(j - 1));
            }
            j -= 1;
        }
        proof {
            if j > 0 {
                assert(p@.take(j as int).last() == p@[j - 1]);
                assert(last_ws(p@.take(j as int)) == Some(j - 1));
            } else {
                assert(p@.take(0) =~= Seq::<char>::empty());
            }
        }
        let ws_end = j;
        assert(word_start(p@) == ws_end);
        let token = sub_chars(&p, ws_end, p.len());
        let before = sub_chars(&p, 0, ws_end);
        assert(token@ =~= p@.skip(ws_end as int));
        assert(before@ =~= p@.take(ws_end as int));
        let start = utf8_prefix_len(&p, ws_end);
        let word = first_word_chars(&before);
        match word {
            None => {
                let names = command_name_list();
                let c = prefixed_candidates(&names, &token);
                Completion { start, candidates: c, path_token: None }
            },
            Some(cmd) => {
                if token.len() > 0 && token[0] == '-' {
                    let flags = command_flag_list(&cmd);
                    let c = prefixed_candidates(&flags, &token);
                    Completion { start, candidates: c, path_token: None }
                } else if crate::text::same_chars_str(&cmd, "import") {
                    let pat = chars_of("import ");
                    proof {
                        reveal_strlit("import ");
                    }
                    match find_chars(&p, &pat) {
                        Some(k) => {
                            let at = utf8_prefix_len(&p, k + 7);
                            let rest = sub_chars(&p, k + 7, p.len());
                            assert(rest@ =~= p@.skip(k + 7));
                            let empty: Vec<Candidate> = Vec::new();
                            assert(empty@.map_values(|c: Candidate| candidate_view(c)) =~= Seq::<Seq<char>>::empty().map_values(|n: Seq<char>| (n, n)));
                            Completion { start: at, candidates: empty, path_token: Some(string_of(&rest)) }
                        },
                        None => {
                            let empty: Vec<Candidate> = Vec::new();
                            assert(empty@.map_values(|c: Candidate| candidate_view(c)) =~= Seq::<Seq<char>>::empty().map_values(|n: Seq<char>| (n, n)));
                            Completion { start, candidates: empty, path_token: Some(string_of(&token)) }
                        },
                    }
                } else {
                    let empty: Vec<Candidate> = Vec::new();
                    assert(empty@.map_values(|c: Candidate| candidate_view(c)) =~= Seq::<Seq<char>>::empty().map_values(|n: Seq<char>| (n, n)));
                    Completion { start, candidates: empty, path_token: None }
                }
            },
        }
    }
}

/// The first word of the characters.
fn first_word_chars(s: &Vec<char>) -> (r: Option<Vec<char>>)
    ensures
        match r {
            Some(w) => first_word(s@) == Some(w@),
            None => first_word(s@) is None,
        },
{
    let t = crate::pdf::layout::trim_start_chars(s);
    if t.len() == 0 {
        return None;
    }
    let mut k: usize = 0;
    assert(t@.skip(0) =~= t@);
    while k < t.len() && !is_whitespace(t[k])
        invariant
            k <= t.len(),
            word_len(t@) == k + word_len(t@.skip(k as int)),
        decreases t.len() - k,
    {
        assert(t@.skip(k as int).drop_first() =~= t@.skip(k + 1));
        k += 1;
    }
    proof {
        if k < t.len() {
            assert(t@.skip(k as int)[0] == t@[k as int]);
        } else {
            assert(t@.skip(k as int).len() == 0);
        }
    }
    Some(sub_chars(&t, 0, k))
}

/// The first position where `pat` occurs.
fn find_chars(s: &Vec<char>, pat: &Vec<char>) -> (r: Option<usize>)
    ensures
        match r {
            Some(k) => find_from(s@, pat@, 0) == Some(k as nat) && k + pat.len() <= s.len(),
            None => find_from(s@, pat@, 0) is None,
        },
{
    if pat.len() > s.len() {
        return None;
    }
    let last = s.len() - pat.len();
    let mut i: usize = 0;
    loop
        invariant
            i <= last,
            last + pat.len() == s.len(),
            find_from(s@, pat@, i as nat) == find_from(s@, pat@, 0),
        decreases last - i,
    {
        if matches_at(s, pat, i) {
            return Some(i);
        }
        if i == last {
            assert(find_from(s@, pat@, (last + 1) as nat) is None);
            return None;
        }
        i += 1;
    }
}

/// How a path being completed splits: the directory part up to the last
/// `/` (`./` when there is none) and the start of the file name.
pub open spec fn path_split(token: Seq<char>) -> (Seq<char>, Seq<char>) {
    match last_slash(token) {
        Some(i) => (token.take(i + 1), token.skip(i + 1)),
        None => ("./"@, token),
    }
}

/// The index of the last `/`.
pub open spec fn last_slash(p: Seq<char>) -> Option<int>
    decreases p.len(),
{
    if p.len() == 0 {
        None
    } else if p.last() == '/' {
        Some(p.len() - 1)
    } else {
        last_slash(p.drop_last())
    }
}

/// The directory to list: a `~/` directory part is under the home
/// directory (nothing is listed when that is unknown).
pub open spec fn listing_dir(dir_part: Seq<char>, home: Option<Seq<char>>) -> Option<Seq<char>> {
    if starts_with(dir_part, "~/"@) {
        match home {
            Some(h) => Some(h + dir_part.skip(1)),
            None => None,
        }
    } else {
        Some(dir_part)
    }
}

/// What completing a path needs: the directory part, the start of the file
/// name, and the directory to list.
#[derive(Debug, Clone)]
pub struct PathQuery {
    pub dir_part: String,
    pub file_prefix: String,
    pub listing: Option<String>,
}

/// Splits a path being completed and says which directory to list.
pub fn path_query(token: &str, home: Option<&str>) -> (q: PathQuery)
    ensures
        q.dir_part@ == path_split(token@).0,
        q.file_prefix@ == path_split(token@).1,
        crate::xml::opt_view(q.listing) == listing_dir(path_split(token@).0, crate::library_db::opt_str(home)),
{
    let t = chars_of(token);
    let mut j: usize = t.len();
    assert(t@.take(t.len() as int) =~= t@);
    while j > 0 && t[j - 1] != '/'
        invariant
            j <= t.len(),
            t@ == token@,
            last_slash(t@.take(j as int)) == last_slash(t@),
        decreases j,
    {
        proof {
            assert(t@.take(j as int).drop_last() =~= t@.take(j - 1));
        }
        j -= 1;
    }
    proof {
        if j > 0 {
            assert(t@.take(j as int).last() == t@[j - 1]);
        } else {
            assert(t@.take(0) =~= Seq::<char>::empty());
        }
    }
    let (dir_part, file_prefix) = if j > 0 {
        let d = sub_chars(&t, 0, j);
        let f = sub_chars(&t, j, t.len());
        assert(d@ =~= t@.take(j as int));
        assert(f@ =~= t@.skip(j as int));
        (d, f)
    } else {
        (chars_of("./"), crate::text::copy_chars(&t))
    };
    let listing = if has_prefix(&dir_part, "~/") {
        match home {
            Some(h) => {
                proof {
                    reveal_strlit("~/");
                }
                let mut l = chars_of(h);
                let rest = sub_chars(&dir_part, 1, dir_part.len());
                assert(rest@ =~= dir_part@.skip(1));
                extend_chars(&mut l, &rest);
                Some(string_of(&l))
            },
            None => None,
        }
    } else {
        Some(string_of(&dir_part))
    };
    PathQuery { dir_part: string_of(&dir_part), file_prefix: string_of(&file_prefix), listing }
}

/// The completions of the directory's entries (name, whether a directory)
/// that start with the prefix: shown as the name, inserted after the
/// directory part, with `/` after a directory.
pub open spec fn path_pairs(dir_part: Seq<char>, prefix: Seq<char>, entries: Seq<(Seq<char>, bool)>) -> Seq<(Seq<char>, Seq<char>)>
    decreases entries.len(),
{
    if entries.len() == 0 {
        Seq::empty()
    } else {
        let prev = path_pairs(dir_part, prefix, entries.drop_last());
        let (name, is_dir) = entries.last();
        let slash = if is_dir {
            "/"@
        } else {
            Seq::empty()
        };
        if starts_with(name, prefix) {
            prev.push((name + slash, dir_part + name + slash))
        } else {
            prev
        }
    }
}

/// The view of directory entries.
pub open spec fn entry_views(es: Seq<(String, bool)>) -> Seq<(Seq<char>, bool)> {
    es.map_values(|e: (String, bool)| (e.0@, e.1))
}

/// The completions of a listed directory.
pub fn path_candidates(dir_part: &str, prefix: &str, entries: &Vec<(String, bool)>) -> (r: Vec<Candidate>)
    ensures
        r@.map_values(|c: Candidate| candidate_view(c)) == path_pairs(dir_part@, prefix@, entry_views(entries@)),
{
    let ghost es = entry_views(entries@);
    let pv = chars_of(prefix);
    let mut r: Vec<Candidate> = Vec::new();
    let mut i: usize = 0;
    while i < entries.len()
        invariant
            i <= entries.len(),
            pv@ == prefix@,
            es == entry_views(entries@),
            r@.map_values(|c: Candidate| candidate_view(c)) == path_pairs(dir_part@, prefix@, es.take(i as int)),
        decreases entries.len() - i,
    {
        proof {
            assert(es.take(i + 1).drop_last() =~= es.take(i as int));
            assert(es.take(i + 1).last() == (entries@[i as int].0@, entries@[i as int].1));
        }
        let name = chars_of(entries[i].0.as_str());
        let is_dir = entries[i].1;
        let m = matches_at(&name, &pv, 0);
        proof {
            if m || pv@.len() <= name@.len() {
                assert(name@.subrange(0, pv@.len() as int) =~= name@.take(pv@.len() as int));
            }
        }
        if m {
            let mut display = crate::text::copy_chars(&name);
            if is_dir {
                display.push('/');
            }
            let mut repl = chars_of(dir_part);
            extend_chars(&mut repl, &display);
            proof {
                reveal_strlit("/");
                let slash = if is_dir {
                    "/"@
                } else {
                    Seq::<char>::empty()
                };
                assert(display@ =~= name@ + slash);
                assert(repl@ =~= dir_part@ + name@ + slash);
            }
            let ghost r0 = r@.map_values(|c: Candidate| candidate_view(c));
            r.push(Candidate { display: string_of(&display), replacement: string_of(&repl) });
            assert(r@.map_values(|c: Candidate| candidate_view(c)) =~= r0.push((display@, repl@)));
        }
        i += 1;
    }
    assert(es.take(entries.len() as int) =~= es);
    r
}

} // verus!
