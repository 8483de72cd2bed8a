use rubrica::cli::{
    alias_command, apply_limit, books_source, command_line, expand_tilde, is_epub_extension, parse_fts_query,
    parse_repl_line, path_candidates, path_query, to_db_url, truncate, AliasCommand, BooksSource, Completion,
    ImportTally,
};
use rubrica::pipeline::ImportStatus;

fn words(ws: &[&str]) -> Vec<String> {
    ws.iter().map(|w| w.to_string()).collect()
}

#[test]
fn fts_syntax_from_the_readme() {
    assert_eq!(parse_fts_query("Dragon Dance"), "Dragon Dance");
    assert_eq!(parse_fts_query("+Dostoievski Crimen"), "Dostoievski Crimen");
    assert_eq!(parse_fts_query("Dragon -Dance"), "Dragon NOT Dance");
    assert_eq!(parse_fts_query("\"The Name of the Wind\""), "\"The Name of the Wind\"");
}

#[test]
fn fts_edge_cases() {
    assert_eq!(parse_fts_query(""), "");
    assert_eq!(parse_fts_query("   "), "");
    assert_eq!(parse_fts_query("+"), "+");
    assert_eq!(parse_fts_query("  -  "), "-");
    assert_eq!(parse_fts_query("a\"b c\"d"), "a\"b c\" d");
    assert_eq!(parse_fts_query("\"abc def"), "\"abc def");
    assert_eq!(parse_fts_query("x\t\ty"), "x y");
}

#[test]
fn repl_lines() {
    assert_eq!(parse_repl_line("   "), Ok(vec![]));
    assert_eq!(
        parse_repl_line("import  /ruta con espacios/libro.epub "),
        Ok(words(&["import", "/ruta con espacios/libro.epub"]))
    );
    assert_eq!(
        parse_repl_line("import\t/home/u/My Book.epub"),
        Ok(words(&["import", "/home/u/My Book.epub"]))
    );
    assert_eq!(parse_repl_line("imports a"), Ok(words(&["imports", "a"])));
    assert_ne!(parse_repl_line("import\u{a0}/x y"), Ok(words(&["import", "/x y"])));
    assert_eq!(
        parse_repl_line("books --author 'García Márquez'"),
        Ok(words(&["books", "--author", "García Márquez"]))
    );
    assert_eq!(parse_repl_line("books \"open"), Err("missing closing quote".to_string()));
}

#[test]
fn aliases_expand_the_first_word() {
    assert_eq!(
        command_line(&words(&["l", "--limit", "2"]), Some("books --long")),
        words(&["rubrica", "books", "--long", "--limit", "2"])
    );
    assert_eq!(command_line(&words(&["x"]), None), words(&["rubrica", "x"]));
    assert_eq!(command_line(&words(&[]), Some("a")), words(&["rubrica"]));
    assert_eq!(command_line(&words(&["q"]), Some("books \"x")), words(&["rubrica", "books \"x"]));
}

#[test]
fn alias_command_decisions() {
    assert!(matches!(alias_command(None, &vec![]), AliasCommand::List));
    match alias_command(Some("l".to_string()), &vec![]) {
        AliasCommand::Delete { name } => assert_eq!(name, "l"),
        other => panic!("unexpected {:?}", other),
    }
    match alias_command(Some("l".to_string()), &words(&["books", "--long"])) {
        AliasCommand::Assign { name, command } => {
            assert_eq!(name, "l");
            assert_eq!(command, "books --long");
        }
        other => panic!("{:?}", other),
    }
}

#[test]
fn books_sources() {
    match books_source(Some("a -b"), true) {
        BooksSource::Search(q) => assert_eq!(q, "a NOT b"),
        other => panic!("{:?}", other),
    }
    assert!(matches!(books_source(None, true), BooksSource::Filter { normalized: Some(true) }));
    assert!(matches!(books_source(None, false), BooksSource::Filter { normalized: None }));
}

#[test]
fn limits() {
    let mut v = vec![1, 2, 3];
    assert!(apply_limit(&mut v, 2));
    assert_eq!(v, vec![1, 2]);
    let mut w = vec![1, 2, 3];
    assert!(!apply_limit(&mut w, 0));
    assert!(!apply_limit(&mut w, 5));
    assert_eq!(w, vec![1, 2, 3]);
}

#[test]
fn epub_extensions() {
    assert!(is_epub_extension("EPUB"));
    assert!(is_epub_extension("ePub"));
    assert!(!is_epub_extension("epub2"));
    assert!(!is_epub_extension("pdf"));
}

#[test]
fn import_tally_counts_each_outcome() {
    let mut t = ImportTally::new();
    assert_eq!(t.record(&Some(ImportStatus::Imported)), 1);
    assert_eq!(t.record(&Some(ImportStatus::Duplicate { existing_id: 3 })), 2);
    assert_eq!(t.record(&None), 3);
    assert_eq!((t.imported, t.duplicates, t.errors), (1, 1, 1));
}

#[test]
fn home_and_urls() {
    assert_eq!(expand_tilde("~/Books", Some("/home/u")), "/home/u/Books");
    assert_eq!(expand_tilde("~/Books", None), "~/Books");
    assert_eq!(expand_tilde("/x", Some("/home/u")), "/x");
    assert_eq!(to_db_url("library.db", Some("/work")), "sqlite:///work/library.db");
    assert_eq!(to_db_url("/abs/l.db", None), "sqlite:///abs/l.db");
    assert_eq!(to_db_url("sqlite::memory:", None), "sqlite::memory:");
    assert_eq!(to_db_url("l.db", None), "sqlite://./l.db");
    assert_eq!(to_db_url("l.db", Some("/w/")), "sqlite:///w/l.db");
}

#[test]
fn truncation_counts_bytes() {
    assert_eq!(truncate("Hola mundo", 20), "Hola mundo");
    assert_eq!(truncate("Hola mundo", 10), "Hola mundo");
    assert_eq!(truncate("Hola mundo", 7), "Hola...");
    assert_eq!(truncate("añoñoño", 6), "añ...");
    assert_eq!(truncate("ab", 1), "...");
}

fn shown(c: &Completion) -> Vec<String> {
    c.candidates.iter().map(|p| p.display.clone()).collect()
}

#[test]
fn completes_commands_and_flags() {
    let c = Completion::complete("bo");
    assert_eq!(c.start, 0);
    assert_eq!(shown(&c), vec!["books"]);
    assert_eq!(Completion::complete("").candidates.len(), 21);
    let f = Completion::complete("books --l");
    assert_eq!(f.start, 6);
    assert_eq!(shown(&f), vec!["--long", "--limit"]);
    assert!(f.path_token.is_none());
    let none = Completion::complete("serve x");
    assert!(none.candidates.is_empty() && none.path_token.is_none());
}

#[test]
fn completes_import_paths() {
    let c = Completion::complete("import ~/Mis Libros/L");
    assert_eq!(c.start, 7);
    assert_eq!(c.path_token, Some("~/Mis Libros/L".to_string()));
    let q = path_query("~/Lib", Some("/home/u"));
    assert_eq!((q.dir_part.as_str(), q.file_prefix.as_str()), ("~/", "Lib"));
    assert_eq!(q.listing, Some("/home/u/".to_string()));
    let local = path_query("Lib", None);
    assert_eq!((local.dir_part.as_str(), local.file_prefix.as_str(), local.listing), ("./", "Lib", Some("./".to_string())));
    assert_eq!(path_query("~/x", None).listing, None);
    let entries = vec![("Libros".to_string(), true), ("Música".to_string(), true), ("Lista.txt".to_string(), false)];
    let cands = path_candidates("~/", "Li", &entries);
    let pairs: Vec<(String, String)> = cands.into_iter().map(|c| (c.display, c.replacement)).collect();
    assert_eq!(
        pairs,
        vec![
            ("Libros/".to_string(), "~/Libros/".to_string()),
            ("Lista.txt".to_string(), "~/Lista.txt".to_string()),
        ]
    );
}
