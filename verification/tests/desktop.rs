use rubrica::desktop::{grid_search_query, reading_time};

#[test]
fn blank_search_lists_everything() {
    assert_eq!(grid_search_query(""), None);
    assert_eq!(grid_search_query("   \t "), None);
}

#[test]
fn search_drops_quotes_and_asks_for_a_prefix() {
    assert_eq!(grid_search_query("dune"), Some("dune*".to_string()));
    assert_eq!(grid_search_query("\"El nombre\""), Some("El nombre*".to_string()));
    assert_eq!(grid_search_query(" tol "), Some(" tol *".to_string()));
}

#[test]
fn reading_time_under_an_hour_in_minutes() {
    assert_eq!(reading_time(0), "0 minutos");
    assert_eq!(reading_time(59), "0 minutos");
    assert_eq!(reading_time(600), "10 minutos");
    assert_eq!(reading_time(3599), "59 minutos");
}

#[test]
fn reading_time_from_an_hour_in_hours_and_minutes() {
    assert_eq!(reading_time(3600), "1h 0m");
    assert_eq!(reading_time(3700), "1h 1m");
    assert_eq!(reading_time(7325), "2h 2m");
}

#[test]
fn negative_reading_time_truncates_toward_zero() {
    assert_eq!(reading_time(-125), "-2 minutos");
}
