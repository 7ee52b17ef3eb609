use muote::engyls::{any_quote_fits_all_authors, check_quote_at, pick_fitting_quote, ConfigManager};

fn quotes(items: &[&str]) -> Vec<String> {
    items.iter().map(|s| s.to_string()).collect()
}

#[test]
fn engyls_paths() {
    let dir = ConfigManager::config_dir();
    assert!(dir.ends_with(b"/marxist_quote"));
    assert_eq!(ConfigManager::authors_path(), [dir.as_slice(), b"/authors.json"].concat());
    assert_eq!(ConfigManager::settings_path(), [dir.as_slice(), b"/settings.json"].concat());
}

#[test]
fn fitting_quote_stays_in_pool() {
    let mut pool = quotes(&["fits"]);
    assert_eq!(pick_fitting_quote(&mut pool, 4), Some("fits".to_string()));
    assert_eq!(pool, quotes(&["fits"]));
}

#[test]
fn long_quotes_are_dropped() {
    let mut pool = quotes(&["far too long", "ok", "also far too long"]);
    assert_eq!(pick_fitting_quote(&mut pool, 2), Some("ok".to_string()));
    assert!(pool.contains(&"ok".to_string()));
    let mut none = quotes(&["far too long", "also far too long"]);
    assert_eq!(pick_fitting_quote(&mut none, 2), None);
    assert!(none.is_empty());
}

#[test]
fn check_quote_keeps_or_drops() {
    let mut pool = quotes(&["short", "much longer"]);
    assert_eq!(check_quote_at(&mut pool, 0, 5), Some("short".to_string()));
    assert_eq!(pool.len(), 2);
    assert_eq!(check_quote_at(&mut pool, 1, 5), None);
    assert_eq!(pool, quotes(&["short"]));
}

#[test]
fn fits_any_author() {
    let fetched = vec![Some(quotes(&["long long"])), Some(quotes(&["tiny"])), None];
    assert_eq!(any_quote_fits_all_authors(&fetched, 4), Ok(true));
    let failed = vec![Some(quotes(&["long long"])), None, Some(quotes(&["tiny"]))];
    assert_eq!(any_quote_fits_all_authors(&failed, 4), Err(1));
    let none_fit = vec![Some(quotes(&["long long"])), Some(Vec::new())];
    assert_eq!(any_quote_fits_all_authors(&none_fit, 4), Ok(false));
    assert_eq!(any_quote_fits_all_authors(&Vec::new(), 4), Ok(false));
}

#[test]
fn engyls_pool_keeps_order() {
    for _ in 0..20 {
        let mut pool = quotes(&["aaaa", "bbbb", "ok", "cccc"]);
        assert_eq!(pick_fitting_quote(&mut pool, 2), Some("ok".to_string()));
        let order = ["aaaa", "bbbb", "ok", "cccc"];
        let mut last = 0;
        for q in &pool {
            let at = order.iter().position(|o| o == q).unwrap();
            assert!(at >= last);
            last = at;
        }
    }
}
