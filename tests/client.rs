use ipby::get_ip;

#[test]
fn rightmost_entry_wins_without_trusted_proxies() {
    assert_eq!(get_ip("10.0.0.5, 203.0.113.7", "1.1.1.1", &[]), "203.0.113.7");
}

#[test]
fn trusted_proxies_are_skipped_from_the_right() {
    let trusted = ["203.0.113.7", "10.10.10.10"];
    assert_eq!(get_ip("10.0.0.5, 203.0.113.7", "1.1.1.1", &trusted), "10.0.0.5");
    assert_eq!(
        get_ip("8.8.8.8, 10.0.0.5,10.10.10.10 , 203.0.113.7", "1.1.1.1", &trusted),
        "10.0.0.5"
    );
}

#[test]
fn all_trusted_falls_back_to_source() {
    let trusted = ["10.0.0.5", "203.0.113.7"];
    assert_eq!(get_ip("10.0.0.5, 203.0.113.7", "1.1.1.1", &trusted), "1.1.1.1");
}

#[test]
fn empty_chain_falls_back_to_source() {
    assert_eq!(get_ip("", "1.1.1.1", &[]), "1.1.1.1");
    assert_eq!(get_ip("   ", "1.1.1.1", &[]), "1.1.1.1");
    assert_eq!(get_ip("", "", &[]), "");
}

#[test]
fn entries_are_trimmed() {
    assert_eq!(get_ip("  9.9.9.9\t", "1.1.1.1", &[]), "9.9.9.9");
}

#[test]
fn empty_entry_is_an_entry() {
    assert_eq!(get_ip("9.9.9.9, ", "1.1.1.1", &[]), "");
    assert_eq!(get_ip("9.9.9.9, ", "1.1.1.1", &[""]), "9.9.9.9");
}

#[test]
fn result_is_entry_or_fallback() {
    let chains = ["a, b, c", "x", "", "p,q", " , z"];
    let trusted = ["c", "q"];
    for h in chains {
        let r = get_ip(h, "fb", &trusted);
        let entries: Vec<&str> = h.split(',').map(|e| e.trim()).collect();
        if h.trim().is_empty() || entries.iter().all(|e| trusted.contains(e)) {
            assert_eq!(r, "fb");
        } else {
            assert!(entries.contains(&r));
            assert!(!trusted.contains(&r));
        }
    }
}
