use mirrorman::filter::{claim_from_output, FilterSearch};

#[test]
fn claim_is_trimmed_stdout() {
    assert_eq!(claim_from_output(true, b"  html\n".to_vec()), Some("html".to_string()));
    assert_eq!(claim_from_output(true, b"md".to_vec()), Some("md".to_string()));
}

#[test]
fn failed_or_garbled_query_is_no_claim() {
    assert_eq!(claim_from_output(false, b"html\n".to_vec()), None);
    assert_eq!(claim_from_output(true, vec![0xff, 0xfe]), None);
}

#[test]
fn first_claiming_filter_wins() {
    let mut search = FilterSearch::start("page.x", true, 2);
    assert_eq!(search.extension().map(|e| e.as_str()), Some("x"));
    assert_eq!(search.next_query(), Some(0));
    search.record(Some("y".to_string()));
    assert_eq!(search.next_query(), None);
    let choice = search.choice().unwrap();
    assert_eq!(choice.index, 0);
    assert_eq!(choice.extension, "y");
}

#[test]
fn later_filter_claims_after_refusals() {
    let mut search = FilterSearch::start("page.x", true, 3);
    search.record(None);
    assert_eq!(search.next_query(), Some(1));
    search.record(Some("z".to_string()));
    assert_eq!(search.next_query(), None);
    assert_eq!(search.choice().unwrap().index, 1);
}

#[test]
fn unclaimed_after_every_filter() {
    let mut search = FilterSearch::start("page.x", true, 1);
    search.record(None);
    assert_eq!(search.next_query(), None);
    assert!(search.choice().is_none());
}

#[test]
fn entry_without_extension_asks_nobody() {
    let search = FilterSearch::start("Makefile", true, 3);
    assert_eq!(search.next_query(), None);
    assert!(search.choice().is_none());
    let dir = FilterSearch::start("photos.d", false, 3);
    assert_eq!(dir.next_query(), None);
    assert!(dir.extension().is_none());
    let none = FilterSearch::start("a.txt", true, 0);
    assert_eq!(none.next_query(), None);
}
