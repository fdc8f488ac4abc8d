use carpy::reconcile::{dedup_adjacent, filter_by_prefix, has_prefix, reconcile, strip_blank};

fn lines(items: &[&str]) -> Vec<String> {
    items.iter().map(|s| s.to_string()).collect()
}

#[test]
fn prefix_filter_selects_lines_that_begin_with_the_name() {
    let snapshot = lines(&["foo==1.0", "foobar==2.0", "bar==3.0"]);
    assert_eq!(filter_by_prefix(snapshot, "foo"), lines(&["foo==1.0", "foobar==2.0"]));
}

#[test]
fn prefix_filter_keeps_the_order_of_the_snapshot() {
    let snapshot = lines(&["b-2==1", "a==1", "b-1==1", "c==1", "b==3"]);
    assert_eq!(filter_by_prefix(snapshot, "b"), lines(&["b-2==1", "b-1==1", "b==3"]));
}

#[test]
fn prefix_filter_regards_case() {
    let snapshot = lines(&["Flask==2.0", "flask==2.0", "FLASK==2.0"]);
    assert_eq!(filter_by_prefix(snapshot, "flask"), lines(&["flask==2.0"]));
}

#[test]
fn prefix_filter_with_the_empty_name_keeps_every_line() {
    let snapshot = lines(&["a==1", "", "b==2"]);
    assert_eq!(filter_by_prefix(snapshot, ""), lines(&["a==1", "", "b==2"]));
}

#[test]
fn prefix_filter_of_nothing_is_nothing() {
    assert_eq!(filter_by_prefix(Vec::new(), "foo"), Vec::<String>::new());
}

#[test]
fn has_prefix_compares_characters() {
    assert!(has_prefix("requests==2.0", "requests"));
    assert!(has_prefix("requests", "requests"));
    assert!(has_prefix("anything", ""));
    assert!(has_prefix("", ""));
    assert!(!has_prefix("request", "requests"));
    assert!(!has_prefix("", "r"));
    assert!(!has_prefix("Requests==2.0", "requests"));
    assert!(!has_prefix(" requests==2.0", "requests"));
    assert!(has_prefix("naïve==1", "naï"));
    assert!(!has_prefix("naive==1", "naï"));
}

#[test]
fn blank_lines_are_stripped() {
    let prior = lines(&["a==1", "", "b==2"]);
    assert_eq!(reconcile(prior, Vec::new(), "zzz"), lines(&["a==1", "b==2"]));
}

#[test]
fn strip_blank_drops_every_empty_line() {
    assert_eq!(strip_blank(lines(&["", "a", "", "", "b", ""])), lines(&["a", "b"]));
    assert_eq!(strip_blank(lines(&["", ""])), Vec::<String>::new());
    assert_eq!(strip_blank(Vec::new()), Vec::<String>::new());
}

#[test]
fn strip_blank_keeps_lines_of_spaces() {
    assert_eq!(strip_blank(lines(&[" ", "\t", "\r"])), lines(&[" ", "\t", "\r"]));
}

#[test]
fn only_adjacent_duplicates_are_dropped() {
    let prior = lines(&["x==1", "x==1", "y==2", "x==1"]);
    assert_eq!(reconcile(prior, Vec::new(), "zzz"), lines(&["x==1", "y==2", "x==1"]));
}

#[test]
fn dedup_adjacent_keeps_the_first_of_each_run() {
    let given = lines(&["x==1", "x==1", "y==2", "x==1"]);
    assert_eq!(dedup_adjacent(given), lines(&["x==1", "y==2", "x==1"]));
    assert_eq!(dedup_adjacent(lines(&["a", "a", "a"])), lines(&["a"]));
    assert_eq!(dedup_adjacent(lines(&["", "", "a", ""])), lines(&["", "a", ""]));
    assert_eq!(dedup_adjacent(lines(&["a"])), lines(&["a"]));
    assert_eq!(dedup_adjacent(Vec::new()), Vec::<String>::new());
}

#[test]
fn end_to_end_requests() {
    let prior = lines(&["requests==2.0"]);
    let snapshot = lines(&["requests==2.28.1", "urllib3==1.26"]);
    assert_eq!(
        reconcile(prior, snapshot, "requests"),
        lines(&["requests==2.0", "requests==2.28.1"])
    );
}

#[test]
fn reconcile_appends_after_the_prior_lines() {
    let prior = lines(&["zlib==1", "alpha==2"]);
    let snapshot = lines(&["beta==3", "alpha==2", "alphabet==4"]);
    assert_eq!(
        reconcile(prior, snapshot, "alpha"),
        lines(&["zlib==1", "alpha==2", "alphabet==4"])
    );
}

#[test]
fn reconcile_drops_the_appended_line_that_repeats_the_last() {
    let prior = lines(&["a==1", "b==2"]);
    let snapshot = lines(&["b==2", "c==3"]);
    assert_eq!(reconcile(prior, snapshot, "b"), lines(&["a==1", "b==2"]));
}

#[test]
fn reconcile_keeps_an_appended_line_that_repeats_an_earlier_one() {
    let prior = lines(&["b==2", "a==1"]);
    let snapshot = lines(&["b==2"]);
    assert_eq!(reconcile(prior, snapshot, "b"), lines(&["b==2", "a==1", "b==2"]));
}

#[test]
fn reconcile_compacts_before_it_strips() {
    let prior = lines(&["a==1", "", "a==1"]);
    assert_eq!(reconcile(prior, Vec::new(), "zzz"), lines(&["a==1", "a==1"]));
}

#[test]
fn reconcile_with_nothing_installed_adds_nothing() {
    let prior = lines(&["a==1"]);
    let snapshot = lines(&["b==2", "c==3"]);
    assert_eq!(reconcile(prior, snapshot, "missing"), lines(&["a==1"]));
}

#[test]
fn reconcile_of_an_empty_manifest() {
    let snapshot = lines(&["b==2", "c==3"]);
    assert_eq!(reconcile(Vec::new(), snapshot, "c"), lines(&["c==3"]));
    assert_eq!(reconcile(lines(&[""]), Vec::new(), "c"), Vec::<String>::new());
}

#[test]
fn reconcile_twice_with_one_matching_line_changes_nothing() {
    let snapshot = lines(&["requests==2.28.1", "urllib3==1.26"]);
    let once = reconcile(lines(&["requests==2.0"]), snapshot.clone(), "requests");
    let twice = reconcile(once.clone(), snapshot, "requests");
    assert_eq!(once, lines(&["requests==2.0", "requests==2.28.1"]));
    assert_eq!(twice, once);
}

#[test]
fn reconcile_twice_with_two_matching_lines_appends_them_again() {
    let snapshot = lines(&["foo==1.0", "foobar==2.0", "bar==3.0"]);
    let once = reconcile(lines(&["a==1"]), snapshot.clone(), "foo");
    let twice = reconcile(once.clone(), snapshot, "foo");
    assert_eq!(once, lines(&["a==1", "foo==1.0", "foobar==2.0"]));
    assert_eq!(twice, lines(&["a==1", "foo==1.0", "foobar==2.0", "foo==1.0", "foobar==2.0"]));
}

#[test]
fn reconcile_twice_loses_a_line_where_stripping_joined_equal_lines() {
    let once = reconcile(lines(&["a==1", "", "a==1"]), Vec::new(), "zzz");
    let twice = reconcile(once.clone(), Vec::new(), "zzz");
    assert_eq!(once, lines(&["a==1", "a==1"]));
    assert_eq!(twice, lines(&["a==1"]));
}
