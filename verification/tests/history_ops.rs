use line_relay::history::History;

#[test]
fn new_history_is_empty() {
    let h = History::new();
    assert_eq!(h.size(), 0);
    assert_eq!(h.last(), None);
    assert_eq!(h.get(0), None);
    assert_eq!(h.get(1), None);
    assert_eq!(h.rget(0), None);
}

#[test]
fn from_lines_keeps_only_non_empty_lines() {
    let lines = vec![
        String::from("ls"),
        String::new(),
        String::from("cd /tmp"),
        String::new(),
    ];
    let h = History::from_lines(lines);
    assert_eq!(h.size(), 2);
    assert_eq!(h.get(1), Some(&String::from("ls")));
    assert_eq!(h.get(2), Some(&String::from("cd /tmp")));
}

#[test]
fn push_trims_surrounding_whitespace() {
    let mut h = History::new();
    h.push(&String::from("  make test \n"));
    assert_eq!(h.size(), 1);
    assert_eq!(h.get(1), Some(&String::from("make test")));
    assert_eq!(h.last(), Some(&String::from("make test")));
}

#[test]
fn get_counts_from_one_at_the_front() {
    let mut h = History::new();
    h.push(&String::from("a"));
    h.push(&String::from("b"));
    h.push(&String::from("c"));
    assert_eq!(h.get(0), None);
    assert_eq!(h.get(1), Some(&String::from("a")));
    assert_eq!(h.get(3), Some(&String::from("c")));
    assert_eq!(h.get(4), None);
}

#[test]
fn rget_counts_from_zero_at_the_back() {
    let mut h = History::new();
    h.push(&String::from("a"));
    h.push(&String::from("b"));
    h.push(&String::from("c"));
    assert_eq!(h.rget(0), Some(&String::from("c")));
    assert_eq!(h.rget(2), Some(&String::from("a")));
    assert_eq!(h.rget(3), None);
    assert_eq!(h.last(), Some(&String::from("c")));
}
