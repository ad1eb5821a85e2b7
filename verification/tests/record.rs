use pagewalk::record::{append_matching, Item, Page, Record};

fn record(record_id: i64, author_id: i64) -> Record {
    Record {
        record_id,
        author_id,
        author_name: String::from("someone"),
        author_avatar: String::new(),
        content: format!("text {}", record_id),
        timestamp: 0,
        like_count: 0,
    }
}

#[test]
fn append_matching_keeps_order_and_what_was_there() {
    let mut into = vec![record(1, 5)];
    let page = vec![record(2, 9), record(3, 5), record(4, 5), record(5, 8), record(6, 5)];
    append_matching(&mut into, page, 5);
    assert_eq!(into, vec![record(1, 5), record(3, 5), record(4, 5), record(6, 5)]);
}

#[test]
fn append_matching_with_no_match_changes_nothing() {
    let mut into = vec![record(1, 5)];
    append_matching(&mut into, vec![record(2, 9), record(3, 8)], 5);
    assert_eq!(into, vec![record(1, 5)]);
    append_matching(&mut into, Vec::new(), 5);
    assert_eq!(into, vec![record(1, 5)]);
}

#[test]
fn append_matching_takes_negative_authors() {
    let mut into = Vec::new();
    append_matching(&mut into, vec![record(1, -1), record(2, 1), record(3, i64::MIN)], i64::MIN);
    assert_eq!(into, vec![record(3, i64::MIN)]);
}

#[test]
fn new_page_counts_its_records() {
    let page = Page::new(vec![record(1, 1), record(2, 2), record(3, 3)]);
    assert_eq!(page.raw_count, 3);
    assert_eq!(page.records.len(), 3);
    assert_eq!(Page::new(Vec::new()).raw_count, 0);
}

#[test]
fn duplicate_copies_the_item() {
    let item = Item { id: -4, name: String::from("晴天") };
    assert_eq!(item.duplicate(), item);
}
