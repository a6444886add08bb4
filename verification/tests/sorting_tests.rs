use std::cmp::Ordering;

use discord_cache_explorer::cache::{CacheEntry, CacheKind};
use discord_cache_explorer::sorting::{
    compare_modified, sort_entries, EntryOrder, SortDirection, SortKey,
};
use discord_cache_explorer::text_order::naturalish_cmp;

fn entry(name: &str, len: u64, modified: Option<i128>, kind: CacheKind) -> CacheEntry {
    CacheEntry {
        path: format!("/cache/{name}").into_bytes(),
        file_name: name.to_string(),
        len,
        modified,
        kind,
    }
}

fn names(entries: &[CacheEntry]) -> Vec<&str> {
    entries.iter().map(|e| e.file_name.as_str()).collect()
}

#[test]
fn naturalish_ignores_ascii_case_first() {
    assert_eq!(naturalish_cmp("apple", "Banana"), Ordering::Less);
    assert_eq!(naturalish_cmp("Banana", "apple"), Ordering::Greater);
    assert_eq!(naturalish_cmp("data_1", "data_1"), Ordering::Equal);
    assert_eq!(naturalish_cmp("A", "a"), Ordering::Less);
    assert_eq!(naturalish_cmp("a", "A"), Ordering::Greater);
    assert_eq!(naturalish_cmp("f_1", "f_10"), Ordering::Less);
    assert_eq!(naturalish_cmp("", "x"), Ordering::Less);
    assert_eq!(naturalish_cmp("Zeta", "alpha"), Ordering::Greater);
}

#[test]
fn modified_times_compare_known_first() {
    assert_eq!(compare_modified(Some(1), Some(2)), Ordering::Less);
    assert_eq!(compare_modified(Some(2), Some(2)), Ordering::Equal);
    assert_eq!(compare_modified(Some(-5), None), Ordering::Less);
    assert_eq!(compare_modified(None, Some(0)), Ordering::Greater);
    assert_eq!(compare_modified(None, None), Ordering::Equal);
}

#[test]
fn columns_compare_with_name_tiebreak() {
    let a = entry("b", 10, Some(1), CacheKind::Video);
    let b = entry("a", 10, Some(1), CacheKind::Image);
    let c = entry("c", 10, Some(1), CacheKind::Other);
    assert_eq!(SortKey::Size.compare(&a, &b), Ordering::Greater);
    assert_eq!(SortKey::Name.compare(&a, &b), Ordering::Greater);
    assert_eq!(SortKey::Modified.compare(&a, &b), Ordering::Equal);
    assert_eq!(SortKey::Kind.compare(&b, &c), Ordering::Less);
    assert_eq!(SortKey::Kind.compare(&c, &a), Ordering::Less);
    assert_eq!(SortKey::Kind.compare(&a, &a), Ordering::Equal);
}

#[test]
fn newest_first_then_by_name() {
    let entries = vec![
        entry("old", 1, Some(100), CacheKind::Other),
        entry("unknown", 1, None, CacheKind::Other),
        entry("new_b", 1, Some(300), CacheKind::Other),
        entry("new_a", 1, Some(300), CacheKind::Other),
        entry("Mid", 1, Some(200), CacheKind::Other),
    ];
    let sorted = sort_entries(entries, EntryOrder::Newest);
    assert_eq!(names(&sorted), vec!["new_a", "new_b", "Mid", "old", "unknown"]);
}

#[test]
fn newest_first_compares_names_exactly() {
    let entries = vec![
        entry("b", 1, None, CacheKind::Other),
        entry("B", 1, None, CacheKind::Other),
        entry("a", 1, None, CacheKind::Other),
    ];
    let sorted = sort_entries(entries, EntryOrder::Newest);
    assert_eq!(names(&sorted), vec!["B", "a", "b"]);
}

#[test]
fn sorts_by_each_column() {
    let entries = vec![
        entry("delta", 40, Some(4), CacheKind::Video),
        entry("Alpha", 10, Some(1), CacheKind::Image),
        entry("charlie", 30, None, CacheKind::Other),
        entry("bravo", 20, Some(2), CacheKind::Image),
    ];
    let by = |key, dir| names(&sort_entries(entries.clone(), EntryOrder::Column(key, dir)))
        .into_iter()
        .map(String::from)
        .collect::<Vec<_>>();
    assert_eq!(by(SortKey::Name, SortDirection::Ascending), vec!["Alpha", "bravo", "charlie", "delta"]);
    assert_eq!(by(SortKey::Name, SortDirection::Descending), vec!["delta", "charlie", "bravo", "Alpha"]);
    assert_eq!(by(SortKey::Size, SortDirection::Descending), vec!["delta", "charlie", "bravo", "Alpha"]);
    assert_eq!(by(SortKey::Modified, SortDirection::Ascending), vec!["Alpha", "bravo", "delta", "charlie"]);
    assert_eq!(by(SortKey::Modified, SortDirection::Descending), vec!["charlie", "delta", "bravo", "Alpha"]);
    assert_eq!(by(SortKey::Kind, SortDirection::Ascending), vec!["Alpha", "bravo", "charlie", "delta"]);
    assert_eq!(by(SortKey::Kind, SortDirection::Descending), vec!["delta", "charlie", "bravo", "Alpha"]);
}

#[test]
fn ties_keep_their_order() {
    let entries = vec![
        entry("x", 1, Some(5), CacheKind::Image),
        entry("y", 2, None, CacheKind::Image),
        entry("z", 3, Some(5), CacheKind::Image),
        entry("w", 4, Some(5), CacheKind::Image),
    ];
    let asc = sort_entries(entries.clone(), EntryOrder::Column(SortKey::Modified, SortDirection::Ascending));
    assert_eq!(names(&asc), vec!["x", "z", "w", "y"]);
    let desc = sort_entries(entries, EntryOrder::Column(SortKey::Modified, SortDirection::Descending));
    assert_eq!(names(&desc), vec!["y", "x", "z", "w"]);
}

#[test]
fn sorting_keeps_every_entry() {
    let mut entries = Vec::new();
    for i in 0..200u64 {
        let name = format!("f_{:03}", (i * 37) % 200);
        entries.push(entry(&name, i % 7, Some((i % 5) as i128), CacheKind::Other));
    }
    let sorted = sort_entries(entries.clone(), EntryOrder::Column(SortKey::Size, SortDirection::Ascending));
    assert_eq!(sorted.len(), entries.len());
    let mut expected = entries.clone();
    expected.sort_by(|a, b| a.len.cmp(&b.len).then_with(|| naturalish_cmp(&a.file_name, &b.file_name)));
    assert_eq!(names(&sorted), names(&expected));
    let newest = sort_entries(entries.clone(), EntryOrder::Newest);
    let mut expected = entries;
    expected.sort_by(|a, b| b.modified.cmp(&a.modified).then_with(|| a.file_name.cmp(&b.file_name)));
    assert_eq!(names(&newest), names(&expected));
}

#[test]
fn sorting_nothing() {
    assert!(sort_entries(Vec::new(), EntryOrder::Newest).is_empty());
}

#[test]
fn sorting_twice_gives_the_same_arrangement() {
    let entries = vec![
        entry("b", 5, Some(1), CacheKind::Video),
        entry("a", 5, Some(1), CacheKind::Image),
        entry("c", 1, Some(1), CacheKind::Image),
    ];
    let order = EntryOrder::Column(SortKey::Modified, SortDirection::Descending);
    let once = sort_entries(entries.clone(), order);
    let twice = sort_entries(once.clone(), order);
    assert_eq!(names(&once), vec!["b", "a", "c"]);
    assert_eq!(names(&twice), names(&once));
}

#[test]
fn newest_first_ignores_walk_order() {
    let entries = vec![
        entry("c", 1, Some(7), CacheKind::Other),
        entry("a", 1, Some(7), CacheKind::Image),
        entry("d", 1, None, CacheKind::Video),
        entry("b", 1, Some(9), CacheKind::Other),
        entry("e", 1, None, CacheKind::Other),
    ];
    let expected = vec!["b", "a", "c", "d", "e"];
    let mut walk = entries.clone();
    for _ in 0..walk.len() {
        walk.rotate_left(1);
        assert_eq!(names(&sort_entries(walk.clone(), EntryOrder::Newest)), expected);
        let mut reversed = walk.clone();
        reversed.reverse();
        assert_eq!(names(&sort_entries(reversed, EntryOrder::Newest)), expected);
    }
}
