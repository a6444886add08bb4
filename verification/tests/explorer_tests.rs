use discord_cache_explorer::cache::{CacheEntry, CacheKind};
use discord_cache_explorer::explorer::{files_summary, kind_cell, kind_icon, AppState, Pane, TypeFilter};
use discord_cache_explorer::sorting::{SortDirection, SortKey};

fn entry(name: &str, len: u64, modified: Option<i128>, kind: CacheKind) -> CacheEntry {
    CacheEntry {
        path: format!("/cache/{name}").into_bytes(),
        file_name: name.to_string(),
        len,
        modified,
        kind,
    }
}

fn listing() -> Vec<CacheEntry> {
    vec![
        entry("f_old", 300, Some(10), CacheKind::Image),
        entry("f_new", 100, Some(30), CacheKind::Video),
        entry("f_mid", 200, Some(20), CacheKind::Other),
    ]
}

fn names(state: &AppState) -> Vec<String> {
    state.entries.iter().map(|e| e.file_name.clone()).collect()
}

#[test]
fn pane_titles_and_icons() {
    assert_eq!(Pane::Files.title(), "Cache Files");
    assert_eq!(Pane::Preview.title(), "Preview");
    assert_eq!(Pane::Details.title(), "Details");
    assert_eq!(kind_icon(CacheKind::Image), "[img]");
    assert_eq!(kind_icon(CacheKind::Video), "[vid]");
    assert_eq!(kind_icon(CacheKind::Other), "[file]");
    assert_eq!(kind_cell(CacheKind::Video), "[vid] video");
}

#[test]
fn type_filter_words() {
    let all = TypeFilter::default();
    assert!(all.image && all.video && all.other);
    assert_eq!(all.active_count(), 3);
    assert_eq!(all.label(), "all");
    let none = TypeFilter { image: false, video: false, other: false };
    assert_eq!(none.active_count(), 0);
    assert_eq!(none.label(), "none");
    let some = TypeFilter { image: true, video: false, other: true };
    assert_eq!(some.active_count(), 2);
    assert_eq!(some.label(), "filtered");
    assert!(some.matches(CacheKind::Image));
    assert!(!some.matches(CacheKind::Video));
    assert!(some.matches(CacheKind::Other));
}

#[test]
fn sort_key_words() {
    assert_eq!(SortKey::Name.label(), "Name");
    assert_eq!(SortKey::Modified.label(), "Modified");
    assert_eq!(SortKey::Kind.label(), "Type");
    assert_eq!(SortKey::Size.label(), "Size");
    assert_eq!(SortKey::Name.default_direction(), SortDirection::Ascending);
    assert_eq!(SortKey::Kind.default_direction(), SortDirection::Ascending);
    assert_eq!(SortKey::Modified.default_direction(), SortDirection::Descending);
    assert_eq!(SortKey::Size.default_direction(), SortDirection::Descending);
    assert_eq!(SortDirection::Ascending.reversed(), SortDirection::Descending);
    assert_eq!(SortDirection::Descending.reversed().reversed(), SortDirection::Descending);
    assert_eq!(SortDirection::Ascending.arrow(), "up");
    assert_eq!(SortDirection::Descending.arrow(), "down");
}

#[test]
fn starts_newest_first_and_empty() {
    let state = AppState::new(b"/cache".to_vec());
    assert!(state.entries.is_empty());
    assert_eq!(state.selected, None);
    assert_eq!(state.sort_key, SortKey::Modified);
    assert_eq!(state.sort_direction, SortDirection::Descending);
    assert_eq!(state.type_filter, TypeFilter::default());
    assert_eq!(state.sort_summary(), "Sorted by Modified down");
    assert_eq!(state.types_summary(), "Types: all");
}

#[test]
fn reload_sorts_and_reports_errors() {
    let mut state = AppState::new(b"/cache".to_vec());
    state.reload(Ok(listing()));
    assert_eq!(names(&state), vec!["f_new", "f_mid", "f_old"]);
    assert_eq!(state.error, None);
    state.select(0);
    state.finish_preview_load(b"/cache/f_new".to_vec(), Ok(()));
    state.reload(Err("failed to read cache directory /cache".to_string()));
    assert!(state.entries.is_empty());
    assert_eq!(state.selected, None);
    assert_eq!(state.error.as_deref(), Some("failed to read cache directory /cache"));
    assert_eq!(state.preview_path, None);
    assert!(!state.preview_loaded);
}

#[test]
fn reload_keeps_the_path_at_the_selected_index() {
    let mut state = AppState::new(b"/cache".to_vec());
    state.reload(Ok(listing()));
    state.select(2);
    assert_eq!(state.selected_entry().map(|e| e.file_name.clone()), Some("f_old".to_string()));
    state.reload(Ok(listing()));
    assert_eq!(state.selected_entry().map(|e| e.file_name.clone()), Some("f_mid".to_string()));
    assert_eq!(state.selected, Some(1));
    state.select(1);
    state.reload(Ok(vec![entry("only", 1, None, CacheKind::Other)]));
    assert_eq!(state.selected, None);
}

#[test]
fn set_sort_flips_or_starts_fresh() {
    let mut state = AppState::new(b"/cache".to_vec());
    state.reload(Ok(listing()));
    state.select(0);
    assert_eq!(state.selected_entry().map(|e| e.file_name.clone()), Some("f_new".to_string()));
    state.set_sort(SortKey::Modified);
    assert_eq!(state.sort_direction, SortDirection::Ascending);
    assert_eq!(names(&state), vec!["f_old", "f_mid", "f_new"]);
    assert_eq!(state.selected, Some(2));
    state.set_sort(SortKey::Modified);
    assert_eq!(state.sort_direction, SortDirection::Descending);
    assert_eq!(state.selected, Some(0));
    state.set_sort(SortKey::Size);
    assert_eq!(state.sort_key, SortKey::Size);
    assert_eq!(state.sort_direction, SortDirection::Descending);
    assert_eq!(names(&state), vec!["f_old", "f_mid", "f_new"]);
    assert_eq!(state.selected_entry().map(|e| e.file_name.clone()), Some("f_new".to_string()));
    state.set_sort(SortKey::Name);
    assert_eq!(state.sort_direction, SortDirection::Ascending);
    assert_eq!(names(&state), vec!["f_mid", "f_new", "f_old"]);
    assert_eq!(state.header_label(SortKey::Name), "Name up");
    assert_eq!(state.header_label(SortKey::Size), "Size");
    assert_eq!(state.header_label(SortKey::Kind), "Type");
}

#[test]
fn filter_hides_selection() {
    let mut state = AppState::new(b"/cache".to_vec());
    state.reload(Ok(listing()));
    state.select(0);
    state.finish_preview_load(b"/cache/f_new".to_vec(), Ok(()));
    state.set_type_filter(TypeFilter { image: true, video: true, other: false });
    assert_eq!(state.selected, Some(0));
    assert!(state.preview_loaded);
    state.set_type_filter(TypeFilter { image: true, video: false, other: false });
    assert_eq!(state.selected, None);
    assert_eq!(state.preview_path, None);
    assert!(!state.preview_loaded);
    assert_eq!(state.filtered_indices(), vec![2]);
    assert_eq!(state.types_summary(), "Types: filtered");
    assert_eq!(files_summary(state.filtered_indices().len(), state.entries.len()), "1 / 3 files");
}

#[test]
fn clearing_keeps_visible_selection() {
    let mut state = AppState::new(b"/cache".to_vec());
    state.reload(Ok(listing()));
    state.select(1);
    state.clear_selection_if_filtered_out();
    assert_eq!(state.selected, Some(1));
    state.type_filter = TypeFilter { image: false, video: false, other: false };
    state.clear_selection_if_filtered_out();
    assert_eq!(state.selected, None);
    assert!(state.filtered_indices().is_empty());
}

#[test]
fn preview_loads_once_per_path() {
    let mut state = AppState::new(b"/cache".to_vec());
    let path = b"/cache/f_new".to_vec();
    assert!(state.needs_preview_load(&path));
    state.finish_preview_load(path.clone(), Err("ffmpeg failed with status 1".to_string()));
    assert!(!state.needs_preview_load(&path));
    assert!(state.needs_preview_load(&b"/cache/other".to_vec()));
    assert!(!state.preview_loaded);
    assert_eq!(state.preview_error.as_deref(), Some("ffmpeg failed with status 1"));
    state.finish_preview_load(path.clone(), Ok(()));
    assert!(state.preview_loaded);
    assert_eq!(state.preview_error, None);
}

#[test]
fn selection_survives_reordering_by_path() {
    let mut state = AppState::new(b"/cache".to_vec());
    state.reload(Ok(listing()));
    state.select(1);
    let chosen = state.selected_entry().map(|e| e.path.clone());
    for key in [SortKey::Name, SortKey::Kind, SortKey::Size, SortKey::Modified, SortKey::Kind] {
        state.set_sort(key);
        assert_eq!(state.selected_entry().map(|e| e.path.clone()), chosen);
    }
}

#[test]
fn selection_tells_paths_apart_byte_by_byte() {
    let mut state = AppState::new(vec![0x2f, 0xff, 0xfe]);
    let mut first = entry("same", 1, Some(1), CacheKind::Other);
    first.path = vec![0x2f, 0x63, 0xff];
    let mut second = entry("same", 1, Some(2), CacheKind::Other);
    second.path = vec![0x2f, 0x63, 0xfe];
    state.reload(Ok(vec![first, second]));
    state.select(1);
    assert_eq!(state.selected_entry().map(|e| e.path.clone()), Some(vec![0x2f, 0x63, 0xff]));
    state.set_sort(SortKey::Modified);
    assert_eq!(state.selected, Some(0));
    assert_eq!(state.selected_entry().map(|e| e.path.clone()), Some(vec![0x2f, 0x63, 0xff]));
    assert_eq!(state.cache_dir, vec![0x2f, 0xff, 0xfe]);
}
