use vstd::prelude::*;

use crate::cache::{kind_label, CacheEntry, CacheKind};
use crate::text::{decimal, decimal_text};
use crate::sorting::{
    is_stable_sort, lemma_stable_sort_keeps_entries, sort_entries, sorts_by, EntryOrder,
    SortDirection, SortKey,
};

verus! {

/// The panes of the explorer window.
#[derive(Clone, Copy, Debug, PartialEq, Eq, Structural)]
pub enum Pane {
    Files,
    Preview,
    Details,
}

impl Pane {
    /// The title of the pane's tab.
    pub fn title(&self) -> (text: &'static str)
        ensures
            text@ == match *self {
                Pane::Files => "Cache Files"@,
                Pane::Preview => "Preview"@,
                Pane::Details => "Details"@,
            },
    {
        match self {
            Pane::Files => "Cache Files",
            Pane::Preview => "Preview",
            Pane::Details => "Details",
        }
    }
}

/// The short marker shown before a kind in the file table.
pub fn kind_icon(kind: CacheKind) -> (text: &'static str)
    ensures
        text@ == kind_marker(kind),
{
    match kind {
        CacheKind::Image => "[img]",
        CacheKind::Video => "[vid]",
        CacheKind::Other => "[file]",
    }
}

/// The text of a row's type cell: the kind's marker, then its label.
pub fn kind_cell(kind: CacheKind) -> (text: String)
    ensures
        text@ == kind_marker(kind) + " "@ + kind_label(kind),
{
    let mut text = String::from_str(kind_icon(kind));
    text.append(" ");
    text.append(kind.label());
    text
}

/// The marker of a kind, as `kind_icon` gives it.
pub open spec fn kind_marker(kind: CacheKind) -> Seq<char> {
    match kind {
        CacheKind::Image => "[img]"@,
        CacheKind::Video => "[vid]"@,
        CacheKind::Other => "[file]"@,
    }
}

/// The count above the file table: shown files out of listed ones.
pub fn files_summary(shown: usize, total: usize) -> (text: String)
    ensures
        text@ == decimal(shown as nat) + " / "@ + decimal(total as nat) + " files"@,
{
    let mut text = decimal_text(shown as u64);
    text.append(" / ");
    let all = decimal_text(total as u64);
    text.append(all.as_str());
    text.append(" files");
    text
}

/// Which kinds of file the table shows.
#[derive(Clone, Copy, Debug, PartialEq, Eq, Structural)]
pub struct TypeFilter {
    pub image: bool,
    pub video: bool,
    pub other: bool,
}

/// Whether `filter` lets files of `kind` through.
pub open spec fn filter_admits(filter: TypeFilter, kind: CacheKind) -> bool {
    match kind {
        CacheKind::Image => filter.image,
        CacheKind::Video => filter.video,
        CacheKind::Other => filter.other,
    }
}

/// How many kinds `filter` lets through.
pub open spec fn admitted_count(filter: TypeFilter) -> int {
    (if filter.image { 1int } else { 0int }) + (if filter.video { 1int } else { 0int }) + (
    if filter.other {
        1int
    } else {
        0int
    })
}

impl Default for TypeFilter {
    fn default() -> (filter: Self)
        ensures
            filter.image && filter.video && filter.other,
    {
        TypeFilter { image: true, video: true, other: true }
    }
}

impl TypeFilter {
    /// Whether the filter shows files of `kind`.
    pub fn matches(self, kind: CacheKind) -> (shown: bool)
        ensures
            shown == filter_admits(self, kind),
    {
        match kind {
            CacheKind::Image => self.image,
            CacheKind::Video => self.video,
            CacheKind::Other => self.other,
        }
    }

    /// How many kinds the filter shows.
    pub fn active_count(self) -> (count: usize)
        ensures
            count == admitted_count(self),
    {
        let a: usize = if self.image { 1 } else { 0 };
        let b: usize = if self.video { 1 } else { 0 };
        let c: usize = if self.other { 1 } else { 0 };
        a + b + c
    }

    /// "none" when no kind is shown, "all" when every kind is, else "filtered".
    pub fn label(self) -> (text: &'static str)
        ensures
            text@ == filter_word(self),
    {
        match self.active_count() {
            0 => "none",
            3 => "all",
            _ => "filtered",
        }
    }
}

/// The direction a column sorts in when it is first chosen.
pub open spec fn initial_direction(key: SortKey) -> SortDirection {
    match key {
        SortKey::Name | SortKey::Kind => SortDirection::Ascending,
        SortKey::Modified | SortKey::Size => SortDirection::Descending,
    }
}

/// The direction after the header of `key` is clicked while the table is
/// sorted by `current_key` in `current`: the same column flips, another
/// column starts in its first direction.
pub open spec fn next_direction(current_key: SortKey, current: SortDirection, key: SortKey) -> SortDirection {
    if current_key == key {
        opposite(current)
    } else {
        initial_direction(key)
    }
}

/// The other direction.
pub open spec fn opposite(direction: SortDirection) -> SortDirection {
    match direction {
        SortDirection::Ascending => SortDirection::Descending,
        SortDirection::Descending => SortDirection::Ascending,
    }
}

impl SortKey {
    /// The column's header text.
    pub fn label(self) -> (text: &'static str)
        ensures
            text@ == sort_key_label(self),
    {
        match self {
            SortKey::Name => "Name",
            SortKey::Modified => "Modified",
            SortKey::Kind => "Type",
            SortKey::Size => "Size",
        }
    }

    /// Names and types sort ascending at first; times and sizes descending.
    pub fn default_direction(self) -> (direction: SortDirection)
        ensures
            direction == initial_direction(self),
    {
        match self {
            SortKey::Name | SortKey::Kind => SortDirection::Ascending,
            SortKey::Modified | SortKey::Size => SortDirection::Descending,
        }
    }
}

impl SortDirection {
    /// The other direction.
    pub fn reversed(self) -> (direction: Self)
        ensures
            direction == opposite(self),
    {
        match self {
            SortDirection::Ascending => SortDirection::Descending,
            SortDirection::Descending => SortDirection::Ascending,
        }
    }

    /// The word shown beside the sorted column's header.
    pub fn arrow(self) -> (text: &'static str)
        ensures
            text@ == direction_word(self),
    {
        match self {
            SortDirection::Ascending => "up",
            SortDirection::Descending => "down",
        }
    }
}

/// `found` is the first index of `entries` whose path is `path`, or
/// `None` when no entry has that path.
pub open spec fn first_with_path(entries: Seq<CacheEntry>, path: Seq<u8>, found: Option<usize>) -> bool {
    match found {
        Some(k) => {
            &&& k < entries.len()
            &&& entries[k as int].path@ == path
            &&& forall|j: int| 0 <= j < k ==> #[trigger] entries[j].path@ != path
        },
        None => forall|j: int| 0 <= j < entries.len() ==> #[trigger] entries[j].path@ != path,
    }
}

/// Whether two byte strings are the same.
fn bytes_equal(a: &Vec<u8>, b: &Vec<u8>) -> (same: bool)
    ensures
        same == (a@ == b@),
{
    if a.len() != b.len() {
        return false;
    }
    let mut k: usize = 0;
    while k < a.len()
        invariant
            k <= a.len(),
            a.len() == b.len(),
            forall|j: int| 0 <= j < k ==> a@[j] == b@[j],
        decreases a.len() - k,
    {
        if a[k] != b[k] {
            return false;
        }
        k = k + 1;
    }
    assert(a@ =~= b@);
    true
}

/// The first position in `entries` of an entry with `path`.
fn position_of_path(entries: &Vec<CacheEntry>, path: &Vec<u8>) -> (found: Option<usize>)
    ensures
        first_with_path(entries@, path@, found),
{
    let mut k: usize = 0;
    while k < entries.len()
        invariant
            k <= entries.len(),
            forall|j: int| 0 <= j < k ==> #[trigger] entries@[j].path@ != path@,
        decreases entries.len() - k,
    {
        if bytes_equal(&entries[k].path, path) {
            return Some(k);
        }
        k = k + 1;
    }
    None
}

/// What the explorer window shows and remembers between frames: the
/// listed entries, the selection, the sort, the type filter and the state
/// of the preview. The window itself keeps only the loaded picture, which
/// it holds exactly while `preview_loaded` is set.
pub struct AppState {
    /// The scanned directory, encoded as `CacheEntry::path` is.
    pub cache_dir: Vec<u8>,
    pub entries: Vec<CacheEntry>,
    pub selected: Option<usize>,
    pub sort_key: SortKey,
    pub sort_direction: SortDirection,
    pub type_filter: TypeFilter,
    pub error: Option<String>,
    /// The path whose preview was last loaded, or tried.
    pub preview_path: Option<Vec<u8>>,
    /// A preview picture is loaded.
    pub preview_loaded: bool,
    /// Why the last preview could not be loaded.
    pub preview_error: Option<String>,
}

impl AppState {
    /// The selection, where there is one, points at a listed entry.
    pub open spec fn wf(&self) -> bool {
        self.selected matches Some(i) ==> i < self.entries.len()
    }

    /// No preview is loaded, tried or failed.
    pub open spec fn preview_cleared(&self) -> bool {
        &&& self.preview_path is None
        &&& !self.preview_loaded
        &&& self.preview_error is None
    }

    /// The current sort as an entry order.
    pub open spec fn current_order(&self) -> EntryOrder {
        EntryOrder::Column(self.sort_key, self.sort_direction)
    }

    /// An explorer of `cache_dir` with nothing listed yet, sorted newest first.
    pub fn new(cache_dir: Vec<u8>) -> (state: Self)
        ensures
            state.wf(),
            state.cache_dir == cache_dir,
            state.entries@.len() == 0,
            state.selected is None,
            state.sort_key == SortKey::Modified,
            state.sort_direction == SortDirection::Descending,
            state.type_filter == (TypeFilter { image: true, video: true, other: true }),
            state.error is None,
            state.preview_cleared(),
    {
        AppState {
            cache_dir,
            entries: Vec::new(),
            selected: None,
            sort_key: SortKey::Modified,
            sort_direction: SortDirection::Descending,
            type_filter: TypeFilter::default(),
            error: None,
            preview_path: None,
            preview_loaded: false,
            preview_error: None,
        }
    }

    fn clear_preview(&mut self)
        ensures
            final(self).preview_cleared(),
            final(self).cache_dir == old(self).cache_dir,
            final(self).entries == old(self).entries,
            final(self).selected == old(self).selected,
            final(self).sort_key == old(self).sort_key,
            final(self).sort_direction == old(self).sort_direction,
            final(self).type_filter == old(self).type_filter,
            final(self).error == old(self).error,
    {
        self.preview_path = None;
        self.preview_loaded = false;
        self.preview_error = None;
    }

    /// The selected entry, if the selection points at one.
    pub fn selected_entry(&self) -> (entry: Option<&CacheEntry>)
        ensures
            entry == match self.selected {
                Some(i) => if i < self.entries.len() {
                    Some(&self.entries@[i as int])
                } else {
                    None
                },
                None => None,
            },
    {
        match self.selected {
            Some(i) => if i < self.entries.len() {
                Some(&self.entries[i])
            } else {
                None
            },
            None => None,
        }
    }

    /// Sorts the entries by the current column and direction and moves the
    /// selection to the first entry with the path of the entry selected
    /// before; the selection is dropped where nothing was selected.
    pub fn sort_entries_preserving_selection(&mut self)
        ensures
            final(self).wf(),
            is_stable_sort(old(self).current_order(), old(self).entries@, final(self).entries@),
            match old(self).selected {
                Some(i) => if i < old(self).entries.len() {
                    first_with_path(final(self).entries@, old(self).entries@[i as int].path@, final(self).selected)
                } else {
                    final(self).selected is None
                },
                None => final(self).selected is None,
            },
            final(self).cache_dir == old(self).cache_dir,
            final(self).sort_key == old(self).sort_key,
            final(self).sort_direction == old(self).sort_direction,
            final(self).type_filter == old(self).type_filter,
            final(self).error == old(self).error,
            final(self).preview_path == old(self).preview_path,
            final(self).preview_loaded == old(self).preview_loaded,
            final(self).preview_error == old(self).preview_error,
    {
        let selected_path: Option<Vec<u8>> = match self.selected {
            Some(i) => if i < self.entries.len() {
                let path = self.entries[i].path.clone();
                assert(path@ =~= self.entries@[i as int].path@);
                Some(path)
            } else {
                None
            },
            None => None,
        };
        let mut entries: Vec<CacheEntry> = Vec::new();
        std::mem::swap(&mut entries, &mut self.entries);
        self.entries = sort_entries(entries, EntryOrder::Column(self.sort_key, self.sort_direction));
        self.selected = match selected_path {
            Some(path) => position_of_path(&self.entries, &path),
            None => None,
        };
    }

    /// Picks a column to sort by: the current column flips its direction,
    /// another column takes its first direction. Then sorts.
    pub fn set_sort(&mut self, sort_key: SortKey)
        ensures
            final(self).wf(),
            final(self).sort_key == sort_key,
            final(self).sort_direction == next_direction(
                old(self).sort_key,
                old(self).sort_direction,
                sort_key,
            ),
            is_stable_sort(final(self).current_order(), old(self).entries@, final(self).entries@),
            match old(self).selected {
                Some(i) => if i < old(self).entries.len() {
                    first_with_path(final(self).entries@, old(self).entries@[i as int].path@, final(self).selected)
                } else {
                    final(self).selected is None
                },
                None => final(self).selected is None,
            },
            final(self).cache_dir == old(self).cache_dir,
            final(self).type_filter == old(self).type_filter,
            final(self).error == old(self).error,
            final(self).preview_path == old(self).preview_path,
            final(self).preview_loaded == old(self).preview_loaded,
            final(self).preview_error == old(self).preview_error,
    {
        if self.sort_key == sort_key {
            self.sort_direction = self.sort_direction.reversed();
        } else {
            self.sort_key = sort_key;
            self.sort_direction = sort_key.default_direction();
        }
        self.sort_entries_preserving_selection();
    }

    /// Takes a fresh directory listing: on success the entries are replaced
    /// and sorted, keeping the selection on the path now at the selected
    /// index; on failure the list is emptied and the error kept. Either way
    /// the preview is cleared.
    pub fn reload(&mut self, scan: Result<Vec<CacheEntry>, String>)
        ensures
            final(self).wf(),
            final(self).preview_cleared(),
            final(self).cache_dir == old(self).cache_dir,
            final(self).sort_key == old(self).sort_key,
            final(self).sort_direction == old(self).sort_direction,
            final(self).type_filter == old(self).type_filter,
            match scan {
                Ok(listed) => {
                    &&& final(self).error is None
                    &&& is_stable_sort(old(self).current_order(), listed@, final(self).entries@)
                    &&& match old(self).selected {
                        Some(i) => if i < listed.len() {
                            first_with_path(final(self).entries@, listed@[i as int].path@, final(self).selected)
                        } else {
                            final(self).selected is None
                        },
                        None => final(self).selected is None,
                    }
                },
                Err(message) => {
                    &&& final(self).error == Some(message)
                    &&& final(self).entries@.len() == 0
                    &&& final(self).selected is None
                },
            },
    {
        match scan {
            Ok(listed) => {
                self.entries = listed;
                self.error = None;
                self.sort_entries_preserving_selection();
            },
            Err(message) => {
                self.entries.clear();
                self.selected = None;
                self.error = Some(message);
            },
        }
        self.clear_preview();
    }

    /// Drops the selection, and the preview with it, when the type filter
    /// hides the selected entry.
    pub fn clear_selection_if_filtered_out(&mut self)
        ensures
            match old(self).selected {
                Some(i) if i < old(self).entries.len() && !filter_admits(
                    old(self).type_filter,
                    old(self).entries@[i as int].kind,
                ) => {
                    &&& final(self).selected is None
                    &&& final(self).preview_cleared()
                },
                _ => {
                    &&& final(self).selected == old(self).selected
                    &&& final(self).preview_path == old(self).preview_path
                    &&& final(self).preview_loaded == old(self).preview_loaded
                    &&& final(self).preview_error == old(self).preview_error
                },
            },
            old(self).wf() ==> final(self).wf(),
            final(self).cache_dir == old(self).cache_dir,
            final(self).entries == old(self).entries,
            final(self).sort_key == old(self).sort_key,
            final(self).sort_direction == old(self).sort_direction,
            final(self).type_filter == old(self).type_filter,
            final(self).error == old(self).error,
    {
        let hidden = match self.selected_entry() {
            Some(entry) => !self.type_filter.matches(entry.kind),
            None => false,
        };
        if hidden {
            self.selected = None;
            self.clear_preview();
        }
    }

    /// Takes a changed type filter, then drops a selection that it hides.
    pub fn set_type_filter(&mut self, filter: TypeFilter)
        ensures
            final(self).type_filter == filter,
            match old(self).selected {
                Some(i) if i < old(self).entries.len() && !filter_admits(
                    filter,
                    old(self).entries@[i as int].kind,
                ) => {
                    &&& final(self).selected is None
                    &&& final(self).preview_cleared()
                },
                _ => {
                    &&& final(self).selected == old(self).selected
                    &&& final(self).preview_path == old(self).preview_path
                    &&& final(self).preview_loaded == old(self).preview_loaded
                    &&& final(self).preview_error == old(self).preview_error
                },
            },
            old(self).wf() ==> final(self).wf(),
            old(self).wf() ==> (final(self).selected matches Some(i) ==> filter_admits(
                filter,
                final(self).entries@[i as int].kind,
            )),
            final(self).cache_dir == old(self).cache_dir,
            final(self).entries == old(self).entries,
            final(self).sort_key == old(self).sort_key,
            final(self).sort_direction == old(self).sort_direction,
            final(self).error == old(self).error,
    {
        self.type_filter = filter;
        self.clear_selection_if_filtered_out();
    }

    /// Selects the entry at `index` of the list and clears the preview.
    pub fn select(&mut self, index: usize)
        ensures
            final(self).wf() == (index < old(self).entries.len()),
            final(self).selected == Some(index),
            final(self).preview_cleared(),
            final(self).cache_dir == old(self).cache_dir,
            final(self).entries == old(self).entries,
            final(self).sort_key == old(self).sort_key,
            final(self).sort_direction == old(self).sort_direction,
            final(self).type_filter == old(self).type_filter,
            final(self).error == old(self).error,
    {
        self.selected = Some(index);
        self.clear_preview();
    }

    /// The indices of the listed entries that the type filter shows, in order.
    pub fn filtered_indices(&self) -> (indices: Vec<usize>)
        ensures
            forall|k: int| 0 <= k < indices.len() ==> #[trigger] indices@[k] < self.entries.len()
                && filter_admits(self.type_filter, self.entries@[indices@[k] as int].kind),
            forall|x: int, y: int| 0 <= x < y < indices.len() ==> #[trigger] indices@[x] < #[trigger] indices@[y],
            forall|j: int| 0 <= j < self.entries.len() && filter_admits(self.type_filter, #[trigger] self.entries@[j].kind)
                ==> indices@.contains(j as usize),
    {
        let mut indices: Vec<usize> = Vec::new();
        let mut j: usize = 0;
        while j < self.entries.len()
            invariant
                j <= self.entries.len(),
                forall|k: int| 0 <= k < indices.len() ==> #[trigger] indices@[k] < j
                    && filter_admits(self.type_filter, self.entries@[indices@[k] as int].kind),
                forall|x: int, y: int| 0 <= x < y < indices.len() ==> #[trigger] indices@[x] < #[trigger] indices@[y],
                forall|m: int| 0 <= m < j && filter_admits(self.type_filter, #[trigger] self.entries@[m].kind)
                    ==> indices@.contains(m as usize),
            decreases self.entries.len() - j,
        {
            if self.type_filter.matches(self.entries[j].kind) {
                let ghost before = indices@;
                indices.push(j);
                assert forall|m: int| 0 <= m < j && filter_admits(self.type_filter, #[trigger] self.entries@[m].kind)
                    implies indices@.contains(m as usize) by {
                    let w = choose|w: int| 0 <= w < before.len() && before[w] == m as usize;
                    assert(indices@[w] == m as usize);
                }
                assert(indices@[indices.len() - 1] == j);
            }
            j = j + 1;
        }
        indices
    }

    /// Whether the preview of `path` still has to be loaded: it was not the
    /// last one loaded or tried.
    pub fn needs_preview_load(&self, path: &Vec<u8>) -> (needed: bool)
        ensures
            needed == match self.preview_path {
                Some(p) => p@ != path@,
                None => true,
            },
    {
        match &self.preview_path {
            Some(p) => !bytes_equal(p, path),
            None => true,
        }
    }

    /// Records the outcome of loading the preview of `path`: a loaded
    /// picture, or the error that stopped it.
    pub fn finish_preview_load(&mut self, path: Vec<u8>, outcome: Result<(), String>)
        ensures
            final(self).preview_path == Some(path),
            final(self).preview_loaded == (outcome is Ok),
            final(self).preview_error == match outcome {
                Ok(_) => None,
                Err(message) => Some(message),
            },
            final(self).cache_dir == old(self).cache_dir,
            final(self).entries == old(self).entries,
            final(self).selected == old(self).selected,
            final(self).sort_key == old(self).sort_key,
            final(self).sort_direction == old(self).sort_direction,
            final(self).type_filter == old(self).type_filter,
            final(self).error == old(self).error,
    {
        match outcome {
            Ok(()) => {
                self.preview_loaded = true;
                self.preview_error = None;
            },
            Err(message) => {
                self.preview_loaded = false;
                self.preview_error = Some(message);
            },
        }
        self.preview_path = Some(path);
    }

    /// The header text of `key`'s column: its label, and the direction
    /// where the table is sorted by it.
    pub fn header_label(&self, key: SortKey) -> (text: String)
        ensures
            text@ == if self.sort_key == key {
                sort_key_label(key) + " "@ + direction_word(self.sort_direction)
            } else {
                sort_key_label(key)
            },
    {
        let mut text = String::from_str(key.label());
        if self.sort_key == key {
            text.append(" ");
            text.append(self.sort_direction.arrow());
        }
        text
    }

    /// The line that tells how the table is sorted.
    pub fn sort_summary(&self) -> (text: String)
        ensures
            text@ == "Sorted by "@ + sort_key_label(self.sort_key) + " "@ + direction_word(
                self.sort_direction,
            ),
    {
        let mut text = String::from_str("Sorted by ");
        text.append(self.sort_key.label());
        text.append(" ");
        text.append(self.sort_direction.arrow());
        text
    }

    /// The line that tells which kinds are shown.
    pub fn types_summary(&self) -> (text: String)
        ensures
            text@ == "Types: "@ + filter_word(self.type_filter),
    {
        let mut text = String::from_str("Types: ");
        text.append(self.type_filter.label());
        text
    }
}

/// A column's label, as `SortKey::label` gives it.
pub open spec fn sort_key_label(key: SortKey) -> Seq<char> {
    match key {
        SortKey::Name => "Name"@,
        SortKey::Modified => "Modified"@,
        SortKey::Kind => "Type"@,
        SortKey::Size => "Size"@,
    }
}

/// A direction's word, as `SortDirection::arrow` gives it.
pub open spec fn direction_word(direction: SortDirection) -> Seq<char> {
    match direction {
        SortDirection::Ascending => "up"@,
        SortDirection::Descending => "down"@,
    }
}

/// A filter's word, as `TypeFilter::label` gives it.
pub open spec fn filter_word(filter: TypeFilter) -> Seq<char> {
    if admitted_count(filter) == 0 {
        "none"@
    } else if admitted_count(filter) == 3 {
        "all"@
    } else {
        "filtered"@
    }
}

/// No two entries share a path, as in a directory listing.
pub open spec fn paths_distinct(entries: Seq<CacheEntry>) -> bool {
    forall|x: int, y: int|
        0 <= x < entries.len() && 0 <= y < entries.len() && x != y ==> #[trigger] entries[x].path@
            != #[trigger] entries[y].path@
}

/// Sorting keeps the selection on the same entry: where paths are
/// distinct, the entry selected after sorting is the one selected before.
pub proof fn lemma_selection_follows_entry(
    order: EntryOrder,
    before: Seq<CacheEntry>,
    after: Seq<CacheEntry>,
    i: int,
    selected: Option<usize>,
)
    requires
        is_stable_sort(order, before, after),
        paths_distinct(before),
        0 <= i < before.len(),
        first_with_path(after, before[i].path@, selected),
    ensures
        selected matches Some(k) && after[k as int] == before[i],
{
    lemma_stable_sort_keeps_entries(order, before, after, i);
    let k = choose|k: int| 0 <= k < after.len() && after[k] == before[i];
    assert(after[k].path@ == before[i].path@);
    let p = choose|p: Seq<int>| sorts_by(order, before, after, p);
    let s = selected->0 as int;
    assert(after[s] == before[p[s]]);
    assert(after[s].path@ == before[i].path@);
}

/// Clicking the same header twice undoes the second click's flip: on the
/// sorted column it restores the direction, on another column it leaves the
/// opposite of that column's first direction.
pub proof fn lemma_same_header_twice(current_key: SortKey, current: SortDirection, key: SortKey)
    ensures
        next_direction(key, next_direction(current_key, current, key), key) == if current_key
            == key {
            current
        } else {
            opposite(initial_direction(key))
        },
        opposite(opposite(current)) == current,
{
}

/// The filter the explorer starts with shows every kind.
pub proof fn lemma_default_filter_shows_all(kind: CacheKind)
    ensures
        filter_admits(TypeFilter { image: true, video: true, other: true }, kind),
        admitted_count(TypeFilter { image: true, video: true, other: true }) == 3,
{
}

/// Each kind is shown exactly when its own checkbox is set, whatever the
/// other two checkboxes say.
pub proof fn lemma_filter_follows_own_checkbox(filter: TypeFilter, other: TypeFilter)
    ensures
        filter_admits(filter, CacheKind::Image) == filter.image,
        filter_admits(filter, CacheKind::Video) == filter.video,
        filter_admits(filter, CacheKind::Other) == filter.other,
        filter.image == other.image ==> filter_admits(filter, CacheKind::Image) == filter_admits(
            other,
            CacheKind::Image,
        ),
        filter.video == other.video ==> filter_admits(filter, CacheKind::Video) == filter_admits(
            other,
            CacheKind::Video,
        ),
        filter.other == other.other ==> filter_admits(filter, CacheKind::Other) == filter_admits(
            other,
            CacheKind::Other,
        ),
{
}

/// The count behind the filter's label is the number of kinds the filter
/// shows: "all" exactly when every kind is shown, "none" exactly when none is.
pub proof fn lemma_filter_count_is_shown_kinds(filter: TypeFilter)
    ensures
        admitted_count(filter) == (if filter_admits(filter, CacheKind::Image) {
            1int
        } else {
            0int
        }) + (if filter_admits(filter, CacheKind::Video) {
            1int
        } else {
            0int
        }) + (if filter_admits(filter, CacheKind::Other) {
            1int
        } else {
            0int
        }),
        (admitted_count(filter) == 3) == (forall|k: CacheKind| filter_admits(filter, k)),
        (admitted_count(filter) == 0) == (forall|k: CacheKind| !filter_admits(filter, k)),
{
    if admitted_count(filter) != 3 {
        if !filter.image {
            assert(!filter_admits(filter, CacheKind::Image));
        } else if !filter.video {
            assert(!filter_admits(filter, CacheKind::Video));
        } else {
            assert(!filter_admits(filter, CacheKind::Other));
        }
    }
    if admitted_count(filter) != 0 {
        if filter.image {
            assert(filter_admits(filter, CacheKind::Image));
        } else if filter.video {
            assert(filter_admits(filter, CacheKind::Video));
        } else {
            assert(filter_admits(filter, CacheKind::Other));
        }
    }
}

} // verus!
