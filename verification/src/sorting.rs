use core::cmp::Ordering;
use vstd::prelude::*;

use crate::cache::{kind_label, CacheEntry, CacheKind};
use crate::text_order::{
    codes, codes_equal, codes_less, codes_of, folded, folded_codes_of, lemma_lex_facts,
    lemma_name_facts, lemma_name_order_ignores_ascii_case, lex_less, name_less,
    same_but_ascii_case,
};

verus! {

/// The column by which the file table is sorted.
#[derive(Clone, Copy, Debug, PartialEq, Eq, Structural)]
pub enum SortKey {
    Name,
    Modified,
    Kind,
    Size,
}

/// Which way the file table is sorted.
#[derive(Clone, Copy, Debug, PartialEq, Eq, Structural)]
pub enum SortDirection {
    Ascending,
    Descending,
}

/// An order in which entries can be arranged: newest first, as a directory
/// scan lists them, or by a column of the table in a direction.
#[derive(Clone, Copy, Debug, PartialEq, Eq, Structural)]
pub enum EntryOrder {
    Newest,
    Column(SortKey, SortDirection),
}

/// Kinds ordered as their labels are: "image" < "other" < "video".
pub open spec fn kind_rank(kind: CacheKind) -> int {
    match kind {
        CacheKind::Image => 0,
        CacheKind::Other => 1,
        CacheKind::Video => 2,
    }
}

/// Ascending order of modification times: known times by value, and every
/// known time before an unknown one.
pub open spec fn modified_less(a: Option<i128>, b: Option<i128>) -> bool {
    match (a, b) {
        (Some(x), Some(y)) => x < y,
        (Some(_), None) => true,
        _ => false,
    }
}

/// `a` is newer than `b`: a later known time, or a known time against an unknown one.
pub open spec fn newer(a: Option<i128>, b: Option<i128>) -> bool {
    match (a, b) {
        (Some(x), Some(y)) => x > y,
        (Some(_), None) => true,
        _ => false,
    }
}

/// `a` sorts strictly before `b` by `key`, ascending. Every key but
/// `Modified` breaks ties by name.
pub open spec fn key_less(key: SortKey, a: CacheEntry, b: CacheEntry) -> bool {
    match key {
        SortKey::Name => name_less(a.file_name@, b.file_name@),
        SortKey::Modified => modified_less(a.modified, b.modified),
        SortKey::Kind => kind_rank(a.kind) < kind_rank(b.kind) || (a.kind == b.kind
            && name_less(a.file_name@, b.file_name@)),
        SortKey::Size => a.len < b.len || (a.len == b.len && name_less(
            a.file_name@,
            b.file_name@,
        )),
    }
}

/// `a` and `b` are equal as far as `key` tells.
pub open spec fn key_tie(key: SortKey, a: CacheEntry, b: CacheEntry) -> bool {
    match key {
        SortKey::Name => a.file_name@ == b.file_name@,
        SortKey::Modified => a.modified == b.modified,
        SortKey::Kind => a.kind == b.kind && a.file_name@ == b.file_name@,
        SortKey::Size => a.len == b.len && a.file_name@ == b.file_name@,
    }
}

/// `a` comes strictly before `b` in `order`.
pub open spec fn order_less(order: EntryOrder, a: CacheEntry, b: CacheEntry) -> bool {
    match order {
        EntryOrder::Newest => newer(a.modified, b.modified) || (a.modified == b.modified
            && lex_less(codes(a.file_name@), codes(b.file_name@))),
        EntryOrder::Column(key, SortDirection::Ascending) => key_less(key, a, b),
        EntryOrder::Column(key, SortDirection::Descending) => key_less(key, b, a),
    }
}

/// `order` does not tell `a` and `b` apart.
pub open spec fn order_tie(order: EntryOrder, a: CacheEntry, b: CacheEntry) -> bool {
    match order {
        EntryOrder::Newest => a.modified == b.modified && a.file_name@ == b.file_name@,
        EntryOrder::Column(key, _) => key_tie(key, a, b),
    }
}

/// In a stable arrangement of `s` by `order`, the entry at index `i` goes
/// before the one at index `j`: it is smaller, or tied and earlier.
pub open spec fn precedes(order: EntryOrder, s: Seq<CacheEntry>, i: int, j: int) -> bool {
    ||| order_less(order, s[i], s[j])
    ||| order_tie(order, s[i], s[j]) && i < j
}

/// Some position of `p` holds `j`.
pub open spec fn lists_index(p: Seq<int>, j: int) -> bool {
    exists|k: int| 0 <= k < p.len() && p[k] == j
}

spec fn taken_before(p: Seq<usize>, k: int, j: int) -> bool {
    exists|m: int| 0 <= m < k && p[m] == j
}

spec fn lists_position(p: Seq<usize>, j: int) -> bool {
    exists|k: int| 0 <= k < p.len() && p[k] == j
}

/// `output` is `input` rearranged by the permutation `p` of its indices,
/// in which the indices come in the order that `precedes` gives.
pub open spec fn sorts_by(
    order: EntryOrder,
    input: Seq<CacheEntry>,
    output: Seq<CacheEntry>,
    p: Seq<int>,
) -> bool {
    &&& p.len() == input.len()
    &&& output.len() == input.len()
    &&& forall|k: int| 0 <= k < p.len() ==> 0 <= #[trigger] p[k] < input.len()
    &&& forall|k: int| 0 <= k < p.len() ==> #[trigger] output[k] == input[p[k]]
    &&& forall|j: int| 0 <= j < input.len() ==> #[trigger] lists_index(p, j)
    &&& forall|x: int, y: int|
        0 <= x < y < p.len() ==> precedes(order, input, #[trigger] p[x], #[trigger] p[y])
}

/// `output` is the stable sort of `input` by `order`.
pub open spec fn is_stable_sort(
    order: EntryOrder,
    input: Seq<CacheEntry>,
    output: Seq<CacheEntry>,
) -> bool {
    exists|p: Seq<int>| sorts_by(order, input, output, p)
}

/// Each order is a strict weak order whose ties are an equivalence.
pub proof fn lemma_order_facts(order: EntryOrder, a: CacheEntry, b: CacheEntry, c: CacheEntry)
    ensures
        order_tie(order, a, a),
        !order_less(order, a, a),
        order_tie(order, a, b) ==> order_tie(order, b, a),
        order_less(order, a, b) || order_tie(order, a, b) || order_less(order, b, a),
        order_less(order, a, b) ==> !order_tie(order, a, b) && !order_less(order, b, a),
        order_less(order, a, b) && order_less(order, b, c) ==> order_less(order, a, c),
        order_less(order, a, b) && order_tie(order, b, c) ==> order_less(order, a, c),
        order_tie(order, a, b) && order_less(order, b, c) ==> order_less(order, a, c),
        order_tie(order, a, b) && order_tie(order, b, c) ==> order_tie(order, a, c),
{
    let (x, y, z) = (a.file_name@, b.file_name@, c.file_name@);
    lemma_name_facts(x, y, z);
    lemma_name_facts(y, x, z);
    lemma_name_facts(y, z, x);
    lemma_name_facts(z, y, x);
    lemma_name_facts(x, z, y);
    lemma_name_facts(z, x, y);
    lemma_lex_facts(codes(x), codes(y), codes(z));
    lemma_lex_facts(codes(y), codes(x), codes(z));
    lemma_lex_facts(codes(y), codes(z), codes(x));
    lemma_lex_facts(codes(z), codes(y), codes(x));
    lemma_lex_facts(codes(x), codes(z), codes(y));
    lemma_lex_facts(codes(z), codes(x), codes(y));
    if codes(x) == codes(y) {
        crate::text_order::lemma_codes_injective(x, y);
    }
    if codes(y) == codes(z) {
        crate::text_order::lemma_codes_injective(y, z);
    }
}

/// `precedes` is a strict total order on the indices of `s`.
pub proof fn lemma_precedes_facts(order: EntryOrder, s: Seq<CacheEntry>, i: int, j: int, l: int)
    ensures
        !precedes(order, s, i, i),
        i != j ==> precedes(order, s, i, j) || precedes(order, s, j, i),
        precedes(order, s, i, j) ==> !precedes(order, s, j, i),
        precedes(order, s, i, j) && precedes(order, s, j, l) ==> precedes(order, s, i, l),
{
    lemma_order_facts(order, s[i], s[j], s[l]);
    lemma_order_facts(order, s[j], s[i], s[l]);
}

/// What the comparisons of names need to know of a name: its code points
/// before and after ASCII lowercasing.
struct NameKey {
    folded: Vec<u32>,
    raw: Vec<u32>,
}

spec fn describes(key: NameKey, name: Seq<char>) -> bool {
    key.folded@ == folded(name) && key.raw@ == codes(name)
}

fn name_key(name: &String) -> (key: NameKey)
    ensures
        describes(key, name@),
{
    NameKey { folded: folded_codes_of(name.as_str()), raw: codes_of(name.as_str()) }
}

fn name_key_less(a: &NameKey, b: &NameKey) -> (less: bool)
    ensures
        forall|x: Seq<char>, y: Seq<char>|
            describes(*a, x) && describes(*b, y) ==> less == name_less(x, y),
{
    codes_less(&a.folded, &b.folded) || (codes_equal(&a.folded, &b.folded) && codes_less(
        &a.raw,
        &b.raw,
    ))
}

fn kind_rank_of(kind: CacheKind) -> (rank: u8)
    ensures
        rank == kind_rank(kind),
{
    match kind {
        CacheKind::Image => 0,
        CacheKind::Other => 1,
        CacheKind::Video => 2,
    }
}

/// Whether one modification time sorts before another, ascending.
fn modified_before(a: Option<i128>, b: Option<i128>) -> (less: bool)
    ensures
        less == modified_less(a, b),
{
    match (a, b) {
        (Some(x), Some(y)) => x < y,
        (Some(_), None) => true,
        _ => false,
    }
}

fn same_modified(a: Option<i128>, b: Option<i128>) -> (same: bool)
    ensures
        same == (a == b),
{
    match (a, b) {
        (Some(x), Some(y)) => x == y,
        (None, None) => true,
        _ => false,
    }
}

fn key_before(key: SortKey, a: &CacheEntry, ka: &NameKey, b: &CacheEntry, kb: &NameKey) -> (less: bool)
    requires
        describes(*ka, a.file_name@),
        describes(*kb, b.file_name@),
    ensures
        less == key_less(key, *a, *b),
{
    match key {
        SortKey::Name => name_key_less(ka, kb),
        SortKey::Modified => modified_before(a.modified, b.modified),
        SortKey::Kind => {
            let ra = kind_rank_of(a.kind);
            let rb = kind_rank_of(b.kind);
            ra < rb || (a.kind == b.kind && name_key_less(ka, kb))
        },
        SortKey::Size => a.len < b.len || (a.len == b.len && name_key_less(ka, kb)),
    }
}

fn entry_before(order: EntryOrder, a: &CacheEntry, ka: &NameKey, b: &CacheEntry, kb: &NameKey) -> (less: bool)
    requires
        describes(*ka, a.file_name@),
        describes(*kb, b.file_name@),
    ensures
        less == order_less(order, *a, *b),
{
    match order {
        EntryOrder::Newest => {
            let later = match (a.modified, b.modified) {
                (Some(x), Some(y)) => x > y,
                (Some(_), None) => true,
                _ => false,
            };
            later || (same_modified(a.modified, b.modified) && codes_less(&ka.raw, &kb.raw))
        },
        EntryOrder::Column(key, SortDirection::Ascending) => key_before(key, a, ka, b, kb),
        EntryOrder::Column(key, SortDirection::Descending) => key_before(key, b, kb, a, ka),
    }
}

/// The positions of `entries` in the order of their stable sort by `order`.
fn sorted_positions(order: EntryOrder, entries: &Vec<CacheEntry>, keys: &Vec<NameKey>) -> (p: Vec<usize>)
    requires
        keys.len() == entries.len(),
        forall|i: int| 0 <= i < keys.len() ==> describes(#[trigger] keys@[i], entries@[i].file_name@),
    ensures
        p.len() == entries.len(),
        forall|k: int| 0 <= k < p.len() ==> #[trigger] p@[k] < entries.len(),
        forall|j: int| 0 <= j < entries.len() ==> #[trigger] lists_position(p@, j),
        forall|x: int, y: int|
            0 <= x < y < p.len() ==> precedes(order, entries@, #[trigger] p@[x] as int, #[trigger] p@[y] as int),
{
    let ghost s = entries@;
    let mut p: Vec<usize> = Vec::new();
    let mut k: usize = 0;
    while k < entries.len()
        invariant
            s == entries@,
            k <= entries.len(),
            keys.len() == entries.len(),
            forall|i: int| 0 <= i < keys.len() ==> describes(#[trigger] keys@[i], entries@[i].file_name@),
            p.len() == k,
            forall|m: int| 0 <= m < p.len() ==> #[trigger] p@[m] < k,
            forall|j: int| 0 <= j < k ==> #[trigger] lists_position(p@, j),
            forall|x: int, y: int|
                0 <= x < y < p.len() ==> precedes(order, s, #[trigger] p@[x] as int, #[trigger] p@[y] as int),
        decreases entries.len() - k,
    {
        let mut lo: usize = 0;
        let mut hi: usize = p.len();
        while lo < hi
            invariant
                s == entries@,
                k < entries.len(),
                keys.len() == entries.len(),
                forall|i: int| 0 <= i < keys.len() ==> describes(#[trigger] keys@[i], entries@[i].file_name@),
                p.len() == k,
                0 <= lo <= hi <= p.len(),
                forall|m: int| 0 <= m < p.len() ==> #[trigger] p@[m] < k,
                forall|x: int, y: int|
                    0 <= x < y < p.len() ==> precedes(order, s, #[trigger] p@[x] as int, #[trigger] p@[y] as int),
                forall|m: int| 0 <= m < lo ==> precedes(order, s, #[trigger] p@[m] as int, k as int),
                forall|m: int| hi <= m < p.len() ==> precedes(order, s, k as int, #[trigger] p@[m] as int),
            decreases hi - lo,
        {
            let mid = lo + (hi - lo) / 2;
            let at = p[mid];
            if entry_before(order, &entries[k], &keys[k], &entries[at], &keys[at]) {
                assert forall|m: int| mid <= m < p.len() implies precedes(order, s, k as int, #[trigger] p@[m] as int) by {
                    if m > mid {
                        lemma_precedes_facts(order, s, k as int, at as int, p@[m] as int);
                    }
                }
                hi = mid;
            } else {
                proof {
                    lemma_order_facts(order, s[k as int], s[at as int], s[k as int]);
                }
                assert(precedes(order, s, at as int, k as int));
                assert forall|m: int| 0 <= m <= mid implies precedes(order, s, #[trigger] p@[m] as int, k as int) by {
                    if m < mid {
                        lemma_precedes_facts(order, s, p@[m] as int, at as int, k as int);
                    }
                }
                lo = mid + 1;
            }
        }
        let ghost old_p = p@;
        p.insert(lo, k);
        assert forall|m: int| 0 <= m < p.len() implies #[trigger] p@[m] < k + 1 by {
            if m > lo {
                assert(p@[m] == old_p[m - 1]);
            }
        }
        assert forall|j: int| 0 <= j < k + 1 implies #[trigger] lists_position(p@, j) by {
            if j == k {
                assert(p@[lo as int] == j);
            } else {
                assert(lists_position(old_p, j));
                let m = choose|m: int| 0 <= m < old_p.len() && old_p[m] == j;
                if m < lo {
                    assert(p@[m] == j);
                } else {
                    assert(p@[m + 1] == j);
                }
            }
        }
        assert forall|x: int, y: int|
            0 <= x < y < p.len() implies precedes(order, s, #[trigger] p@[x] as int, #[trigger] p@[y] as int) by {
            if y < lo {
            } else if y == lo {
            } else if x < lo {
                assert(p@[y] == old_p[y - 1]);
            } else if x == lo {
                assert(p@[y] == old_p[y - 1]);
            } else {
                assert(p@[x] == old_p[x - 1]);
                assert(p@[y] == old_p[y - 1]);
            }
        }
        k = k + 1;
    }
    p
}

/// Arranges `entries` stably in `order`: smaller entries first, tied
/// entries in the order they came in.
pub fn sort_entries(entries: Vec<CacheEntry>, order: EntryOrder) -> (sorted: Vec<CacheEntry>)
    ensures
        is_stable_sort(order, entries@, sorted@),
{
    let mut keys: Vec<NameKey> = Vec::new();
    let mut i: usize = 0;
    while i < entries.len()
        invariant
            i <= entries.len(),
            keys.len() == i,
            forall|j: int| 0 <= j < i ==> describes(#[trigger] keys@[j], entries@[j].file_name@),
        decreases entries.len() - i,
    {
        keys.push(name_key(&entries[i].file_name));
        i = i + 1;
    }
    let p = sorted_positions(order, &entries, &keys);
    let ghost s = entries@;
    let n = entries.len();
    let mut slots: Vec<Option<CacheEntry>> = Vec::new();
    for entry in it: entries.into_iter()
        invariant
            slots.len() == it.index(),
            forall|j: int| 0 <= j < it.index() ==> #[trigger] slots@[j] == Some(it.seq()[j]),
    {
        slots.push(Some(entry));
    }
    assert(slots@.len() == n);
    assert forall|j: int| 0 <= j < n implies #[trigger] slots@[j] == Some(s[j]) by {}
    let mut sorted: Vec<CacheEntry> = Vec::new();
    let mut k: usize = 0;
    while k < p.len()
        invariant
            k <= p.len(),
            p.len() == n,
            s.len() == n,
            slots.len() == n,
            forall|m: int| 0 <= m < p.len() ==> #[trigger] p@[m] < n,
            forall|x: int, y: int|
                0 <= x < y < p.len() ==> precedes(order, s, #[trigger] p@[x] as int, #[trigger] p@[y] as int),
            forall|j: int| 0 <= j < n ==> (#[trigger] slots@[j] matches Some(e) ==> e == s[j]),
            forall|j: int| 0 <= j < n ==> (#[trigger] slots@[j] is None ==> taken_before(p@, k as int, j)),
            sorted.len() == k,
            forall|m: int| 0 <= m < k ==> #[trigger] sorted@[m] == s[p@[m] as int],
        decreases p.len() - k,
    {
        let at = p[k];
        proof {
            if slots@[at as int] is None {
                assert(taken_before(p@, k as int, at as int));
                let m = choose|m: int| 0 <= m < k && p@[m] == at;
                lemma_precedes_facts(order, s, at as int, at as int, at as int);
                assert(precedes(order, s, p@[m] as int, p@[k as int] as int));
            }
        }
        let taken = slots[at].take();
        match taken {
            Some(entry) => {
                sorted.push(entry);
            },
            None => {},
        }
        assert forall|j: int| 0 <= j < n implies (#[trigger] slots@[j] is None ==> taken_before(p@, k + 1, j)) by {
            if j == at as int {
                assert(p@[k as int] == j);
            } else if slots@[j] is None {
                let m = choose|m: int| 0 <= m < k && p@[m] == j;
                assert(0 <= m < k + 1 && p@[m] == j);
            }
        }
        k = k + 1;
    }
    assert(s == entries@);
    let ghost q = p@.map_values(|x: usize| x as int);
    assert forall|j: int| 0 <= j < s.len() implies #[trigger] lists_index(q, j) by {
        assert(lists_position(p@, j));
        let m = choose|m: int| 0 <= m < p.len() && p@[m] == j;
        assert(q[m] == j);
    }
    assert(sorts_by(order, s, sorted@, q));
    sorted
}

/// Kinds ordered by rank are ordered as their labels are, which is how
/// the table compares them.
pub proof fn lemma_kind_rank_follows_labels(a: CacheKind, b: CacheKind)
    ensures
        (kind_rank(a) < kind_rank(b)) == lex_less(codes(kind_label(a)), codes(kind_label(b))),
{
    reveal_strlit("image");
    reveal_strlit("other");
    reveal_strlit("video");
    let (x, y) = (codes(kind_label(a)), codes(kind_label(b)));
    assert(x.len() == 5 && y.len() == 5);
    if a == b {
        crate::text_order::lemma_lex_irreflexive(x);
    } else {
        assert(x[0] != y[0]);
    }
}

/// Compares two optional modification times: known times by value, and a
/// known time before an unknown one.
pub fn compare_modified(a: Option<i128>, b: Option<i128>) -> (order: Ordering)
    ensures
        (order == Ordering::Less) == modified_less(a, b),
        (order == Ordering::Equal) == (a == b),
        (order == Ordering::Greater) == modified_less(b, a),
{
    match (a, b) {
        (Some(x), Some(y)) => {
            if x < y {
                Ordering::Less
            } else if x == y {
                Ordering::Equal
            } else {
                Ordering::Greater
            }
        },
        (Some(_), None) => Ordering::Less,
        (None, Some(_)) => Ordering::Greater,
        (None, None) => Ordering::Equal,
    }
}

impl SortKey {
    /// Compares two entries by this column, ascending; ties on every
    /// column but `Modified` are broken by name.
    pub fn compare(self, a: &CacheEntry, b: &CacheEntry) -> (order: Ordering)
        ensures
            (order == Ordering::Less) == key_less(self, *a, *b),
            (order == Ordering::Equal) == key_tie(self, *a, *b),
            (order == Ordering::Greater) == key_less(self, *b, *a),
    {
        let ka = name_key(&a.file_name);
        let kb = name_key(&b.file_name);
        proof {
            lemma_order_facts(EntryOrder::Column(self, SortDirection::Ascending), *a, *b, *a);
        }
        if key_before(self, a, &ka, b, &kb) {
            Ordering::Less
        } else if key_before(self, b, &kb, a, &ka) {
            Ordering::Greater
        } else {
            Ordering::Equal
        }
    }
}

proof fn lemma_sorted_positions_agree(
    order: EntryOrder,
    input: Seq<CacheEntry>,
    out1: Seq<CacheEntry>,
    p1: Seq<int>,
    out2: Seq<CacheEntry>,
    p2: Seq<int>,
    k: int,
)
    requires
        sorts_by(order, input, out1, p1),
        sorts_by(order, input, out2, p2),
        0 <= k <= p1.len(),
    ensures
        forall|j: int| 0 <= j < k ==> p1[j] == p2[j],
    decreases k,
{
    if k > 0 {
        lemma_sorted_positions_agree(order, input, out1, p1, out2, p2, k - 1);
        let j = k - 1;
        let (a, b) = (p1[j], p2[j]);
        if a != b {
            assert(lists_index(p1, b));
            let kb = choose|m: int| 0 <= m < p1.len() && p1[m] == b;
            assert(lists_index(p2, a));
            let ka = choose|m: int| 0 <= m < p2.len() && p2[m] == a;
            lemma_precedes_facts(order, input, a, b, a);
            if kb < j {
                assert(p2[kb] == b);
                lemma_precedes_facts(order, input, p2[kb], p2[j], a);
            }
            if ka < j {
                assert(p1[ka] == a);
                lemma_precedes_facts(order, input, p1[ka], p1[j], b);
            }
            assert(kb > j);
            assert(ka > j);
            assert(precedes(order, input, p1[j], p1[kb]));
            assert(precedes(order, input, p2[j], p2[ka]));
        }
    }
}

/// A stable sort has one result: two stable sorts of the same entries by
/// the same order are equal.
pub proof fn lemma_stable_sort_unique(
    order: EntryOrder,
    input: Seq<CacheEntry>,
    out1: Seq<CacheEntry>,
    out2: Seq<CacheEntry>,
)
    requires
        is_stable_sort(order, input, out1),
        is_stable_sort(order, input, out2),
    ensures
        out1 == out2,
{
    let p1 = choose|p: Seq<int>| sorts_by(order, input, out1, p);
    let p2 = choose|p: Seq<int>| sorts_by(order, input, out2, p);
    lemma_sorted_positions_agree(order, input, out1, p1, out2, p2, p1.len() as int);
    assert forall|k: int| 0 <= k < out1.len() implies out1[k] == out2[k] by {
        assert(p1[k] == p2[k]);
    }
    assert(out1 =~= out2);
}

/// Sorting neither loses nor invents entries: each entry of the input is
/// somewhere in the output, and each entry of the output comes from the input.
pub proof fn lemma_stable_sort_keeps_entries(
    order: EntryOrder,
    input: Seq<CacheEntry>,
    output: Seq<CacheEntry>,
    i: int,
)
    requires
        is_stable_sort(order, input, output),
        0 <= i < input.len(),
    ensures
        output.len() == input.len(),
        exists|k: int| 0 <= k < output.len() && output[k] == input[i],
        output.contains(input[i]),
        input.contains(output[i]),
{
    let p = choose|p: Seq<int>| sorts_by(order, input, output, p);
    assert(lists_index(p, i));
    let k = choose|k: int| 0 <= k < p.len() && p[k] == i;
    assert(output[k] == input[i]);
    assert(output[i] == input[p[i]]);
}

/// In a stable sort, an entry that the order puts first stands first:
/// any two positions of the output are in order, and tied entries keep
/// the order they came in.
pub proof fn lemma_stable_sort_ordered(
    order: EntryOrder,
    input: Seq<CacheEntry>,
    output: Seq<CacheEntry>,
    x: int,
    y: int,
)
    requires
        is_stable_sort(order, input, output),
        0 <= x < y < output.len(),
    ensures
        !order_less(order, output[y], output[x]),
{
    let p = choose|p: Seq<int>| sorts_by(order, input, output, p);
    assert(precedes(order, input, p[x], p[y]));
    lemma_order_facts(order, input[p[x]], input[p[y]], input[p[x]]);
}

/// Sorting in descending order is sorting by the ascending comparison with
/// its two sides swapped.
pub proof fn lemma_descending_reverses(key: SortKey, a: CacheEntry, b: CacheEntry)
    ensures
        order_less(EntryOrder::Column(key, SortDirection::Descending), a, b) == order_less(
            EntryOrder::Column(key, SortDirection::Ascending),
            b,
            a,
        ),
        order_tie(EntryOrder::Column(key, SortDirection::Descending), a, b) == order_tie(
            EntryOrder::Column(key, SortDirection::Ascending),
            a,
            b,
        ),
{
}

/// `b` holds the entries of `a` in another order: `q` is a permutation of
/// the positions, and `b[k]` is `a[q[k]]`.
pub open spec fn reorders(a: Seq<CacheEntry>, b: Seq<CacheEntry>, q: Seq<int>) -> bool {
    &&& b.len() == a.len()
    &&& q.len() == a.len()
    &&& forall|k: int| 0 <= k < q.len() ==> 0 <= #[trigger] q[k] < a.len()
    &&& forall|k: int| 0 <= k < q.len() ==> #[trigger] b[k] == a[q[k]]
    &&& forall|x: int, y: int| 0 <= x < y < q.len() ==> #[trigger] q[x] != #[trigger] q[y]
    &&& forall|j: int| 0 <= j < a.len() ==> #[trigger] lists_index(q, j)
}

/// No two entries of `a` are tied in `order`.
pub open spec fn no_ties(order: EntryOrder, a: Seq<CacheEntry>) -> bool {
    forall|x: int, y: int|
        0 <= x < a.len() && 0 <= y < a.len() && x != y ==> !order_tie(order, #[trigger] a[x], #[trigger] a[y])
}

/// Each entry of `s` comes strictly before the next ones.
pub open spec fn strictly_ordered(order: EntryOrder, s: Seq<CacheEntry>) -> bool {
    forall|x: int, y: int| 0 <= x < y < s.len() ==> order_less(order, #[trigger] s[x], #[trigger] s[y])
}

proof fn lemma_untied_sort_strict(order: EntryOrder, input: Seq<CacheEntry>, output: Seq<CacheEntry>)
    requires
        is_stable_sort(order, input, output),
        no_ties(order, input),
    ensures
        strictly_ordered(order, output),
{
    let p = choose|p: Seq<int>| sorts_by(order, input, output, p);
    assert forall|x: int, y: int| 0 <= x < y < output.len() implies order_less(
        order,
        #[trigger] output[x],
        #[trigger] output[y],
    ) by {
        assert(precedes(order, input, p[x], p[y]));
        lemma_precedes_facts(order, input, p[x], p[y], p[x]);
        assert(p[x] != p[y]);
    }
}

proof fn lemma_strictly_ordered_agree(order: EntryOrder, s1: Seq<CacheEntry>, s2: Seq<CacheEntry>, k: int)
    requires
        strictly_ordered(order, s1),
        strictly_ordered(order, s2),
        s1.len() == s2.len(),
        forall|i: int| 0 <= i < s2.len() ==> s1.contains(#[trigger] s2[i]),
        forall|i: int| 0 <= i < s1.len() ==> s2.contains(#[trigger] s1[i]),
        0 <= k <= s1.len(),
    ensures
        forall|j: int| 0 <= j < k ==> s1[j] == s2[j],
    decreases k,
{
    if k > 0 {
        lemma_strictly_ordered_agree(order, s1, s2, k - 1);
        let j = k - 1;
        let (u, v) = (s1[j], s2[j]);
        if u != v {
            assert(s1.contains(v));
            let m = choose|m: int| 0 <= m < s1.len() && s1[m] == v;
            assert(s2.contains(u));
            let n = choose|n: int| 0 <= n < s2.len() && s2[n] == u;
            lemma_order_facts(order, u, v, u);
            lemma_order_facts(order, v, u, v);
            if m < j {
                assert(s2[m] == v);
                assert(order_less(order, s2[m], s2[j]));
            }
            if n < j {
                assert(s1[n] == u);
                assert(order_less(order, s1[n], s1[j]));
            }
            assert(order_less(order, s1[j], s1[m]));
            assert(order_less(order, s2[j], s2[n]));
        }
    }
}

/// Where no two entries tie, the stable sort does not depend on the order
/// in which the entries came: sorting any reordering gives the same result.
pub proof fn lemma_sort_ignores_input_order(
    order: EntryOrder,
    a: Seq<CacheEntry>,
    b: Seq<CacheEntry>,
    q: Seq<int>,
    sorted_a: Seq<CacheEntry>,
    sorted_b: Seq<CacheEntry>,
)
    requires
        reorders(a, b, q),
        no_ties(order, a),
        is_stable_sort(order, a, sorted_a),
        is_stable_sort(order, b, sorted_b),
    ensures
        sorted_a == sorted_b,
{
    assert forall|x: int, y: int| 0 <= x < b.len() && 0 <= y < b.len() && x != y implies !order_tie(
        order,
        #[trigger] b[x],
        #[trigger] b[y],
    ) by {
        if x < y {
            assert(q[x] != q[y]);
        } else {
            assert(q[y] != q[x]);
        }
        assert(b[x] == a[q[x]] && b[y] == a[q[y]]);
    }
    lemma_untied_sort_strict(order, a, sorted_a);
    lemma_untied_sort_strict(order, b, sorted_b);
    let pa = choose|p: Seq<int>| sorts_by(order, a, sorted_a, p);
    let pb = choose|p: Seq<int>| sorts_by(order, b, sorted_b, p);
    assert forall|i: int| 0 <= i < sorted_b.len() implies sorted_a.contains(#[trigger] sorted_b[i]) by {
        assert(sorted_b[i] == b[pb[i]]);
        assert(b[pb[i]] == a[q[pb[i]]]);
        lemma_stable_sort_keeps_entries(order, a, sorted_a, q[pb[i]]);
    }
    assert forall|i: int| 0 <= i < sorted_a.len() implies sorted_b.contains(#[trigger] sorted_a[i]) by {
        assert(sorted_a[i] == a[pa[i]]);
        assert(lists_index(q, pa[i]));
        let t = choose|t: int| 0 <= t < q.len() && q[t] == pa[i];
        assert(b[t] == a[pa[i]]);
        lemma_stable_sort_keeps_entries(order, b, sorted_b, t);
    }
    lemma_strictly_ordered_agree(order, sorted_a, sorted_b, sorted_a.len() as int);
    assert(sorted_a =~= sorted_b);
}

/// A directory listing sorted newest first is the same whatever order the
/// directory was walked in, when no two files share a name.
pub proof fn lemma_newest_ignores_walk_order(
    a: Seq<CacheEntry>,
    b: Seq<CacheEntry>,
    q: Seq<int>,
    sorted_a: Seq<CacheEntry>,
    sorted_b: Seq<CacheEntry>,
)
    requires
        reorders(a, b, q),
        forall|x: int, y: int|
            0 <= x < a.len() && 0 <= y < a.len() && x != y ==> #[trigger] a[x].file_name@
                != #[trigger] a[y].file_name@,
        is_stable_sort(EntryOrder::Newest, a, sorted_a),
        is_stable_sort(EntryOrder::Newest, b, sorted_b),
    ensures
        sorted_a == sorted_b,
{
    lemma_sort_ignores_input_order(EntryOrder::Newest, a, b, q, sorted_a, sorted_b);
}

/// The Name column sorts by the name order that `naturalish_cmp` reports:
/// an entry comes first exactly when `naturalish_cmp` puts its name first,
/// and two entries tie exactly when their names are equal.
pub proof fn lemma_name_column_is_naturalish(a: CacheEntry, b: CacheEntry)
    ensures
        key_less(SortKey::Name, a, b) == name_less(a.file_name@, b.file_name@),
        key_tie(SortKey::Name, a, b) == (a.file_name@ == b.file_name@),
{
}

/// The Name column ignores ASCII case: an entry renamed to another case of
/// the same letters keeps its place against any name that differs from it
/// in more than case.
pub proof fn lemma_name_column_ignores_ascii_case(a: CacheEntry, a2: CacheEntry, b: CacheEntry)
    requires
        same_but_ascii_case(a.file_name@, a2.file_name@),
        folded(a.file_name@) != folded(b.file_name@),
    ensures
        key_less(SortKey::Name, a, b) == key_less(SortKey::Name, a2, b),
        key_less(SortKey::Name, b, a) == key_less(SortKey::Name, b, a2),
{
    lemma_name_order_ignores_ascii_case(a.file_name@, a2.file_name@, b.file_name@);
}

/// The Type and Size columns break ties as the Name column sorts: entries
/// of one kind are in Name order under Type, entries of one size in Name
/// order under Size. Entries of different kinds go by their labels.
pub proof fn lemma_ties_break_by_name_column(a: CacheEntry, b: CacheEntry)
    ensures
        a.kind == b.kind ==> key_less(SortKey::Kind, a, b) == key_less(SortKey::Name, a, b),
        a.kind == b.kind ==> key_tie(SortKey::Kind, a, b) == key_tie(SortKey::Name, a, b),
        a.len == b.len ==> key_less(SortKey::Size, a, b) == key_less(SortKey::Name, a, b),
        a.len == b.len ==> key_tie(SortKey::Size, a, b) == key_tie(SortKey::Name, a, b),
        a.kind != b.kind ==> key_less(SortKey::Kind, a, b) == lex_less(
            codes(kind_label(a.kind)),
            codes(kind_label(b.kind)),
        ),
        a.len != b.len ==> key_less(SortKey::Size, a, b) == (a.len < b.len),
{
    lemma_kind_rank_follows_labels(a.kind, b.kind);
}

/// The Modified column puts earlier known times first and unknown times
/// last, and ties only equal times; newest-first puts later known times
/// first, unknown times last, and equal times in exact name order.
pub proof fn lemma_time_orders(a: CacheEntry, b: CacheEntry, x: i128, y: i128)
    ensures
        a.modified == Some(x) && b.modified == Some(y) ==> key_less(SortKey::Modified, a, b) == (x
            < y),
        a.modified is Some && b.modified is None ==> key_less(SortKey::Modified, a, b)
            && !key_less(SortKey::Modified, b, a),
        a.modified is None ==> !key_less(SortKey::Modified, a, b),
        key_tie(SortKey::Modified, a, b) == (a.modified == b.modified),
        a.modified == Some(x) && b.modified == Some(y) && x != y ==> order_less(
            EntryOrder::Newest,
            a,
            b,
        ) == (x > y),
        a.modified is Some && b.modified is None ==> order_less(EntryOrder::Newest, a, b)
            && !order_less(EntryOrder::Newest, b, a),
        a.modified == b.modified ==> order_less(EntryOrder::Newest, a, b) == lex_less(
            codes(a.file_name@),
            codes(b.file_name@),
        ),
{
}

} // verus!
