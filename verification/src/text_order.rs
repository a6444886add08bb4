use core::cmp::Ordering;
use vstd::prelude::*;

verus! {

/// Strict lexicographic order on sequences of code points: the first
/// position where they differ decides, and a proper prefix comes first.
pub open spec fn lex_less(a: Seq<u32>, b: Seq<u32>) -> bool
    decreases a.len(),
{
    if b.len() == 0 {
        false
    } else if a.len() == 0 {
        true
    } else if a[0] != b[0] {
        a[0] < b[0]
    } else {
        lex_less(a.drop_first(), b.drop_first())
    }
}

/// The code points of a text, one per character.
pub open spec fn codes(s: Seq<char>) -> Seq<u32> {
    s.map_values(|c: char| c as u32)
}

/// A character's code point after ASCII lowercasing: `A`..`Z` become
/// `a`..`z`, every other character stays as it is.
pub open spec fn folded_code(c: char) -> u32 {
    if 65 <= (c as u32) && (c as u32) <= 90 {
        ((c as u32) + 32) as u32
    } else {
        c as u32
    }
}

/// The code points of a text after ASCII lowercasing.
pub open spec fn folded(s: Seq<char>) -> Seq<u32> {
    s.map_values(|c: char| folded_code(c))
}

/// Case-insensitive order first, then the exact text as a tiebreak.
pub open spec fn name_less(a: Seq<char>, b: Seq<char>) -> bool {
    ||| lex_less(folded(a), folded(b))
    ||| folded(a) == folded(b) && lex_less(codes(a), codes(b))
}

pub proof fn lemma_lex_irreflexive(a: Seq<u32>)
    ensures
        !lex_less(a, a),
    decreases a.len(),
{
    if a.len() > 0 {
        lemma_lex_irreflexive(a.drop_first());
    }
}

pub proof fn lemma_lex_transitive(a: Seq<u32>, b: Seq<u32>, c: Seq<u32>)
    requires
        lex_less(a, b),
        lex_less(b, c),
    ensures
        lex_less(a, c),
    decreases a.len(),
{
    if a.len() > 0 && b.len() > 0 && c.len() > 0 && a[0] == b[0] && b[0] == c[0] {
        lemma_lex_transitive(a.drop_first(), b.drop_first(), c.drop_first());
    }
}

pub proof fn lemma_lex_total(a: Seq<u32>, b: Seq<u32>)
    ensures
        a == b || lex_less(a, b) || lex_less(b, a),
    decreases a.len(),
{
    if a.len() == 0 && b.len() == 0 {
        assert(a =~= b);
    } else if a.len() > 0 && b.len() > 0 && a[0] == b[0] {
        lemma_lex_total(a.drop_first(), b.drop_first());
        if a.drop_first() == b.drop_first() {
            assert forall|i: int| 0 <= i < a.len() implies a[i] == b[i] by {
                assert(i < b.len());
                if i > 0 {
                    assert(a[i] == a.drop_first()[i - 1]);
                    assert(b[i] == b.drop_first()[i - 1]);
                }
            }
            assert(a.drop_first().len() == a.len() - 1);
            assert(b.drop_first().len() == b.len() - 1);
            assert(a.len() == b.len());
            assert(a =~= b);
        }
    }
}

pub proof fn lemma_lex_asymmetric(a: Seq<u32>, b: Seq<u32>)
    requires
        lex_less(a, b),
    ensures
        !lex_less(b, a),
{
    if lex_less(b, a) {
        lemma_lex_transitive(a, b, a);
        lemma_lex_irreflexive(a);
    }
}

/// After a common prefix of length `k`, the order is that of the rests.
pub proof fn lemma_lex_skip_common(a: Seq<u32>, b: Seq<u32>, k: int)
    requires
        0 <= k <= a.len(),
        k <= b.len(),
        forall|j: int| 0 <= j < k ==> a[j] == b[j],
    ensures
        lex_less(a, b) == lex_less(a.skip(k), b.skip(k)),
    decreases k,
{
    if k > 0 {
        lemma_lex_skip_common(a.drop_first(), b.drop_first(), k - 1);
        assert(a.drop_first().skip(k - 1) =~= a.skip(k));
        assert(b.drop_first().skip(k - 1) =~= b.skip(k));
    } else {
        assert(a.skip(0) =~= a);
        assert(b.skip(0) =~= b);
    }
}

pub proof fn lemma_codes_injective(a: Seq<char>, b: Seq<char>)
    requires
        codes(a) == codes(b),
    ensures
        a == b,
{
    assert(a.len() == codes(a).len());
    assert forall|i: int| 0 <= i < a.len() implies a[i] == b[i] by {
        assert(codes(a)[i] == codes(b)[i]);
        assert(codes(a)[i] == a[i] as u32);
        assert(codes(b)[i] == b[i] as u32);
        vstd::utf8::char_u32_cast(a[i], a[i] as u32);
        vstd::utf8::char_u32_cast(b[i], b[i] as u32);
    }
    assert(a =~= b);
}

pub proof fn lemma_name_irreflexive(a: Seq<char>)
    ensures
        !name_less(a, a),
{
    lemma_lex_irreflexive(folded(a));
    lemma_lex_irreflexive(codes(a));
}

pub proof fn lemma_name_transitive(a: Seq<char>, b: Seq<char>, c: Seq<char>)
    requires
        name_less(a, b),
        name_less(b, c),
    ensures
        name_less(a, c),
{
    if lex_less(folded(a), folded(b)) {
        if lex_less(folded(b), folded(c)) {
            lemma_lex_transitive(folded(a), folded(b), folded(c));
        }
    } else {
        if lex_less(folded(b), folded(c)) {
        } else {
            lemma_lex_transitive(codes(a), codes(b), codes(c));
        }
    }
}

pub proof fn lemma_name_total(a: Seq<char>, b: Seq<char>)
    ensures
        a == b || name_less(a, b) || name_less(b, a),
{
    lemma_lex_total(folded(a), folded(b));
    lemma_lex_total(codes(a), codes(b));
    if codes(a) == codes(b) {
        lemma_codes_injective(a, b);
    }
}

pub proof fn lemma_name_asymmetric(a: Seq<char>, b: Seq<char>)
    requires
        name_less(a, b),
    ensures
        !name_less(b, a),
{
    if name_less(b, a) {
        lemma_name_transitive(a, b, a);
        lemma_name_irreflexive(a);
    }
}

/// Every fact about the name order, for three names at once.
pub proof fn lemma_name_facts(x: Seq<char>, y: Seq<char>, z: Seq<char>)
    ensures
        !name_less(x, x),
        x == y || name_less(x, y) || name_less(y, x),
        name_less(x, y) ==> !name_less(y, x) && x != y,
        name_less(x, y) && name_less(y, z) ==> name_less(x, z),
{
    lemma_name_irreflexive(x);
    lemma_name_total(x, y);
    if name_less(x, y) {
        lemma_name_asymmetric(x, y);
        if name_less(y, z) {
            lemma_name_transitive(x, y, z);
        }
    }
}

/// Every fact about the lexicographic order, for three sequences at once.
pub proof fn lemma_lex_facts(x: Seq<u32>, y: Seq<u32>, z: Seq<u32>)
    ensures
        !lex_less(x, x),
        x == y || lex_less(x, y) || lex_less(y, x),
        lex_less(x, y) ==> !lex_less(y, x) && x != y,
        lex_less(x, y) && lex_less(y, z) ==> lex_less(x, z),
{
    lemma_lex_irreflexive(x);
    lemma_lex_total(x, y);
    if lex_less(x, y) {
        lemma_lex_asymmetric(x, y);
        if lex_less(y, z) {
            lemma_lex_transitive(x, y, z);
        }
    }
}

/// Folding lowers exactly the ASCII capitals: each of `A`..`Z` takes the
/// code of its lowercase letter, 32 above it, and every other character
/// keeps its own code.
pub proof fn lemma_folding_lowers_ascii_capitals(c: char)
    ensures
        'A' <= c && c <= 'Z' ==> folded_code(c) == (c as u32) + 32,
        !('A' <= c && c <= 'Z') ==> folded_code(c) == c as u32,
        folded_code('A') == 'a' as u32,
        folded_code('Z') == 'z' as u32,
{
}

/// `upper` is an ASCII capital and `lower` its lowercase letter.
pub open spec fn ascii_case_pair(upper: char, lower: char) -> bool {
    &&& 'A' <= upper && upper <= 'Z'
    &&& lower as u32 == (upper as u32) + 32
}

/// The two texts differ at most in the case of ASCII letters.
pub open spec fn same_but_ascii_case(a: Seq<char>, b: Seq<char>) -> bool {
    &&& a.len() == b.len()
    &&& forall|i: int|
        0 <= i < a.len() ==> (#[trigger] a[i] == #[trigger] b[i] || ascii_case_pair(a[i], b[i])
            || ascii_case_pair(b[i], a[i]))
}

/// Texts that differ only in the case of ASCII letters fold alike.
pub proof fn lemma_case_variants_fold_alike(a: Seq<char>, b: Seq<char>)
    requires
        same_but_ascii_case(a, b),
    ensures
        folded(a) == folded(b),
{
    assert forall|i: int| 0 <= i < a.len() implies folded(a)[i] == folded(b)[i] by {
        assert(a[i] == b[i] || ascii_case_pair(a[i], b[i]) || ascii_case_pair(b[i], a[i]));
        assert(folded(a)[i] == folded_code(a[i]));
        assert(folded(b)[i] == folded_code(b[i]));
    }
    assert(folded(a) =~= folded(b));
}

/// The name order ignores ASCII case: changing the case of a name's ASCII
/// letters does not move it past a name that differs from it in more than case.
pub proof fn lemma_name_order_ignores_ascii_case(a: Seq<char>, a2: Seq<char>, b: Seq<char>)
    requires
        same_but_ascii_case(a, a2),
        folded(a) != folded(b),
    ensures
        name_less(a, b) == name_less(a2, b),
        name_less(b, a) == name_less(b, a2),
{
    lemma_case_variants_fold_alike(a, a2);
}

/// Where two names differ in more than ASCII case, their order is that of
/// their lowercased code points; the exact text only breaks ties.
pub proof fn lemma_name_order_lowercase_first(a: Seq<char>, b: Seq<char>)
    ensures
        folded(a) != folded(b) ==> (name_less(a, b) == lex_less(folded(a), folded(b))),
        folded(a) == folded(b) ==> (name_less(a, b) == lex_less(codes(a), codes(b))),
{
    lemma_lex_irreflexive(folded(a));
}

/// The code points of `s`, one per character.
pub fn codes_of(s: &str) -> (out: Vec<u32>)
    ensures
        out@ == codes(s@),
{
    let mut out: Vec<u32> = Vec::new();
    for c in it: s.chars()
        invariant
            out@.len() == it.index(),
            forall|i: int| 0 <= i < it.index() ==> out@[i] == (it.seq()[i] as u32),
    {
        out.push(c as u32);
    }
    assert(out@ =~= codes(s@));
    out
}

/// The code points of `s` after ASCII lowercasing.
pub fn folded_codes_of(s: &str) -> (out: Vec<u32>)
    ensures
        out@ == folded(s@),
{
    let mut out: Vec<u32> = Vec::new();
    for c in it: s.chars()
        invariant
            out@.len() == it.index(),
            forall|i: int| 0 <= i < it.index() ==> out@[i] == folded_code(it.seq()[i]),
    {
        let code = c as u32;
        if 65 <= code && code <= 90 {
            out.push(code + 32);
        } else {
            out.push(code);
        }
    }
    assert(out@ =~= folded(s@));
    out
}

/// Whether `a` comes strictly before `b` in lexicographic order.
pub fn codes_less(a: &Vec<u32>, b: &Vec<u32>) -> (less: bool)
    ensures
        less == lex_less(a@, b@),
{
    let mut k: usize = 0;
    while k < a.len() && k < b.len() && a[k] == b[k]
        invariant
            k <= a.len(),
            k <= b.len(),
            forall|j: int| 0 <= j < k ==> a@[j] == b@[j],
        decreases a.len() - k,
    {
        k = k + 1;
    }
    proof {
        lemma_lex_skip_common(a@, b@, k as int);
    }
    if k < a.len() && k < b.len() {
        assert(a@.skip(k as int)[0] == a@[k as int]);
        assert(b@.skip(k as int)[0] == b@[k as int]);
        a[k] < b[k]
    } else {
        k < b.len()
    }
}

/// Whether two code-point sequences are the same.
pub fn codes_equal(a: &Vec<u32>, b: &Vec<u32>) -> (same: bool)
    ensures
        same == (a@ == b@),
{
    if a.len() != b.len() {
        return false;
    }
    let mut k: usize = 0;
    while k < a.len()
        invariant
            k <= a.len(),
            a.len() == b.len(),
            forall|j: int| 0 <= j < k ==> a@[j] == b@[j],
        decreases a.len() - k,
    {
        if a[k] != b[k] {
            return false;
        }
        k = k + 1;
    }
    assert(a@ =~= b@);
    true
}

/// Compares two file names case-insensitively (ASCII letters only), and
/// by their exact text where they differ only in case.
pub fn naturalish_cmp(a: &str, b: &str) -> (order: Ordering)
    ensures
        (order == Ordering::Less) == name_less(a@, b@),
        (order == Ordering::Equal) == (a@ == b@),
        (order == Ordering::Greater) == name_less(b@, a@),
{
    let fa = folded_codes_of(a);
    let fb = folded_codes_of(b);
    let ra = codes_of(a);
    let rb = codes_of(b);
    proof {
        lemma_name_facts(a@, b@, a@);
        lemma_name_facts(b@, a@, b@);
    }
    if codes_less(&fa, &fb) || (codes_equal(&fa, &fb) && codes_less(&ra, &rb)) {
        Ordering::Less
    } else if codes_equal(&ra, &rb) {
        proof {
            lemma_codes_injective(a@, b@);
        }
        Ordering::Equal
    } else {
        Ordering::Greater
    }
}

} // verus!
