use vstd::prelude::*;

use core::cmp::Ordering;

use rayon::slice::ParallelSliceMut;

use crate::collector::Collector;
use crate::decimal::{
    decimal_key, decimal_of, find_last_number, flip, key_cmp, key_compare,
    last_number, lemma_key_cmp_laws, lemma_key_cmp_trans, number_end, number_end_at, Decimal,
};
use crate::text::{
    chars_of, file_name, file_name_of, first_index, first_index_of, is_ascii_digit, is_digit,
    last_index, last_index_of, lemma_first_index_from_bounds, lemma_last_index_bounds,
    parse_usize, slice_of, stem, stem_of, usize_of_text,
};

verus! {

/// The orders in which chapters and pages can be sorted.
#[derive(Clone, Copy, Debug, PartialEq, Eq, Structural)]
pub enum SortStrategy {
    /// By the file stem read as an unsigned integer.
    NumericStem,
    /// By the last decimal number `digits(.digits)?` (ASCII digits) written in
    /// the file name.
    TrailingNumber,
    /// By the `VOLUME-CHAPTER` pair written in the file name, each part read
    /// as a decimal `digits(.digits)?` of ASCII digits.
    VolumeChapterDual,
}

/// Key of the numeric-stem order: the stem of the file name read as a `usize`.
pub open spec fn stem_key(path: Seq<char>) -> Option<usize> {
    usize_of_text(stem_of(file_name_of(path)))
}

/// Order of optional integers: by value, an absent key after every present one.
pub open spec fn int_key_cmp(a: Option<usize>, b: Option<usize>) -> Ordering {
    match (a, b) {
        (Some(x), Some(y)) => if x < y {
            Ordering::Less
        } else if x > y {
            Ordering::Greater
        } else {
            Ordering::Equal
        },
        (Some(_), None) => Ordering::Less,
        (None, Some(_)) => Ordering::Greater,
        (None, None) => Ordering::Equal,
    }
}

/// Key of the trailing-number order: the last decimal number of the file name.
pub open spec fn trailing_key(path: Seq<char>) -> Option<(Seq<char>, Seq<char>)> {
    let name = file_name_of(path);
    match last_number(name) {
        Some((i, e)) => Some(decimal_key(name.subrange(i, e))),
        None => None,
    }
}

/// What precedes the first `-` of a name (all of it when there is none).
pub open spec fn volume_segment(name: Seq<char>) -> Seq<char> {
    let k = first_index_of(name, '-');
    if k < 0 {
        name
    } else {
        name.subrange(0, k)
    }
}

/// What follows the last `-` of a name (all of it when there is none).
pub open spec fn chapter_segment(name: Seq<char>) -> Seq<char> {
    name.subrange(last_index_of(name, '-') + 1, name.len() as int)
}

/// `t` read whole as a decimal `digits(.digits)?`, the form that the
/// `VOLUME-CHAPTER` convention writes. Other spellings of a number (a sign, a
/// bare leading or trailing dot, an exponent, non-ASCII digits) give no key.
pub open spec fn whole_decimal(t: Seq<char>) -> Option<(Seq<char>, Seq<char>)> {
    if t.len() > 0 && is_digit(t[0]) && number_end(t, 0) == t.len() {
        Some(decimal_key(t))
    } else {
        None
    }
}

/// The decimal `digits(.digits)?` that opens `t`, when nothing but an
/// extension follows it; other spellings of a number give no key.
pub open spec fn leading_decimal(t: Seq<char>) -> Option<(Seq<char>, Seq<char>)> {
    if t.len() > 0 && is_digit(t[0]) {
        let e = number_end(t, 0);
        if e == t.len() || t[e] == '.' {
            Some(decimal_key(t.subrange(0, e)))
        } else {
            None
        }
    } else {
        None
    }
}

/// Volume key of a `VOLUME-CHAPTER` name.
pub open spec fn volume_key(path: Seq<char>) -> Option<(Seq<char>, Seq<char>)> {
    whole_decimal(volume_segment(file_name_of(path)))
}

/// Chapter key of a `VOLUME-CHAPTER` name.
pub open spec fn chapter_key(path: Seq<char>) -> Option<(Seq<char>, Seq<char>)> {
    leading_decimal(chapter_segment(file_name_of(path)))
}

/// The numeric-stem order.
pub open spec fn stem_cmp(a: Seq<char>, b: Seq<char>) -> Ordering {
    int_key_cmp(stem_key(a), stem_key(b))
}

/// The trailing-number order.
pub open spec fn trailing_cmp(a: Seq<char>, b: Seq<char>) -> Ordering {
    key_cmp(trailing_key(a), trailing_key(b))
}

/// The volume-then-chapter order.
pub open spec fn dual_cmp(a: Seq<char>, b: Seq<char>) -> Ordering {
    match key_cmp(volume_key(a), volume_key(b)) {
        Ordering::Equal => key_cmp(chapter_key(a), chapter_key(b)),
        o => o,
    }
}

/// The order that a strategy puts on paths.
pub open spec fn path_cmp(strategy: SortStrategy, a: Seq<char>, b: Seq<char>) -> Ordering {
    match strategy {
        SortStrategy::NumericStem => stem_cmp(a, b),
        SortStrategy::TrailingNumber => trailing_cmp(a, b),
        SortStrategy::VolumeChapterDual => dual_cmp(a, b),
    }
}

/// The laws of a total preorder: comparing the other way round flips the
/// result, every path ties with itself, and both "not after" and "tie" chain.
pub open spec fn is_total_preorder(strategy: SortStrategy) -> bool {
    &&& forall|a: Seq<char>, b: Seq<char>|
        #[trigger] path_cmp(strategy, b, a) == flip(path_cmp(strategy, a, b))
    &&& forall|a: Seq<char>| #[trigger] path_cmp(strategy, a, a) == Ordering::Equal
    &&& forall|a: Seq<char>, b: Seq<char>, c: Seq<char>|
        #![trigger path_cmp(strategy, a, b), path_cmp(strategy, b, c)]
        path_cmp(strategy, a, b) != Ordering::Greater && path_cmp(strategy, b, c)
            != Ordering::Greater ==> path_cmp(strategy, a, c) != Ordering::Greater
    &&& forall|a: Seq<char>, b: Seq<char>, c: Seq<char>|
        #![trigger path_cmp(strategy, a, b), path_cmp(strategy, b, c)]
        path_cmp(strategy, a, b) == Ordering::Equal && path_cmp(strategy, b, c) == Ordering::Equal
            ==> path_cmp(strategy, a, c) == Ordering::Equal
}

/// The text of each string.
pub open spec fn texts(v: Seq<String>) -> Seq<Seq<char>> {
    v.map_values(|s: String| s@)
}

/// Adding a string to the end adds its text.
pub proof fn lemma_texts_push(v: Seq<String>, s: String)
    ensures
        texts(v.push(s)) == texts(v).push(s@),
{
    assert(texts(v.push(s)) =~= texts(v).push(s@));
}

/// No path comes after one that follows it.
pub open spec fn sorted_by(strategy: SortStrategy, s: Seq<Seq<char>>) -> bool {
    forall|i: int, j: int|
        0 <= i < j < s.len() ==> path_cmp(strategy, #[trigger] s[i], #[trigger] s[j])
            != Ordering::Greater
}

/// The paths that tie with `k`, in their order.
pub open spec fn ties_of(strategy: SortStrategy, s: Seq<Seq<char>>, k: Seq<char>) -> Seq<Seq<char>> {
    s.filter(|x: Seq<char>| path_cmp(strategy, x, k) == Ordering::Equal)
}

/// A stable sort of `s` gives `r`: the same paths, in order, ties kept as they came.
pub open spec fn stably_sorted(strategy: SortStrategy, s: Seq<Seq<char>>, r: Seq<Seq<char>>) -> bool {
    &&& r.to_multiset() == s.to_multiset()
    &&& sorted_by(strategy, r)
    &&& forall|k: Seq<char>| #[trigger] ties_of(strategy, r, k) == ties_of(strategy, s, k)
}

proof fn lemma_int_key_laws(a: Option<usize>, b: Option<usize>, c: Option<usize>)
    ensures
        int_key_cmp(b, a) == flip(int_key_cmp(a, b)),
        int_key_cmp(a, b) == Ordering::Equal <==> a == b,
        int_key_cmp(a, b) != Ordering::Greater && int_key_cmp(b, c) != Ordering::Greater
            ==> int_key_cmp(a, c) != Ordering::Greater,
{
}

proof fn lemma_dual_laws(a: Seq<char>, b: Seq<char>, c: Seq<char>)
    ensures
        dual_cmp(b, a) == flip(dual_cmp(a, b)),
        dual_cmp(a, b) == Ordering::Equal <==> (volume_key(a) == volume_key(b) && chapter_key(a)
            == chapter_key(b)),
        dual_cmp(a, b) != Ordering::Greater && dual_cmp(b, c) != Ordering::Greater ==> dual_cmp(
            a,
            c,
        ) != Ordering::Greater,
{
    lemma_key_cmp_laws(volume_key(a), volume_key(b));
    lemma_key_cmp_laws(chapter_key(a), chapter_key(b));
    lemma_key_cmp_laws(volume_key(b), volume_key(c));
    lemma_key_cmp_laws(volume_key(a), volume_key(c));
    if dual_cmp(a, b) != Ordering::Greater && dual_cmp(b, c) != Ordering::Greater {
        lemma_key_cmp_trans(volume_key(a), volume_key(b), volume_key(c));
        if key_cmp(volume_key(a), volume_key(b)) == Ordering::Equal && key_cmp(
            volume_key(b),
            volume_key(c),
        ) == Ordering::Equal {
            lemma_key_cmp_trans(chapter_key(a), chapter_key(b), chapter_key(c));
        }
    }
}

/// Each strategy orders paths as a total preorder, so a stable sort under it is
/// well defined.
pub proof fn lemma_strategy_total(strategy: SortStrategy)
    ensures
        is_total_preorder(strategy),
{
    assert forall|a: Seq<char>, b: Seq<char>|
        #[trigger] path_cmp(strategy, b, a) == flip(path_cmp(strategy, a, b)) by {
        lemma_int_key_laws(stem_key(a), stem_key(b), stem_key(b));
        lemma_key_cmp_laws(trailing_key(a), trailing_key(b));
        lemma_dual_laws(a, b, b);
    }
    assert forall|a: Seq<char>| #[trigger] path_cmp(strategy, a, a) == Ordering::Equal by {
        lemma_int_key_laws(stem_key(a), stem_key(a), stem_key(a));
        lemma_key_cmp_laws(trailing_key(a), trailing_key(a));
        lemma_dual_laws(a, a, a);
    }
    assert forall|a: Seq<char>, b: Seq<char>, c: Seq<char>|
        #![trigger path_cmp(strategy, a, b), path_cmp(strategy, b, c)]
        path_cmp(strategy, a, b) != Ordering::Greater && path_cmp(strategy, b, c)
            != Ordering::Greater implies path_cmp(strategy, a, c) != Ordering::Greater by {
        lemma_int_key_laws(stem_key(a), stem_key(b), stem_key(c));
        if trailing_cmp(a, b) != Ordering::Greater && trailing_cmp(b, c) != Ordering::Greater {
            lemma_key_cmp_trans(trailing_key(a), trailing_key(b), trailing_key(c));
        }
        lemma_dual_laws(a, b, c);
    }
    assert forall|a: Seq<char>, b: Seq<char>, c: Seq<char>|
        #![trigger path_cmp(strategy, a, b), path_cmp(strategy, b, c)]
        path_cmp(strategy, a, b) == Ordering::Equal && path_cmp(strategy, b, c) == Ordering::Equal
            implies path_cmp(strategy, a, c) == Ordering::Equal by {
        lemma_int_key_laws(stem_key(a), stem_key(b), stem_key(c));
        lemma_int_key_laws(stem_key(a), stem_key(c), stem_key(c));
        lemma_key_cmp_laws(trailing_key(a), trailing_key(b));
        lemma_key_cmp_laws(trailing_key(b), trailing_key(c));
        lemma_key_cmp_laws(trailing_key(a), trailing_key(c));
        lemma_dual_laws(a, b, c);
        lemma_dual_laws(b, c, c);
        lemma_dual_laws(a, c, c);
    }
}

/// The numeric-stem order is a total preorder that agrees with the integer
/// value of stems that read as integers, puts those before stems that do not,
/// and ties every two stems that do not (so a stable sort keeps their order).
pub proof fn lemma_numeric_stem_order(a: Seq<char>, b: Seq<char>)
    ensures
        is_total_preorder(SortStrategy::NumericStem),
        stem_key(a) is Some && stem_key(b) is Some ==> {
            &&& (stem_cmp(a, b) == Ordering::Less <==> stem_key(a)->Some_0 < stem_key(b)->Some_0)
            &&& (stem_cmp(a, b) == Ordering::Equal <==> stem_key(a)->Some_0 == stem_key(
                b,
            )->Some_0)
            &&& (stem_cmp(a, b) == Ordering::Greater <==> stem_key(a)->Some_0 > stem_key(
                b,
            )->Some_0)
        },
        stem_key(a) is Some && stem_key(b) is None ==> stem_cmp(a, b) == Ordering::Less,
        stem_key(a) is None && stem_key(b) is None ==> stem_cmp(a, b) == Ordering::Equal,
{
    lemma_strategy_total(SortStrategy::NumericStem);
}

/// Relies on rayon's `par_sort_by`, which its documentation gives as a stable
/// sort when the comparator is a total order.
#[verifier::external_body]
fn par_sort_paths(paths: &mut Vec<String>, strategy: SortStrategy)
    requires
        is_total_preorder(strategy),
    ensures
        stably_sorted(strategy, texts(old(paths)@), texts(final(paths)@)),
{
    paths.par_sort_by(|a, b| compare_paths(strategy, a, b));
}

/// Sorts paths stably under a strategy.
pub fn sort_paths(paths: &mut Vec<String>, strategy: SortStrategy)
    ensures
        stably_sorted(strategy, texts(old(paths)@), texts(final(paths)@)),
{
    proof {
        lemma_strategy_total(strategy);
    }
    par_sort_paths(paths, strategy);
}

/// Key of the numeric-stem order.
fn stem_key_of(path: &String) -> (r: Option<usize>)
    ensures
        r == stem_key(path@),
{
    let cs = chars_of(path.as_str());
    let name = file_name(&cs);
    let st = stem(&name);
    parse_usize(&st)
}

/// Key of the trailing-number order.
fn trailing_key_of(path: &String) -> (r: Option<Decimal>)
    ensures
        r is Some <==> trailing_key(path@) is Some,
        r matches Some(d) ==> trailing_key(path@) == Some(d@),
{
    let cs = chars_of(path.as_str());
    let name = file_name(&cs);
    match find_last_number(&name) {
        Some(p) => {
            let t = slice_of(&name, p.0, p.1);
            Some(decimal_of(&t))
        },
        None => None,
    }
}

fn whole_decimal_of(t: &Vec<char>) -> (r: Option<Decimal>)
    ensures
        r is Some <==> whole_decimal(t@) is Some,
        r matches Some(d) ==> whole_decimal(t@) == Some(d@),
{
    if t.len() > 0 && is_ascii_digit(t[0]) {
        let e = number_end_at(t, 0);
        if e == t.len() {
            return Some(decimal_of(t));
        }
    }
    None
}

fn leading_decimal_of(t: &Vec<char>) -> (r: Option<Decimal>)
    ensures
        r is Some <==> leading_decimal(t@) is Some,
        r matches Some(d) ==> leading_decimal(t@) == Some(d@),
{
    if t.len() > 0 && is_ascii_digit(t[0]) {
        let e = number_end_at(t, 0);
        if e == t.len() || t[e] == '.' {
            let lead = slice_of(t, 0, e);
            return Some(decimal_of(&lead));
        }
    }
    None
}

/// Volume and chapter keys of a `VOLUME-CHAPTER` name.
fn dual_keys_of(path: &String) -> (r: (Option<Decimal>, Option<Decimal>))
    ensures
        r.0 is Some <==> volume_key(path@) is Some,
        r.0 matches Some(d) ==> volume_key(path@) == Some(d@),
        r.1 is Some <==> chapter_key(path@) is Some,
        r.1 matches Some(d) ==> chapter_key(path@) == Some(d@),
{
    let cs = chars_of(path.as_str());
    let name = file_name(&cs);
    let n = name.len();
    proof {
        lemma_first_index_from_bounds(name@, '-', 0);
        lemma_last_index_bounds(name@, '-');
        assert(name@.subrange(0, n as int) =~= name@);
    }
    let vol_seg = match first_index(&name, '-') {
        Some(k) => slice_of(&name, 0, k),
        None => slice_of(&name, 0, n),
    };
    let ch_seg = match last_index(&name, '-') {
        Some(k) => slice_of(&name, k + 1, n),
        None => slice_of(&name, 0, n),
    };
    (whole_decimal_of(&vol_seg), leading_decimal_of(&ch_seg))
}

impl Collector {
    /// Numeric-stem order: stems read as integers, ascending; stems that do not
    /// read as integers last, tied among themselves.
    pub fn sort_by_stem_number(a: &String, b: &String) -> (r: Ordering)
        ensures
            r == stem_cmp(a@, b@),
    {
        let ka = stem_key_of(a);
        let kb = stem_key_of(b);
        match (ka, kb) {
            (Some(x), Some(y)) => if x < y {
                Ordering::Less
            } else if x > y {
                Ordering::Greater
            } else {
                Ordering::Equal
            },
            (Some(_), None) => Ordering::Less,
            (None, Some(_)) => Ordering::Greater,
            (None, None) => Ordering::Equal,
        }
    }

    /// Trailing-number order: by the last decimal number of the file name;
    /// names without one last, tied among themselves.
    pub fn sort_name_by_number(a: &String, b: &String) -> (r: Ordering)
        ensures
            r == trailing_cmp(a@, b@),
    {
        let ka = trailing_key_of(a);
        let kb = trailing_key_of(b);
        key_compare(&ka, &kb)
    }

    /// Volume-then-chapter order of `VOLUME-CHAPTER` names: the volume before
    /// the first `-` and the chapter after the last `-` (an extension aside) are
    /// each read as a decimal `digits(.digits)?` of ASCII digits and compared by
    /// value; a part that does not read that way has no key and sorts last.
    pub fn sort_by_name_volume_chapter(a: &String, b: &String) -> (r: Ordering)
        ensures
            r == dual_cmp(a@, b@),
    {
        let ka = dual_keys_of(a);
        let kb = dual_keys_of(b);
        match key_compare(&ka.0, &kb.0) {
            Ordering::Equal => key_compare(&ka.1, &kb.1),
            o => o,
        }
    }
}

/// Compares two paths under a strategy.
pub fn compare_paths(strategy: SortStrategy, a: &String, b: &String) -> (r: Ordering)
    ensures
        r == path_cmp(strategy, a@, b@),
{
    match strategy {
        SortStrategy::NumericStem => Collector::sort_by_stem_number(a, b),
        SortStrategy::TrailingNumber => Collector::sort_name_by_number(a, b),
        SortStrategy::VolumeChapterDual => Collector::sort_by_name_volume_chapter(a, b),
    }
}

} // verus!
