use vstd::prelude::*;

use crate::collector::Collector;
use crate::error::{Error, Expectation};
use crate::sorting::{lemma_texts_push, sort_paths, sorted_by, stably_sorted, texts, SortStrategy};

verus! {

/// One immediate child of a directory, as a listing reports it.
pub struct DirEntry {
    /// Full path of the entry.
    pub path: String,
    /// Last component of the path.
    pub name: String,
    /// Whether the entry is a directory.
    pub is_dir: bool,
}

/// Names that begin with `.` are hidden.
pub open spec fn is_hidden(name: Seq<char>) -> bool {
    name.len() > 0 && name[0] == '.'
}

/// Whether an entry is of a kind that the expectation rules out.
pub open spec fn violates(e: DirEntry, x: Expectation) -> bool {
    match x {
        Expectation::AnyType => false,
        Expectation::DirsOnly => !e.is_dir,
        Expectation::FilesOnly => e.is_dir,
    }
}

/// Puts `p` before the paths of a listing result, leaving a failure as it is.
pub open spec fn prepend(p: Seq<Seq<char>>, res: Result<Seq<Seq<char>>, Seq<char>>) -> Result<
    Seq<Seq<char>>,
    Seq<char>,
> {
    match res {
        Ok(q) => Ok(p + q),
        Err(bad) => Err(bad),
    }
}

/// What listing the entries under an expectation gives: the paths of the
/// visible entries in discovery order, or the path of the first visible entry
/// of the wrong kind.
pub open spec fn listing(entries: Seq<DirEntry>, x: Expectation) -> Result<Seq<Seq<char>>, Seq<char>>
    decreases entries.len(),
{
    if entries.len() == 0 {
        Ok(Seq::empty())
    } else {
        let e = entries[0];
        let rest = listing(entries.drop_first(), x);
        if is_hidden(e.name@) {
            rest
        } else if violates(e, x) {
            Err(e.path@)
        } else {
            prepend(seq![e.path@], rest)
        }
    }
}

/// `r` is the listing result `res`, in the library's terms.
pub open spec fn matches_listing(
    res: Result<Seq<Seq<char>>, Seq<char>>,
    x: Expectation,
    r: Result<Vec<String>, Error>,
) -> bool {
    match res {
        Ok(p) => r matches Ok(v) && texts(v@) == p,
        Err(bad) => r matches Err(Error::InvalidEntry(q, y)) && q@ == bad && y == x,
    }
}

/// `e` is the failure that the listing result `res` reports.
pub open spec fn failure_of(res: Result<Seq<Seq<char>>, Seq<char>>, x: Expectation, e: Error) -> bool {
    match res {
        Ok(_) => false,
        Err(bad) => e matches Error::InvalidEntry(q, y) && q@ == bad && y == x,
    }
}

/// The entries of each listing.
pub open spec fn entry_lists(v: Seq<Vec<DirEntry>>) -> Seq<Seq<DirEntry>> {
    v.map_values(|l: Vec<DirEntry>| l@)
}

/// `r` is what collecting the pages of chapters with these listings gives:
/// one ordered page list per chapter when every listing succeeds, else the
/// failure of the first listing that fails.
pub open spec fn pages_collected(
    listings: Seq<Seq<DirEntry>>,
    comparator: Option<SortStrategy>,
    r: Result<Vec<Vec<String>>, Error>,
) -> bool {
    &&& r is Ok <==> forall|i: int|
        0 <= i < listings.len() ==> #[trigger] listing(listings[i], Expectation::FilesOnly) is Ok
    &&& r matches Ok(pages) ==> pages@.len() == listings.len() && forall|i: int|
        0 <= i < listings.len() ==> matches_arranged(
            #[trigger] listing(listings[i], Expectation::FilesOnly),
            Expectation::FilesOnly,
            comparator,
            Ok(pages@[i]),
        )
    &&& r matches Err(e) ==> exists|i: int|
        0 <= i < listings.len() && (forall|j: int|
            0 <= j < i ==> #[trigger] listing(listings[j], Expectation::FilesOnly) is Ok)
            && failure_of(#[trigger] listing(listings[i], Expectation::FilesOnly), Expectation::FilesOnly, e)
}

/// Every entry is visible and, as `dirs` says, a directory or a file.
pub open spec fn clean_directory(entries: Seq<DirEntry>, dirs: bool) -> bool {
    forall|i: int|
        0 <= i < entries.len() ==> !is_hidden(#[trigger] entries[i].name@) && entries[i].is_dir == dirs
}

/// The paths of the entries.
pub open spec fn paths_of(entries: Seq<DirEntry>) -> Seq<Seq<char>> {
    entries.map_values(|e: DirEntry| e.path@)
}

proof fn lemma_clean_listing(entries: Seq<DirEntry>, x: Expectation, dirs: bool)
    requires
        clean_directory(entries, dirs),
        x == (if dirs {
            Expectation::DirsOnly
        } else {
            Expectation::FilesOnly
        }),
    ensures
        listing(entries, x) == Ok::<Seq<Seq<char>>, Seq<char>>(paths_of(entries)),
    decreases entries.len(),
{
    if entries.len() == 0 {
        assert(paths_of(entries) =~= Seq::<Seq<char>>::empty());
    } else {
        let rest = entries.drop_first();
        assert(clean_directory(rest, dirs)) by {
            assert forall|i: int| 0 <= i < rest.len() implies !is_hidden(#[trigger] rest[i].name@)
                && rest[i].is_dir == dirs by {
                assert(rest[i] == entries[i + 1]);
            }
        }
        lemma_clean_listing(rest, x, dirs);
        assert(!is_hidden(entries[0].name@) && entries[0].is_dir == dirs);
        assert(seq![entries[0].path@] + paths_of(rest) =~= paths_of(entries));
    }
}

/// Collecting chapters, then pages, from a tree whose root holds only
/// directories and whose chapters hold only files, sorting both by numeric
/// stem: both calls succeed, every chapter is kept once, in numeric-stem order,
/// and each chapter gets one list holding each of its files once, in
/// numeric-stem order.
pub proof fn lemma_collect_round_trip(
    root: Seq<DirEntry>,
    chapter_listings: Seq<Seq<DirEntry>>,
    chapters: Result<Vec<String>, Error>,
    pages: Result<Vec<Vec<String>>, Error>,
)
    requires
        clean_directory(root, true),
        forall|i: int| 0 <= i < chapter_listings.len() ==> clean_directory(#[trigger] chapter_listings[i], false),
        matches_arranged(
            listing(root, Expectation::DirsOnly),
            Expectation::DirsOnly,
            Some(SortStrategy::NumericStem),
            chapters,
        ),
        pages_collected(chapter_listings, Some(SortStrategy::NumericStem), pages),
    ensures
        chapters matches Ok(c) && c@.len() == root.len() && texts(c@).to_multiset() == paths_of(
            root,
        ).to_multiset() && sorted_by(SortStrategy::NumericStem, texts(c@)),
        pages matches Ok(p) && p@.len() == chapter_listings.len() && forall|i: int|
            0 <= i < chapter_listings.len() ==> {
                &&& (#[trigger] p@[i])@.len() == chapter_listings[i].len()
                &&& texts(p@[i]@).to_multiset() == paths_of(chapter_listings[i]).to_multiset()
                &&& sorted_by(SortStrategy::NumericStem, texts(p@[i]@))
            },
{
    broadcast use vstd::seq_lib::to_multiset_len;

    lemma_clean_listing(root, Expectation::DirsOnly, true);
    assert forall|i: int| 0 <= i < chapter_listings.len() implies #[trigger] listing(
        chapter_listings[i],
        Expectation::FilesOnly,
    ) == Ok::<Seq<Seq<char>>, Seq<char>>(paths_of(chapter_listings[i])) by {
        lemma_clean_listing(chapter_listings[i], Expectation::FilesOnly, false);
    }
    let c = chapters->Ok_0;
    assert(stably_sorted(SortStrategy::NumericStem, paths_of(root), texts(c@)));
    assert(texts(c@).len() == c@.len());
    assert(paths_of(root).len() == root.len());
    assert(texts(c@).to_multiset().len() == paths_of(root).to_multiset().len());
    let p = pages->Ok_0;
    assert forall|i: int| 0 <= i < chapter_listings.len() implies {
        &&& (#[trigger] p@[i])@.len() == chapter_listings[i].len()
        &&& texts(p@[i]@).to_multiset() == paths_of(chapter_listings[i]).to_multiset()
        &&& sorted_by(SortStrategy::NumericStem, texts(p@[i]@))
    } by {
        assert(listing(chapter_listings[i], Expectation::FilesOnly) == Ok::<Seq<Seq<char>>, Seq<char>>(
            paths_of(chapter_listings[i]),
        ));
        assert(matches_arranged(
            listing(chapter_listings[i], Expectation::FilesOnly),
            Expectation::FilesOnly,
            Some(SortStrategy::NumericStem),
            Ok(p@[i]),
        ));
        assert(stably_sorted(SortStrategy::NumericStem, paths_of(chapter_listings[i]), texts(p@[i]@)));
        assert(texts(p@[i]@).len() == p@[i]@.len());
        assert(paths_of(chapter_listings[i]).len() == chapter_listings[i].len());
        assert(texts(p@[i]@).to_multiset().len() == paths_of(chapter_listings[i]).to_multiset().len());
    }
}

/// `r` is the listing result `res` put in order: sorted stably under the
/// strategy, or left in discovery order without one.
pub open spec fn matches_arranged(
    res: Result<Seq<Seq<char>>, Seq<char>>,
    x: Expectation,
    strategy: Option<SortStrategy>,
    r: Result<Vec<String>, Error>,
) -> bool {
    match res {
        Ok(p) => r matches Ok(v) && match strategy {
            Some(s) => stably_sorted(s, p, texts(v@)),
            None => texts(v@) == p,
        },
        Err(bad) => r matches Err(Error::InvalidEntry(q, y)) && q@ == bad && y == x,
    }
}

fn hidden(name: &String) -> (r: bool)
    ensures
        r == is_hidden(name@),
{
    let s = name.as_str();
    s.unicode_len() > 0 && s.get_char(0) == '.'
}

fn wrong_kind(e: &DirEntry, x: Expectation) -> (r: bool)
    ensures
        r == violates(*e, x),
{
    match x {
        Expectation::AnyType => false,
        Expectation::DirsOnly => !e.is_dir,
        Expectation::FilesOnly => e.is_dir,
    }
}

impl Collector {
    /// Lists the visible entries of a directory (names not beginning with `.`)
    /// in discovery order, failing on the first visible entry of a kind that
    /// the expectation rules out.
    pub fn collect(entries: &Vec<DirEntry>, expectation: Expectation) -> (r: Result<
        Vec<String>,
        Error,
    >)
        ensures
            matches_listing(listing(entries@, expectation), expectation, r),
    {
        let mut out: Vec<String> = Vec::new();
        let mut i: usize = 0;
        assert(entries@.subrange(0, entries@.len() as int) =~= entries@);
        while i < entries.len()
            invariant
                i <= entries@.len(),
                listing(entries@, expectation) == prepend(
                    texts(out@),
                    listing(entries@.subrange(i as int, entries@.len() as int), expectation),
                ),
            decreases entries@.len() - i,
        {
            let e = &entries[i];
            let ghost rest = entries@.subrange(i as int, entries@.len() as int);
            assert(rest.drop_first() =~= entries@.subrange(i + 1, entries@.len() as int));
            assert(rest[0] == *e);
            if !hidden(&e.name) {
                if wrong_kind(e, expectation) {
                    return Err(Error::InvalidEntry(e.path.clone(), expectation));
                }
                proof {
                    lemma_texts_push(out@, e.path);
                    let tail = listing(rest.drop_first(), expectation);
                    match tail {
                        Ok(q) => {
                            assert(texts(out@) + (seq![e.path@] + q) =~= texts(out@).push(e.path@)
                                + q);
                        },
                        Err(_) => {},
                    }
                }
                out.push(e.path.clone());
            }
            i = i + 1;
        }
        assert(texts(out@) + Seq::<Seq<char>>::empty() =~= texts(out@));
        Ok(out)
    }

    /// Lists the chapter directories under the base directory (all visible
    /// entries must be directories), sorted stably by the strategy if one is given.
    pub fn collect_chapters(&self, entries: &Vec<DirEntry>, comparator: Option<SortStrategy>) -> (r:
        Result<Vec<String>, Error>)
        ensures
            matches_arranged(
                listing(entries@, Expectation::DirsOnly),
                Expectation::DirsOnly,
                comparator,
                r,
            ),
    {
        arrange(entries, Expectation::DirsOnly, comparator)
    }

    /// Lists the page files of every chapter (all visible entries must be
    /// files), each sorted stably by the strategy if one is given, in the order
    /// of the chapters; the first chapter whose listing fails fails the whole.
    pub fn collect_pages(&self, chapters: &Vec<Vec<DirEntry>>, comparator: Option<SortStrategy>) -> (r:
        Result<Vec<Vec<String>>, Error>)
        ensures
            pages_collected(entry_lists(chapters@), comparator, r),
    {
        let mut pages: Vec<Vec<String>> = Vec::new();
        let mut i: usize = 0;
        while i < chapters.len()
            invariant
                i <= chapters@.len(),
                entry_lists(chapters@).len() == chapters@.len(),
                forall|j: int|
                    0 <= j < chapters@.len() ==> #[trigger] entry_lists(chapters@)[j] == chapters@[j]@,
                pages@.len() == i,
                forall|j: int|
                    0 <= j < i ==> #[trigger] listing(chapters@[j]@, Expectation::FilesOnly) is Ok
                        && matches_arranged(
                        listing(chapters@[j]@, Expectation::FilesOnly),
                        Expectation::FilesOnly,
                        comparator,
                        Ok(pages@[j]),
                    ),
            decreases chapters@.len() - i,
        {
            let res = arrange(&chapters[i], Expectation::FilesOnly, comparator);
            match res {
                Ok(p) => {
                    pages.push(p);
                },
                Err(e) => {
                    proof {
                        let l = entry_lists(chapters@);
                        assert(l[i as int] == chapters@[i as int]@);
                        assert(failure_of(listing(l[i as int], Expectation::FilesOnly), Expectation::FilesOnly, e));
                        assert(!(listing(l[i as int], Expectation::FilesOnly) is Ok));
                        assert forall|j: int| 0 <= j < i implies #[trigger] listing(l[j], Expectation::FilesOnly) is Ok by {
                            assert(l[j] == chapters@[j]@);
                        }
                    }
                    return Err(e);
                },
            }
            i = i + 1;
        }
        proof {
            let l = entry_lists(chapters@);
            assert forall|j: int| 0 <= j < l.len() implies #[trigger] l[j] == chapters@[j]@ by {}
        }
        Ok(pages)
    }
}

/// Lists entries under an expectation and sorts the result if asked.
fn arrange(entries: &Vec<DirEntry>, x: Expectation, strategy: Option<SortStrategy>) -> (r: Result<
    Vec<String>,
    Error,
>)
    ensures
        matches_arranged(listing(entries@, x), x, strategy, r),
{
    let res = Collector::collect(entries, x);
    match res {
        Ok(mut v) => {
            match strategy {
                Some(s) => {
                    sort_paths(&mut v, s);
                },
                None => {},
            }
            Ok(v)
        },
        Err(e) => Err(e),
    }
}

} // verus!
