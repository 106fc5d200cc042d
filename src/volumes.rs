use vstd::prelude::*;

use crate::error::Error;

verus! {

/// Sum of a sequence of counts.
pub open spec fn total_of(s: Seq<usize>) -> int
    decreases s.len(),
{
    if s.len() == 0 {
        0
    } else {
        total_of(s.drop_last()) + s.last()
    }
}

/// Boundaries the size calculator accepts: after the first (which is always
/// chapter 0 and ignored), the indices ascend and stay within the chapter count.
pub open spec fn valid_boundaries(b: Seq<usize>, total: int) -> bool {
    &&& forall|i: int, j: int| 1 <= i <= j < b.len() ==> b[i] <= b[j]
    &&& forall|i: int| 1 <= i < b.len() ==> b[i] <= total
}

/// Start of the volume that the `i`-th boundary opens (the first always opens at 0).
pub open spec fn volume_start(b: Seq<usize>, i: int) -> int {
    if i == 0 {
        0
    } else {
        b[i] as int
    }
}

/// Chapters in the `i`-th volume: the gap to the next boundary, or what remains.
pub open spec fn volume_size(b: Seq<usize>, total: int, i: int) -> int {
    if i + 1 < b.len() {
        b[i + 1] - volume_start(b, i)
    } else {
        total - volume_start(b, i)
    }
}

/// Adding a count to the end adds it to the sum.
pub proof fn lemma_total_push(s: Seq<usize>, x: usize)
    ensures
        total_of(s.push(x)) == total_of(s) + x,
{
    assert(s.push(x).drop_last() =~= s);
}

impl crate::collector::Collector {
    /// Turns the sorted volume-start indices into the number of chapters of each volume.
    pub fn calculate_volume_sizes(&self, book_start_chapters: Vec<usize>, total_chapters: usize) -> (r:
        Result<Vec<usize>, Error>)
        requires
            valid_boundaries(book_start_chapters@, total_chapters as int),
        ensures
            book_start_chapters@.len() == 0 <==> r is Err,
            r is Err ==> r->Err_0 is EmptyInput,
            r matches Ok(sizes) ==> {
                &&& sizes@.len() == book_start_chapters@.len()
                &&& forall|i: int|
                    0 <= i < sizes@.len() ==> sizes@[i] == volume_size(
                        book_start_chapters@,
                        total_chapters as int,
                        i,
                    )
                &&& total_of(sizes@) == total_chapters
            },
    {
        volume_sizes(&book_start_chapters, total_chapters)
    }
}

/// Free-standing form of the size calculation, shared by the name-based planner.
pub fn volume_sizes(b: &Vec<usize>, total: usize) -> (r: Result<Vec<usize>, Error>)
    requires
        valid_boundaries(b@, total as int),
    ensures
        b@.len() == 0 <==> r is Err,
        r is Err ==> r->Err_0 is EmptyInput,
        r matches Ok(sizes) ==> {
            &&& sizes@.len() == b@.len()
            &&& forall|i: int| 0 <= i < sizes@.len() ==> sizes@[i] == volume_size(b@, total as int, i)
            &&& total_of(sizes@) == total
        },
{
    if b.len() == 0 {
        return Err(Error::EmptyInput(String::from_str("no volume starts were found")));
    }
    let mut sizes: Vec<usize> = Vec::new();
    let mut prev: usize = 0;
    let mut i: usize = 1;
    while i < b.len()
        invariant
            1 <= i <= b@.len(),
            valid_boundaries(b@, total as int),
            prev == volume_start(b@, i - 1),
            prev <= total,
            sizes@.len() == i - 1,
            forall|k: int| 0 <= k < i - 1 ==> sizes@[k] == volume_size(b@, total as int, k),
            total_of(sizes@) == prev,
        decreases b@.len() - i,
    {
        let chapter = b[i];
        proof {
            if i >= 2 {
                assert(b@[i - 1] <= b@[i as int]);
            }
            assert(b@[i as int] <= total);
            lemma_total_push(sizes@, (chapter - prev) as usize);
        }
        sizes.push(chapter - prev);
        prev = chapter;
        i = i + 1;
    }
    proof {
        lemma_total_push(sizes@, (total - prev) as usize);
    }
    sizes.push(total - prev);
    Ok(sizes)
}

} // verus!
