use vstd::prelude::*;

use crate::error::Error;
use crate::volumes::{lemma_total_push, total_of};

verus! {

/// The character of one decimal digit.
pub open spec fn digit_char(d: nat) -> char {
    seq!['0', '1', '2', '3', '4', '5', '6', '7', '8', '9'][d as int]
}

/// Decimal text of a number, no sign and no padding.
pub open spec fn decimal_text(n: nat) -> Seq<char>
    decreases n,
{
    if n < 10 {
        seq![digit_char(n)]
    } else {
        decimal_text(n / 10).push(digit_char(n % 10))
    }
}

/// Name of a volume: the title, a bar, and the volume's 1-based ordinal.
pub open spec fn volume_title(title: Seq<char>, ordinal: nat) -> Seq<char> {
    title + seq![' ', '|', ' '] + decimal_text(ordinal)
}

/// The page lists of a run of chapters, one after the other.
pub open spec fn flatten(c: Seq<Seq<Seq<char>>>) -> Seq<Seq<char>>
    decreases c.len(),
{
    if c.len() == 0 {
        Seq::empty()
    } else {
        flatten(c.drop_last()) + c.last()
    }
}

/// First chapter of volume `i`: the sum of the sizes of the volumes before it.
pub open spec fn volume_offset(sizes: Seq<usize>, i: int) -> int {
    total_of(sizes.subrange(0, i))
}

/// The contents of each page list.
pub open spec fn lists(pages: Seq<Vec<String>>) -> Seq<Seq<String>> {
    pages.map_values(|p: Vec<String>| p@)
}

/// The work handed to one encoder: one volume.
pub struct VolumeJob {
    /// 1-based position of the volume.
    pub ordinal: usize,
    /// Human-readable name, `"<title> | <ordinal>"`.
    pub name: String,
    /// Index of the volume's first chapter.
    pub first_chapter: usize,
    /// Number of chapters in the volume.
    pub chapter_count: usize,
    /// Pages of the volume's chapters, per chapter, in order.
    pub chapters: Vec<Vec<String>>,
}

/// `job` is volume `i` of the plan over the chapters' pages.
pub open spec fn is_job(title: Seq<char>, pages: Seq<Vec<String>>, sizes: Seq<usize>, i: int, job: VolumeJob) -> bool {
    let start = volume_offset(sizes, i);
    &&& job.ordinal == i + 1
    &&& job.name@ == volume_title(title, (i + 1) as nat)
    &&& job.first_chapter == start
    &&& job.chapter_count == sizes[i]
    &&& lists(job.chapters@) == lists(pages.subrange(start, start + sizes[i]))
}

pub proof fn lemma_decimal_text_len(n: nat)
    ensures
        1 <= decimal_text(n).len() <= n + 1,
    decreases n,
{
    if n >= 10 {
        lemma_decimal_text_len(n / 10);
    }
}

fn digit_str(d: usize) -> (r: &'static str)
    requires
        d < 10,
    ensures
        r@ == seq![digit_char(d as nat)],
{
    proof {
        reveal_strlit("0");
        reveal_strlit("1");
        reveal_strlit("2");
        reveal_strlit("3");
        reveal_strlit("4");
        reveal_strlit("5");
        reveal_strlit("6");
        reveal_strlit("7");
        reveal_strlit("8");
        reveal_strlit("9");
    }
    let r = if d == 0 {
        "0"
    } else if d == 1 {
        "1"
    } else if d == 2 {
        "2"
    } else if d == 3 {
        "3"
    } else if d == 4 {
        "4"
    } else if d == 5 {
        "5"
    } else if d == 6 {
        "6"
    } else if d == 7 {
        "7"
    } else if d == 8 {
        "8"
    } else {
        "9"
    };
    assert(r@ =~= seq![digit_char(d as nat)]);
    r
}

/// Decimal text of a number.
pub fn decimal_string(n: usize) -> (r: String)
    ensures
        r@ == decimal_text(n as nat),
    decreases n,
{
    if n < 10 {
        String::from_str(digit_str(n))
    } else {
        let mut s = decimal_string(n / 10);
        s.append(digit_str(n % 10));
        s
    }
}

/// Builds the volume name `"<title> | <ordinal>"`.
pub fn volume_name(title: &String, ordinal: usize) -> (r: String)
    ensures
        r@ == volume_title(title@, ordinal as nat),
{
    let mut s = title.clone();
    proof {
        reveal_strlit(" | ");
    }
    s.append(" | ");
    let d = decimal_string(ordinal);
    s.append(d.as_str());
    assert(s@ =~= volume_title(title@, ordinal as nat));
    s
}

fn clone_pages(p: &Vec<String>) -> (r: Vec<String>)
    ensures
        r@ == p@,
{
    let mut r: Vec<String> = Vec::new();
    let mut i: usize = 0;
    while i < p.len()
        invariant
            i <= p@.len(),
            r@ == p@.subrange(0, i as int),
        decreases p@.len() - i,
    {
        r.push(p[i].clone());
        i = i + 1;
    }
    assert(r@ =~= p@);
    r
}

/// Splits the chapters' pages into one job per volume of the plan: volume `i`
/// starts at the chapter after the sizes of the volumes before it, holds
/// `sizes[i]` chapters and is named `"<title> | <i + 1>"`. A plan that does not
/// cover exactly the chapters there are is refused.
pub fn plan_volumes(title: &String, pages: &Vec<Vec<String>>, chapters_per_volume: &Vec<usize>) -> (r:
    Result<Vec<VolumeJob>, Error>)
    ensures
        r is Ok <==> total_of(chapters_per_volume@) == pages@.len(),
        r is Err ==> r->Err_0 is InvalidPlan,
        r matches Ok(jobs) ==> jobs@.len() == chapters_per_volume@.len() && forall|i: int|
            0 <= i < jobs@.len() ==> is_job(title@, pages@, chapters_per_volume@, i, #[trigger] jobs@[i]),
{
    let mut jobs: Vec<VolumeJob> = Vec::new();
    let mut start: usize = 0;
    let mut i: usize = 0;
    let n = chapters_per_volume.len();
    while i < n
        invariant
            n == chapters_per_volume@.len(),
            i <= n,
            start == volume_offset(chapters_per_volume@, i as int),
            start <= pages@.len(),
            jobs@.len() == i,
            forall|k: int|
                0 <= k < i ==> is_job(title@, pages@, chapters_per_volume@, k, #[trigger] jobs@[k]),
        decreases n - i,
    {
        let size = chapters_per_volume[i];
        proof {
            assert(chapters_per_volume@.subrange(0, i + 1) =~= chapters_per_volume@.subrange(
                0,
                i as int,
            ).push(size));
            lemma_total_push(chapters_per_volume@.subrange(0, i as int), size);
        }
        if size > pages.len() - start {
            proof {
                lemma_prefix_total_grows(chapters_per_volume@, i + 1);
            }
            return Err(Error::InvalidPlan(String::from_str("the volume sizes exceed the chapters")));
        }
        let mut chapters: Vec<Vec<String>> = Vec::new();
        let end = start + size;
        let mut k: usize = start;
        while k < end
            invariant
                end == start + size,
                end <= pages@.len(),
                start <= k <= end,
                chapters@.len() == k - start,
                lists(chapters@) == lists(pages@.subrange(start as int, k as int)),
            decreases end - k,
        {
            let copy = clone_pages(&pages[k]);
            proof {
                let a = lists(chapters@.push(copy));
                let b = lists(pages@.subrange(start as int, k + 1));
                let pre = lists(pages@.subrange(start as int, k as int));
                assert(a.len() == b.len());
                assert forall|j: int| 0 <= j < a.len() implies a[j] == b[j] by {
                    if j < a.len() - 1 {
                        assert(a[j] == lists(chapters@)[j]);
                        assert(pre[j] == b[j]);
                    } else {
                        assert(a[j] == copy@);
                        assert(b[j] == pages@[k as int]@);
                    }
                }
                assert(a =~= b);
            }
            chapters.push(copy);
            k = k + 1;
        }
        let name = volume_name(title, i + 1);
        jobs.push(VolumeJob { ordinal: i + 1, name, first_chapter: start, chapter_count: size, chapters });
        start = start + size;
        i = i + 1;
    }
    assert(chapters_per_volume@.subrange(0, n as int) =~= chapters_per_volume@);
    if start != pages.len() {
        return Err(Error::InvalidPlan(String::from_str("the volume sizes do not cover every chapter")));
    }
    Ok(jobs)
}

proof fn lemma_prefix_total_grows(s: Seq<usize>, i: int)
    requires
        0 <= i <= s.len(),
    ensures
        total_of(s.subrange(0, i)) <= total_of(s),
    decreases s.len() - i,
{
    if i < s.len() {
        lemma_prefix_total_grows(s, i + 1);
        assert(s.subrange(0, i + 1) =~= s.subrange(0, i).push(s[i]));
        lemma_total_push(s.subrange(0, i), s[i]);
    } else {
        assert(s.subrange(0, i) =~= s);
    }
}

} // verus!
