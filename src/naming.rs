use vstd::prelude::*;

use crate::collector::Collector;
use crate::sorting::{lemma_texts_push, texts, volume_segment};
use crate::text::{
    chars_of, file_name, file_name_of, first_index, lemma_first_index_from_bounds, parse_usize,
    slice_of, usize_of_text,
};
use crate::volumes::{lemma_total_push, total_of, volume_size, volume_sizes};

verus! {

/// Volume number of a chapter under the `VOLUME-CHAPTER` convention: what
/// precedes the first `-` of its name read as an integer, 0 when it does not read.
pub open spec fn volume_number(path: Seq<char>) -> usize {
    match usize_of_text(volume_segment(file_name_of(path))) {
        Some(v) => v,
        None => 0,
    }
}

/// A chapter of volume 0 is an extra that belongs to no numbered volume.
pub open spec fn is_extra(path: Seq<char>) -> bool {
    volume_number(path) == 0
}

/// The chapters of numbered volumes, in their order.
pub open spec fn regular_chapters(c: Seq<Seq<char>>) -> Seq<Seq<char>>
    decreases c.len(),
{
    if c.len() == 0 {
        Seq::empty()
    } else if is_extra(c.last()) {
        regular_chapters(c.drop_last())
    } else {
        regular_chapters(c.drop_last()).push(c.last())
    }
}

/// The extra chapters, in their order.
pub open spec fn extra_chapters(c: Seq<Seq<char>>) -> Seq<Seq<char>>
    decreases c.len(),
{
    if c.len() == 0 {
        Seq::empty()
    } else if is_extra(c.last()) {
        extra_chapters(c.drop_last()).push(c.last())
    } else {
        extra_chapters(c.drop_last())
    }
}

/// Where runs of chapters with one volume number begin.
pub open spec fn run_starts(c: Seq<Seq<char>>) -> Seq<usize>
    decreases c.len(),
{
    if c.len() == 0 {
        Seq::empty()
    } else if c.len() == 1 {
        seq![0usize]
    } else if volume_number(c.last()) != volume_number(c[c.len() - 2]) {
        run_starts(c.drop_last()).push((c.len() - 1) as usize)
    } else {
        run_starts(c.drop_last())
    }
}

/// Chapters in order and the number of chapters of each volume.
pub struct VolumePlan {
    pub chapters: Vec<String>,
    pub sizes: Vec<usize>,
}

/// `p` is the name-convention plan for `c`: the numbered chapters in their
/// order and then the extras; one volume per run of equal volume numbers, then
/// one volume holding all extras, if any.
pub open spec fn is_name_plan(c: Seq<Seq<char>>, p: VolumePlan) -> bool {
    let reg = regular_chapters(c);
    let ext = extra_chapters(c);
    let starts = run_starts(reg);
    &&& texts(p.chapters@) == reg + ext
    &&& p.sizes@.len() == starts.len() + if ext.len() > 0 { 1int } else { 0int }
    &&& forall|i: int|
        0 <= i < starts.len() ==> #[trigger] p.sizes@[i] == volume_size(starts, reg.len() as int, i)
    &&& ext.len() > 0 ==> p.sizes@.last() == ext.len()
    &&& total_of(p.sizes@) == c.len()
}

proof fn lemma_run_starts_shape(c: Seq<Seq<char>>)
    requires
        c.len() <= usize::MAX,
    ensures
        run_starts(c).len() > 0 <==> c.len() > 0,
        run_starts(c).len() > 0 ==> run_starts(c)[0] == 0,
        forall|i: int, j: int|
            0 <= i < j < run_starts(c).len() ==> run_starts(c)[i] < run_starts(c)[j],
        forall|i: int| 0 <= i < run_starts(c).len() ==> run_starts(c)[i] < c.len(),
    decreases c.len(),
{
    if c.len() > 1 {
        lemma_run_starts_shape(c.drop_last());
        let prev = run_starts(c.drop_last());
        if volume_number(c.last()) != volume_number(c[c.len() - 2]) {
            let b = prev.push((c.len() - 1) as usize);
            assert forall|i: int, j: int| 0 <= i < j < b.len() implies b[i] < b[j] by {
                if j == b.len() - 1 {
                    assert(b[i] == prev[i]);
                }
            }
        }
    }
}

proof fn lemma_split_lengths(c: Seq<Seq<char>>)
    ensures
        regular_chapters(c).len() + extra_chapters(c).len() == c.len(),
    decreases c.len(),
{
    if c.len() > 0 {
        lemma_split_lengths(c.drop_last());
    }
}

/// Volume number of a chapter under the name convention.
pub fn volume_number_of(path: &String) -> (r: usize)
    ensures
        r == volume_number(path@),
{
    let cs = chars_of(path.as_str());
    let name = file_name(&cs);
    let n = name.len();
    proof {
        lemma_first_index_from_bounds(name@, '-', 0);
        assert(name@.subrange(0, n as int) =~= name@);
    }
    let seg = match first_index(&name, '-') {
        Some(k) => slice_of(&name, 0, k),
        None => slice_of(&name, 0, n),
    };
    match parse_usize(&seg) {
        Some(v) => v,
        None => 0,
    }
}

impl Collector {
    /// Plans volumes from `VOLUME-CHAPTER` chapter names (the chapters being
    /// sorted by that convention already): a volume for each run of chapters
    /// with one volume number, and the chapters of volume 0 (or of no readable
    /// volume number) moved to the end as one extra volume.
    pub fn plan_by_name(chapters: &Vec<String>) -> (r: VolumePlan)
        ensures
            is_name_plan(texts(chapters@), r),
    {
        let ghost c = texts(chapters@);
        let mut regular: Vec<String> = Vec::new();
        let mut extras: Vec<String> = Vec::new();
        let mut starts: Vec<usize> = Vec::new();
        let mut last_volume: usize = 0;
        let mut i: usize = 0;
        while i < chapters.len()
            invariant
                c == texts(chapters@),
                i <= chapters@.len(),
                texts(regular@) == regular_chapters(c.subrange(0, i as int)),
                texts(extras@) == extra_chapters(c.subrange(0, i as int)),
                starts@ == run_starts(texts(regular@)),
                regular@.len() > 0 ==> last_volume == volume_number(regular@.last()@),
                regular@.len() <= i,
            decreases chapters@.len() - i,
        {
            let ghost pre = c.subrange(0, i as int);
            assert(c.subrange(0, i + 1).drop_last() =~= pre);
            assert(c.subrange(0, i + 1).last() == chapters@[i as int]@);
            let v = volume_number_of(&chapters[i]);
            let ch = chapters[i].clone();
            if v == 0 {
                proof {
                    lemma_texts_push(extras@, ch);
                }
                extras.push(ch);
            } else {
                let ghost old_reg = texts(regular@);
                proof {
                    lemma_texts_push(regular@, ch);
                    assert(texts(regular@.push(ch)).drop_last() =~= old_reg);
                    if old_reg.len() > 0 {
                        assert(texts(regular@.push(ch))[old_reg.len() - 1] == old_reg.last());
                        assert(old_reg.last() == regular@.last()@);
                    }
                }
                if regular.len() == 0 {
                    starts.push(0);
                } else if v != last_volume {
                    starts.push(regular.len());
                }
                regular.push(ch);
                last_volume = v;
            }
            i = i + 1;
        }
        proof {
            assert(c.subrange(0, chapters@.len() as int) =~= c);
            lemma_run_starts_shape(texts(regular@));
            lemma_split_lengths(c);
        }
        let n_regular = regular.len();
        let n_extra = extras.len();
        let mut sizes: Vec<usize> = match volume_sizes(&starts, n_regular) {
            Ok(s) => s,
            Err(_) => Vec::new(),
        };
        assert(total_of(sizes@) == n_regular) by {
            if n_regular == 0 {
                assert(sizes@ =~= Seq::<usize>::empty());
            }
        }
        if n_extra > 0 {
            proof {
                lemma_total_push(sizes@, n_extra);
            }
            sizes.push(n_extra);
        }
        let ghost reg_texts = texts(regular@);
        let mut ordered = regular;
        ordered.append(&mut extras);
        proof {
            assert(texts(ordered@) =~= reg_texts + extra_chapters(c));
        }
        VolumePlan { chapters: ordered, sizes }
    }
}

} // verus!
