use vstd::prelude::*;

use crate::collector::Collector;
use crate::covers::{verdicts, volume_starts};
use crate::error::Error;
use crate::volumes::{total_of, volume_size};
use crate::sorting::SortStrategy;
use crate::text::{chars_of, file_name_of, last_index, lemma_last_index_bounds};

verus! {

/// How a volume plan is made.
#[derive(Clone, Copy, Debug, PartialEq, Eq, Structural)]
pub enum BundleFlag {
    /// From the `VOLUME-CHAPTER` naming convention.
    NAME,
    /// From the colour of each chapter's cover.
    IMAGE,
    /// From sizes that the caller supplies.
    MANUAL,
}

impl Default for BundleFlag {
    fn default() -> (r: Self)
        ensures
            r == BundleFlag::MANUAL,
    {
        BundleFlag::MANUAL
    }
}

/// Output container of a conversion.
#[derive(Clone, Copy, Debug, PartialEq, Eq, Structural)]
pub enum FileFormat {
    PDF,
    EPUB,
    CBZ,
}

impl Default for FileFormat {
    fn default() -> (r: Self)
        ensures
            r == FileFormat::CBZ,
    {
        FileFormat::CBZ
    }
}

/// Reading direction recorded in e-book output.
#[derive(Clone, Copy, Debug, PartialEq, Eq, Structural)]
pub enum Direction {
    LTR,
    RTL,
}

impl Default for Direction {
    fn default() -> (r: Self)
        ensures
            r == Direction::LTR,
    {
        Direction::LTR
    }
}

/// The context of one conversion, owned by the caller and threaded through
/// each step.
pub struct AppState {
    /// Title of the output, taken from the source directory's name.
    pub name: String,
    /// Source directory.
    pub source: String,
    /// How the volume plan is made.
    pub bundle_flag: BundleFlag,
    /// Chapters per volume.
    pub volume_sizes: Vec<usize>,
    /// Pages per chapter.
    pub data: Vec<Vec<String>>,
}

impl Default for AppState {
    fn default() -> (r: Self)
        ensures
            r.name@.len() == 0,
            r.source@.len() == 0,
            r.bundle_flag == BundleFlag::MANUAL,
            r.volume_sizes@.len() == 0,
            r.data@.len() == 0,
    {
        AppState {
            name: String::new(),
            source: String::new(),
            bundle_flag: BundleFlag::MANUAL,
            volume_sizes: Vec::new(),
            data: Vec::new(),
        }
    }
}

impl AppState {
    /// Clears the source, the mode, the plan and the pages; the title stays.
    pub fn reset(&mut self)
        ensures
            final(self).name == old(self).name,
            final(self).source@.len() == 0,
            final(self).bundle_flag == BundleFlag::MANUAL,
            final(self).volume_sizes@.len() == 0,
            final(self).data@.len() == 0,
    {
        self.source = String::new();
        self.bundle_flag = BundleFlag::default();
        self.volume_sizes = Vec::new();
        self.data = Vec::new();
    }
}

/// Reply of a command that only reports.
pub struct CommandDefault {
    pub message: Option<String>,
}

/// Reply carrying the pages per chapter.
pub struct CommandGetData {
    pub message: Option<String>,
    pub data: Vec<Vec<String>>,
}

/// Reply of a bundling run.
pub struct CommandBundle {
    pub message: Option<String>,
    pub total_chapters: usize,
    pub total_volumes: Option<usize>,
    pub chapter_sizes: Option<Vec<usize>>,
}

/// Reply of an analysis of the source tree.
pub struct CommandAnalyze {
    pub message: Option<String>,
    pub negative: Vec<String>,
    pub positive: Vec<String>,
    pub suggest: Vec<String>,
    pub flag: BundleFlag,
}

/// Chapters per volume proposed by an analysis.
pub struct AnalyzeResult {
    pub message: Option<String>,
    pub chapter_per_volume: Vec<usize>,
}

/// Reply of a conversion.
pub struct ConvertResult {
    pub message: Option<String>,
}

/// Title used when the source has no last component.
pub const DEFAULT_NAME: &'static str = "Palaxy-Converted";

/// A path without the `/` that trail it.
pub open spec fn trim_trailing_slashes(p: Seq<char>) -> Seq<char>
    decreases p.len(),
{
    if p.len() > 0 && p.last() == '/' {
        trim_trailing_slashes(p.drop_last())
    } else {
        p
    }
}

/// The last component of a path, trailing `/` ignored; none when it is empty or `..`.
pub open spec fn last_component(p: Seq<char>) -> Option<Seq<char>> {
    let c = file_name_of(trim_trailing_slashes(p));
    if c.len() == 0 || c == seq!['.', '.'] {
        None
    } else {
        Some(c)
    }
}

proof fn lemma_trim_is_prefix(p: Seq<char>)
    ensures
        trim_trailing_slashes(p) == p.subrange(0, trim_trailing_slashes(p).len() as int),
        trim_trailing_slashes(p).len() <= p.len(),
    decreases p.len(),
{
    if p.len() > 0 && p.last() == '/' {
        lemma_trim_is_prefix(p.drop_last());
        assert(p.drop_last().subrange(0, trim_trailing_slashes(p).len() as int) =~= p.subrange(
            0,
            trim_trailing_slashes(p).len() as int,
        ));
    } else {
        assert(p.subrange(0, p.len() as int) =~= p);
    }
}

/// The last component of a path.
pub fn source_name(source: &String) -> (r: Option<String>)
    ensures
        r is Some <==> last_component(source@) is Some,
        r matches Some(s) ==> last_component(source@) == Some(s@),
{
    let cs = chars_of(source.as_str());
    let mut end: usize = cs.len();
    assert(cs@.subrange(0, cs@.len() as int) =~= cs@);
    while end > 0 && cs[end - 1] == '/'
        invariant
            end <= cs@.len(),
            trim_trailing_slashes(cs@) == trim_trailing_slashes(cs@.subrange(0, end as int)),
        decreases end,
    {
        assert(cs@.subrange(0, end as int).drop_last() =~= cs@.subrange(0, end - 1));
        end = end - 1;
    }
    assert(trim_trailing_slashes(cs@.subrange(0, end as int)) == cs@.subrange(0, end as int));
    let trimmed = crate::text::slice_of(&cs, 0, end);
    proof {
        lemma_last_index_bounds(trimmed@, '/');
    }
    let start: usize = match last_index(&trimmed, '/') {
        Some(k) => k + 1,
        None => 0,
    };
    let len = end - start;
    if len == 0 || (len == 2 && cs[start] == '.' && cs[start + 1] == '.') {
        proof {
            let c = file_name_of(trimmed@);
            if len == 2 && cs@[start as int] == '.' && cs@[start + 1] == '.' {
                assert(c =~= seq!['.', '.']);
            }
        }
        return None;
    }
    let part = source.as_str().substring_char(start, end);
    let r = String::from_str(part);
    proof {
        let c = file_name_of(trimmed@);
        assert(c =~= r@);
        if c =~= seq!['.', '.'] {
            assert(c[0] == cs@[start as int]);
            assert(c[1] == cs@[start + 1]);
        }
    }
    Some(r)
}

/// Clears the context for a new run (see `AppState::reset`).
pub fn reset(state: &mut AppState) -> (r: CommandDefault)
    ensures
        final(state).name == old(state).name,
        final(state).source@.len() == 0,
        final(state).bundle_flag == BundleFlag::MANUAL,
        final(state).volume_sizes@.len() == 0,
        final(state).data@.len() == 0,
        r.message is None,
{
    state.reset();
    CommandDefault { message: None }
}

/// Sets the source directory and takes the title from its last component, or
/// the default title when there is none.
pub fn set_source(source: String, state: &mut AppState) -> (r: CommandDefault)
    ensures
        final(state).source@ == source@,
        last_component(source@) matches Some(c) ==> final(state).name@ == c,
        last_component(source@) is None ==> final(state).name@ == DEFAULT_NAME@,
        final(state).bundle_flag == old(state).bundle_flag,
        final(state).volume_sizes@ == old(state).volume_sizes@,
        final(state).data@ == old(state).data@,
        r.message is None,
{
    let name = match source_name(&source) {
        Some(n) => n,
        None => String::from_str(DEFAULT_NAME),
    };
    state.source = source;
    state.name = name;
    CommandDefault { message: None }
}

/// Sets the chapters per volume.
pub fn set_volume_sizes(sizes: Vec<usize>, state: &mut AppState) -> (r: CommandDefault)
    ensures
        final(state).volume_sizes@ == sizes@,
        final(state).name == old(state).name,
        final(state).source == old(state).source,
        final(state).bundle_flag == old(state).bundle_flag,
        final(state).data@ == old(state).data@,
        r.message is None,
{
    state.volume_sizes = sizes;
    CommandDefault { message: None }
}

/// Sets how the volume plan is made.
pub fn set_bundle_flag(flag: BundleFlag, state: &mut AppState) -> (r: CommandDefault)
    ensures
        final(state).bundle_flag == flag,
        final(state).name == old(state).name,
        final(state).source == old(state).source,
        final(state).volume_sizes@ == old(state).volume_sizes@,
        final(state).data@ == old(state).data@,
        r.message is None,
{
    state.bundle_flag = flag;
    CommandDefault { message: None }
}

/// Sets the pages per chapter.
pub fn set_data(data: Vec<Vec<String>>, state: &mut AppState) -> (r: CommandDefault)
    ensures
        final(state).data@ == data@,
        final(state).name == old(state).name,
        final(state).source == old(state).source,
        final(state).bundle_flag == old(state).bundle_flag,
        final(state).volume_sizes@ == old(state).volume_sizes@,
        r.message is None,
{
    state.data = data;
    CommandDefault { message: None }
}

/// The contents of each page list.
pub open spec fn page_lists(pages: Seq<Vec<String>>) -> Seq<Seq<String>> {
    pages.map_values(|p: Vec<String>| p@)
}

/// A copy of the pages per chapter.
pub fn get_data(state: &AppState) -> (r: CommandGetData)
    ensures
        r.message is None,
        page_lists(r.data@) == page_lists(state.data@),
{
    let mut data: Vec<Vec<String>> = Vec::new();
    let mut i: usize = 0;
    while i < state.data.len()
        invariant
            i <= state.data@.len(),
            data@.len() == i,
            forall|k: int| 0 <= k < i ==> #[trigger] data@[k]@ == state.data@[k]@,
        decreases state.data@.len() - i,
    {
        let src = &state.data[i];
        let mut copy: Vec<String> = Vec::new();
        let mut j: usize = 0;
        while j < src.len()
            invariant
                j <= src@.len(),
                copy@ == src@.subrange(0, j as int),
            decreases src@.len() - j,
        {
            copy.push(src[j].clone());
            j = j + 1;
        }
        assert(copy@ =~= src@);
        data.push(copy);
        i = i + 1;
    }
    assert(page_lists(data@) =~= page_lists(state.data@));
    CommandGetData { message: None, data }
}

/// The order in which chapter directories are collected for a mode: by
/// trailing number for cover detection, by `VOLUME-CHAPTER` for the name
/// convention, as discovered for manual plans.
pub fn chapter_order(flag: BundleFlag) -> (r: Option<SortStrategy>)
    ensures
        flag == BundleFlag::IMAGE ==> r == Some(SortStrategy::TrailingNumber),
        flag == BundleFlag::NAME ==> r == Some(SortStrategy::VolumeChapterDual),
        flag == BundleFlag::MANUAL ==> r is None,
{
    match flag {
        BundleFlag::IMAGE => Some(SortStrategy::TrailingNumber),
        BundleFlag::NAME => Some(SortStrategy::VolumeChapterDual),
        BundleFlag::MANUAL => None,
    }
}

/// The cover detection sensitivity in percent: 75 unless given, and a given
/// one must lie in 1..=100.
pub fn sensitivity_of(sensibility: Option<usize>) -> (r: Result<u8, Error>)
    ensures
        sensibility is None ==> r == Ok::<u8, Error>(75),
        sensibility matches Some(s) ==> (1 <= s <= 100 <==> r is Ok),
        sensibility is Some && r is Ok ==> r->Ok_0 == sensibility->Some_0,
        r is Err ==> r->Err_0 is ParseFailure,
{
    match sensibility {
        None => Ok(75),
        Some(s) => {
            if 1 <= s && s <= 100 {
                Ok(s as u8)
            } else {
                Err(Error::ParseFailure(String::from_str("the sensitivity must lie between 1 and 100")))
            }
        },
    }
}

impl Collector {
    /// Chapters per volume for a mode: the name-convention sizes, the sizes the
    /// caller chose, or, from the cover verdicts of every chapter, the volume
    /// starts turned into sizes. In the last case a failed verdict fails with
    /// the first failure, and no chapters at all fail with `EmptyInput`.
    pub fn plan_sizes(
        &self,
        flag: BundleFlag,
        name_sizes: Vec<usize>,
        manual_sizes: Vec<usize>,
        cover_verdicts: Vec<Result<bool, Error>>,
    ) -> (r: Result<Vec<usize>, Error>)
        ensures
            flag == BundleFlag::NAME ==> (r matches Ok(v) && v@ == name_sizes@),
            flag == BundleFlag::MANUAL ==> (r matches Ok(v) && v@ == manual_sizes@),
            flag == BundleFlag::IMAGE ==> {
                let n = cover_verdicts@.len() as int;
                let starts = volume_starts(verdicts(cover_verdicts@));
                &&& r is Ok <==> n > 0 && forall|i: int|
                    0 <= i < n ==> #[trigger] cover_verdicts@[i] is Ok
                &&& r matches Ok(v) ==> v@.len() == starts.len() && total_of(v@) == n && forall|i: int|
                    0 <= i < v@.len() ==> #[trigger] v@[i] == volume_size(starts, n, i)
                &&& (n == 0 ==> r matches Err(Error::EmptyInput(_)))
                &&& (r is Err && n > 0 ==> exists|i: int|
                    0 <= i < n && (forall|j: int| 0 <= j < i ==> #[trigger] cover_verdicts@[j] is Ok)
                        && cover_verdicts@[i] == Err::<bool, Error>(r->Err_0))
            },
    {
        match flag {
            BundleFlag::NAME => Ok(name_sizes),
            BundleFlag::MANUAL => Ok(manual_sizes),
            BundleFlag::IMAGE => {
                let n = cover_verdicts.len();
                match self.determine_volume_start_chapters(cover_verdicts) {
                    Ok(starts) => self.calculate_volume_sizes(starts, n),
                    Err(e) => Err(e),
                }
            },
        }
    }
}

/// Records a bundling run's plan and pages in the context and reports it: the
/// number of chapters, and the number and sizes of the volumes when there are any.
pub fn bundle(state: &mut AppState, pages: Vec<Vec<String>>, chapter_sizes: Vec<usize>) -> (r: CommandBundle)
    ensures
        final(state).volume_sizes@ == chapter_sizes@,
        final(state).data@ == pages@,
        final(state).name == old(state).name,
        final(state).source == old(state).source,
        final(state).bundle_flag == old(state).bundle_flag,
        r.message is None,
        r.total_chapters == pages@.len(),
        chapter_sizes@.len() == 0 ==> r.total_volumes is None && r.chapter_sizes is None,
        chapter_sizes@.len() > 0 ==> r.total_volumes == Some(chapter_sizes@.len() as usize),
        chapter_sizes@.len() > 0 ==> (r.chapter_sizes matches Some(s) && s@ == chapter_sizes@),
{
    let total_chapters = pages.len();
    let n = chapter_sizes.len();
    let mut reported: Vec<usize> = Vec::new();
    let mut i: usize = 0;
    while i < n
        invariant
            n == chapter_sizes@.len(),
            i <= n,
            reported@ == chapter_sizes@.subrange(0, i as int),
        decreases n - i,
    {
        reported.push(chapter_sizes[i]);
        i = i + 1;
    }
    assert(reported@ =~= chapter_sizes@);
    state.volume_sizes = chapter_sizes;
    state.data = pages;
    CommandBundle {
        message: None,
        total_chapters,
        total_volumes: if n > 0 {
            Some(n)
        } else {
            None
        },
        chapter_sizes: if n > 0 {
            Some(reported)
        } else {
            None
        },
    }
}

} // verus!
