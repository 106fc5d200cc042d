use vstd::prelude::*;

use crate::sorting::{lemma_texts_push, texts};
use crate::state::{BundleFlag, CommandAnalyze};
use crate::text::{
    chars_of, file_name_of, is_ascii_digit, is_digit, last_index, last_index_of,
    lemma_last_index_bounds, stem_of,
};

verus! {

/// Whether a character is numeric in Unicode's sense (general categories Nd, Nl, No).
pub uninterp spec fn numeric_char(c: char) -> bool;

/// Relies on `char::is_numeric`, which tells whether a character belongs to
/// Unicode's numeric categories; ASCII digits do.
#[verifier::external_body]
fn is_numeric(c: char) -> (r: bool)
    ensures
        r == numeric_char(c),
        is_digit(c) ==> r,
{
    c.is_numeric()
}

pub const NO_CHAPTERS: &'static str = "No subdirectories found in the base path. Ensure they exist with images inside.";

pub const NO_PAGES: &'static str = "Subdirectories contain no files. Verify that chapter images are placed inside.";

pub const DIR_NOT_NUMBERED: (&'static str, &'static str) = (
    "Directory ",
    " lacks numerical identifiers. Remove them for faster bundling.",
);

pub const DIR_NOT_WRITABLE: (&'static str, &'static str) = (
    "Directory ",
    " lacks write permissions. Required for full functionality.",
);

pub const FILE_NOT_WRITABLE: (&'static str, &'static str) = (
    "File ",
    " lacks write permissions. Required for full functionality.",
);

pub const FILE_NOT_NUMBERED: (&'static str, &'static str) = (
    "File ",
    " lacks numerical naming. Required for effective sorting and bundling.",
);

pub const NAMING_HINT: &'static str = "Subdirectory naming convention not followed; use 'VOLUME-CHAPTER' (e.g., '002-032') for faster bundling.";

pub const FAST_PATH: &'static str = "Directories correctly named and numbered. Automatic bundling will proceed with the fastest algorithm.";

pub const FALLBACK_PATH: &'static str = "Automatic bundling will use fallback mechanisms, potentially slowing the process and increasing error risk.";

/// A name holds a numeric character.
pub open spec fn has_numeric(name: Seq<char>) -> bool {
    exists|i: int| 0 <= i < name.len() && numeric_char(#[trigger] name[i])
}

/// A name holds `digits-digits` (ASCII digits), the mark of the
/// `VOLUME-CHAPTER` convention.
pub open spec fn has_volume_chapter(name: Seq<char>) -> bool {
    exists|k: int|
        1 <= k < name.len() - 1 && is_digit(name[k - 1]) && #[trigger] name[k] == '-' && is_digit(
            name[k + 1],
        )
}

/// A stem is numbered when, dots aside, every character is numeric.
pub open spec fn numbered_stem(stem: Seq<char>) -> bool {
    forall|i: int| 0 <= i < stem.len() ==> #[trigger] stem[i] == '.' || numeric_char(stem[i])
}

/// A note on one path: the text before, its file name in quotes, the text after.
pub open spec fn note(before: Seq<char>, path: Seq<char>, after: Seq<char>) -> Seq<char> {
    before + seq!['"'] + file_name_of(path) + seq!['"'] + after
}

/// The notes on the first `n` paths whose flag is set, in order.
pub open spec fn notes(paths: Seq<Seq<char>>, flagged: Seq<bool>, before: Seq<char>, after: Seq<char>, n: int) -> Seq<Seq<char>>
    decreases n,
{
    if n <= 0 {
        Seq::empty()
    } else {
        notes(paths, flagged, before, after, n - 1) + if flagged[n - 1] {
            seq![note(before, paths[n - 1], after)]
        } else {
            Seq::empty()
        }
    }
}

/// The notes on all paths whose flag is set.
pub open spec fn all_notes(paths: Seq<Seq<char>>, flagged: Seq<bool>, m: (&str, &str)) -> Seq<Seq<char>> {
    notes(paths, flagged, m.0@, m.1@, paths.len() as int)
}

/// Flags of the chapters whose names hold no numeric character.
pub open spec fn unnumbered_dirs(c: Seq<Seq<char>>) -> Seq<bool> {
    Seq::new(c.len(), |i: int| !has_numeric(file_name_of(c[i])))
}

/// Flags of the chapters whose names do not follow the convention.
pub open spec fn unconventional_dirs(c: Seq<Seq<char>>) -> Seq<bool> {
    Seq::new(c.len(), |i: int| !has_volume_chapter(file_name_of(c[i])))
}

/// Flags of the pages whose stems are not numbered.
pub open spec fn unnumbered_files(p: Seq<Seq<char>>) -> Seq<bool> {
    Seq::new(p.len(), |i: int| !numbered_stem(stem_of(file_name_of(p[i]))))
}

/// Negation of each flag.
pub open spec fn negated(w: Seq<bool>) -> Seq<bool> {
    Seq::new(w.len(), |i: int| !w[i])
}

/// Some flag is set.
pub open spec fn any(f: Seq<bool>) -> bool {
    exists|i: int| 0 <= i < f.len() && #[trigger] f[i]
}

/// What an analysis of chapters and pages reports.
pub open spec fn is_analysis(
    c: Seq<Seq<char>>,
    p: Seq<Seq<char>>,
    cw: Seq<bool>,
    pw: Seq<bool>,
    r: CommandAnalyze,
) -> bool {
    &&& r.message is None
    &&& if c.len() == 0 {
        &&& texts(r.negative@) == seq![NO_CHAPTERS@]
        &&& r.positive@.len() == 0 && r.suggest@.len() == 0
        &&& r.flag == BundleFlag::IMAGE
    } else if p.len() == 0 {
        &&& texts(r.negative@) == seq![NO_PAGES@]
        &&& r.positive@.len() == 0 && r.suggest@.len() == 0
        &&& r.flag == BundleFlag::IMAGE
    } else {
        let plain = any(unnumbered_dirs(c)) || any(unconventional_dirs(c));
        &&& texts(r.negative@) == all_notes(c, unnumbered_dirs(c), DIR_NOT_NUMBERED) + all_notes(
            c,
            negated(cw),
            DIR_NOT_WRITABLE,
        ) + all_notes(p, negated(pw), FILE_NOT_WRITABLE) + all_notes(
            p,
            unnumbered_files(p),
            FILE_NOT_NUMBERED,
        )
        &&& texts(r.suggest@) == if any(unconventional_dirs(c)) {
            seq![NAMING_HINT@]
        } else {
            Seq::empty()
        }
        &&& texts(r.positive@) == if plain {
            seq![FALLBACK_PATH@]
        } else {
            seq![FAST_PATH@]
        }
        &&& r.flag == if plain {
            BundleFlag::IMAGE
        } else {
            BundleFlag::NAME
        }
    }
}

/// Position where the file name of `path` begins.
fn name_start(cs: &Vec<char>) -> (r: usize)
    ensures
        r as int == last_index_of(cs@, '/') + 1,
        r <= cs@.len(),
{
    proof {
        lemma_last_index_bounds(cs@, '/');
    }
    match last_index(cs, '/') {
        Some(k) => k + 1,
        None => 0,
    }
}

/// The note on one path.
fn make_note(before: &str, path: &String, after: &str) -> (r: String)
    ensures
        r@ == note(before@, path@, after@),
{
    let cs = chars_of(path.as_str());
    let start = name_start(&cs);
    let name = path.as_str().substring_char(start, cs.len());
    proof {
        reveal_strlit("\"");
    }
    let mut s = String::from_str(before);
    s.append("\"");
    s.append(name);
    s.append("\"");
    s.append(after);
    assert(s@ =~= note(before@, path@, after@));
    s
}

/// Appends the notes on the flagged paths.
fn push_notes(out: &mut Vec<String>, paths: &Vec<String>, flagged: &Vec<bool>, m: (&str, &str))
    requires
        flagged@.len() == paths@.len(),
    ensures
        texts(final(out)@) == texts(old(out)@) + all_notes(texts(paths@), flagged@, m),
{
    let ghost start = texts(out@);
    let mut i: usize = 0;
    while i < paths.len()
        invariant
            flagged@.len() == paths@.len(),
            i <= paths@.len(),
            texts(out@) == start + notes(texts(paths@), flagged@, m.0@, m.1@, i as int),
        decreases paths@.len() - i,
    {
        if flagged[i] {
            let s = make_note(m.0, &paths[i], m.1);
            proof {
                lemma_texts_push(out@, s);
                assert(texts(paths@)[i as int] == paths@[i as int]@);
            }
            out.push(s);
        }
        proof {
            let a = notes(texts(paths@), flagged@, m.0@, m.1@, i as int);
            let b = notes(texts(paths@), flagged@, m.0@, m.1@, i + 1);
            if flagged@[i as int] {
                assert(start + b =~= (start + a).push(note(m.0@, texts(paths@)[i as int], m.1@)));
            } else {
                assert(b =~= a);
            }
        }
        i = i + 1;
    }
}

fn name_has_numeric(path: &String) -> (r: bool)
    ensures
        r == has_numeric(file_name_of(path@)),
{
    let cs = chars_of(path.as_str());
    let start = name_start(&cs);
    let ghost name = file_name_of(cs@);
    let mut i: usize = start;
    while i < cs.len()
        invariant
            start <= i <= cs@.len(),
            cs@ == path@,
            name == file_name_of(cs@),
            name == cs@.subrange(start as int, cs@.len() as int),
            forall|k: int| 0 <= k < i - start ==> !numeric_char(#[trigger] name[k]),
        decreases cs@.len() - i,
    {
        if is_numeric(cs[i]) {
            assert(name[i - start] == cs@[i as int]);
            assert(numeric_char(name[i - start]));
            return true;
        }
        i = i + 1;
    }
    false
}

fn name_has_volume_chapter(path: &String) -> (r: bool)
    ensures
        r == has_volume_chapter(file_name_of(path@)),
{
    let cs = chars_of(path.as_str());
    let start = name_start(&cs);
    let ghost name = file_name_of(cs@);
    let n = cs.len();
    if n - start < 3 {
        return false;
    }
    let mut k: usize = start + 1;
    while k + 1 < n
        invariant
            start + 1 <= k <= n - 1,
            n == cs@.len(),
            cs@ == path@,
            name == file_name_of(cs@),
            name == cs@.subrange(start as int, n as int),
            forall|j: int|
                1 <= j < k - start ==> !(is_digit(name[j - 1]) && #[trigger] name[j] == '-' && is_digit(
                    name[j + 1],
                )),
        decreases n - k,
    {
        assert(name[k - start] == cs@[k as int]);
        assert(name[k - start - 1] == cs@[k - 1]);
        assert(name[k - start + 1] == cs@[k + 1]);
        if is_ascii_digit(cs[k - 1]) && cs[k] == '-' && is_ascii_digit(cs[k + 1]) {
            assert(name[k - start] == '-');
            return true;
        }
        k = k + 1;
    }
    false
}

fn stem_is_numbered(path: &String) -> (r: bool)
    ensures
        r == numbered_stem(stem_of(file_name_of(path@))),
{
    let cs = chars_of(path.as_str());
    let name = crate::text::file_name(&cs);
    let st = crate::text::stem(&name);
    let mut i: usize = 0;
    while i < st.len()
        invariant
            i <= st@.len(),
            st@ == stem_of(file_name_of(path@)),
            forall|k: int| 0 <= k < i ==> #[trigger] st@[k] == '.' || numeric_char(st@[k]),
        decreases st@.len() - i,
    {
        if st[i] != '.' && !is_numeric(st[i]) {
            assert(!(st@[i as int] == '.' || numeric_char(st@[i as int])));
            return false;
        }
        i = i + 1;
    }
    true
}

fn flags_of_dirs(chapters: &Vec<String>, numeric: bool) -> (r: Vec<bool>)
    ensures
        numeric ==> r@ == unnumbered_dirs(texts(chapters@)),
        !numeric ==> r@ == unconventional_dirs(texts(chapters@)),
{
    let mut r: Vec<bool> = Vec::new();
    let mut i: usize = 0;
    while i < chapters.len()
        invariant
            i <= chapters@.len(),
            r@.len() == i,
            numeric ==> forall|k: int| 0 <= k < i ==> r@[k] == unnumbered_dirs(texts(chapters@))[k],
            !numeric ==> forall|k: int|
                0 <= k < i ==> r@[k] == unconventional_dirs(texts(chapters@))[k],
        decreases chapters@.len() - i,
    {
        let f = if numeric {
            !name_has_numeric(&chapters[i])
        } else {
            !name_has_volume_chapter(&chapters[i])
        };
        r.push(f);
        i = i + 1;
    }
    proof {
        if numeric {
            assert(r@ =~= unnumbered_dirs(texts(chapters@)));
        } else {
            assert(r@ =~= unconventional_dirs(texts(chapters@)));
        }
    }
    r
}

fn flags_of_files(pages: &Vec<String>) -> (r: Vec<bool>)
    ensures
        r@ == unnumbered_files(texts(pages@)),
{
    let mut r: Vec<bool> = Vec::new();
    let mut i: usize = 0;
    while i < pages.len()
        invariant
            i <= pages@.len(),
            r@.len() == i,
            forall|k: int| 0 <= k < i ==> r@[k] == unnumbered_files(texts(pages@))[k],
        decreases pages@.len() - i,
    {
        r.push(!stem_is_numbered(&pages[i]));
        i = i + 1;
    }
    assert(r@ =~= unnumbered_files(texts(pages@)));
    r
}

fn negate(w: &Vec<bool>) -> (r: Vec<bool>)
    ensures
        r@ == negated(w@),
{
    let mut r: Vec<bool> = Vec::new();
    let mut i: usize = 0;
    while i < w.len()
        invariant
            i <= w@.len(),
            r@.len() == i,
            forall|k: int| 0 <= k < i ==> r@[k] == !w@[k],
        decreases w@.len() - i,
    {
        r.push(!w[i]);
        i = i + 1;
    }
    assert(r@ =~= negated(w@));
    r
}

fn any_set(f: &Vec<bool>) -> (r: bool)
    ensures
        r == any(f@),
{
    let mut i: usize = 0;
    while i < f.len()
        invariant
            i <= f@.len(),
            forall|k: int| 0 <= k < i ==> !f@[k],
        decreases f@.len() - i,
    {
        if f[i] {
            return true;
        }
        i = i + 1;
    }
    false
}

fn one(s: &str) -> (r: Vec<String>)
    ensures
        texts(r@) == seq![s@],
{
    let mut v: Vec<String> = Vec::new();
    v.push(String::from_str(s));
    assert(texts(v@) =~= seq![s@]);
    v
}

/// Examines the chapters (in discovery order) and all their pages, with
/// whether each is writable, and reports what stands in the way of bundling
/// and which mode suits the tree: the naming convention when every chapter is
/// numbered and follows it, the cover heuristic otherwise.
pub fn analyze(
    chapters: &Vec<String>,
    pages: &Vec<String>,
    chapter_writable: &Vec<bool>,
    page_writable: &Vec<bool>,
) -> (r: CommandAnalyze)
    requires
        chapter_writable@.len() == chapters@.len(),
        page_writable@.len() == pages@.len(),
    ensures
        is_analysis(texts(chapters@), texts(pages@), chapter_writable@, page_writable@, r),
{
    if chapters.len() == 0 {
        return CommandAnalyze {
            message: None,
            negative: one(NO_CHAPTERS),
            positive: Vec::new(),
            suggest: Vec::new(),
            flag: BundleFlag::IMAGE,
        };
    }
    if pages.len() == 0 {
        return CommandAnalyze {
            message: None,
            negative: one(NO_PAGES),
            positive: Vec::new(),
            suggest: Vec::new(),
            flag: BundleFlag::IMAGE,
        };
    }
    let unnumbered = flags_of_dirs(chapters, true);
    let unconventional = flags_of_dirs(chapters, false);
    let mut negative: Vec<String> = Vec::new();
    assert(texts(negative@) =~= Seq::<Seq<char>>::empty());
    push_notes(&mut negative, chapters, &unnumbered, DIR_NOT_NUMBERED);
    push_notes(&mut negative, chapters, &negate(chapter_writable), DIR_NOT_WRITABLE);
    push_notes(&mut negative, pages, &negate(page_writable), FILE_NOT_WRITABLE);
    push_notes(&mut negative, pages, &flags_of_files(pages), FILE_NOT_NUMBERED);
    let lacks_number = any_set(&unnumbered);
    let lacks_naming = any_set(&unconventional);
    let suggest = if lacks_naming {
        one(NAMING_HINT)
    } else {
        Vec::new()
    };
    let plain = lacks_number || lacks_naming;
    let positive = if plain {
        one(FALLBACK_PATH)
    } else {
        one(FAST_PATH)
    };
    proof {
        if !lacks_naming {
            assert(texts(suggest@) =~= Seq::<Seq<char>>::empty());
        }
        assert(Seq::<Seq<char>>::empty() + all_notes(texts(chapters@), unnumbered_dirs(texts(chapters@)), DIR_NOT_NUMBERED)
            =~= all_notes(texts(chapters@), unnumbered_dirs(texts(chapters@)), DIR_NOT_NUMBERED));
    }
    CommandAnalyze {
        message: None,
        negative,
        positive,
        suggest,
        flag: if plain {
            BundleFlag::IMAGE
        } else {
            BundleFlag::NAME
        },
    }
}

} // verus!
