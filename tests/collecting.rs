use palaxy::collector::Collector;
use palaxy::entries::DirEntry;
use palaxy::error::{Error, Expectation};
use palaxy::sorting::SortStrategy;

fn entry(dir: &str, name: &str, is_dir: bool) -> DirEntry {
    DirEntry { path: format!("{}/{}", dir, name), name: name.to_string(), is_dir }
}

#[test]
fn round_trip_three_chapters_of_five_pages() {
    let root = "/lib/series";
    let c = Collector::new(&root.to_string());
    let listing = vec![entry(root, "3", true), entry(root, "1", true), entry(root, ".cache", false), entry(root, "2", true)];
    let chapters = c.collect_chapters(&listing, Some(SortStrategy::NumericStem)).unwrap();
    assert_eq!(chapters, vec!["/lib/series/1", "/lib/series/2", "/lib/series/3"]);
    let listings: Vec<Vec<DirEntry>> = chapters
        .iter()
        .map(|ch| {
            [5, 3, 1, 4, 2]
                .iter()
                .map(|n| entry(ch, &format!("{}.jpg", n), false))
                .collect()
        })
        .collect();
    let pages = c.collect_pages(&listings, Some(SortStrategy::NumericStem)).unwrap();
    assert_eq!(pages.len(), 3);
    for (i, chapter_pages) in pages.iter().enumerate() {
        assert_eq!(chapter_pages.len(), 5);
        let expected: Vec<String> = (1..=5).map(|n| format!("{}/{}.jpg", chapters[i], n)).collect();
        assert_eq!(chapter_pages, &expected);
    }
}

#[test]
fn dirs_only_rejects_a_plain_file() {
    let listing = vec![entry("/lib", "notes.txt", false)];
    match Collector::collect(&listing, Expectation::DirsOnly) {
        Err(Error::InvalidEntry(path, expected)) => {
            assert_eq!(path, "/lib/notes.txt");
            assert_eq!(expected, Expectation::DirsOnly);
        }
        other => panic!("expected InvalidEntry, got {:?}", other),
    }
}

#[test]
fn files_only_rejects_a_directory_and_hidden_entries_are_skipped() {
    let listing = vec![entry("/c", ".DS_Store", true), entry("/c", "1.png", false), entry("/c", "sub", true)];
    match Collector::collect(&listing, Expectation::FilesOnly) {
        Err(Error::InvalidEntry(path, Expectation::FilesOnly)) => assert_eq!(path, "/c/sub"),
        other => panic!("expected InvalidEntry, got {:?}", other),
    }
    let visible = vec![entry("/c", ".DS_Store", true), entry("/c", "1.png", false)];
    let ok = Collector::collect(&visible, Expectation::FilesOnly).unwrap();
    assert_eq!(ok, vec!["/c/1.png"]);
}

#[test]
fn any_type_keeps_discovery_order() {
    let listing = vec![entry("/c", "b", true), entry("/c", "a.png", false), entry("/c", ".x", false)];
    let got = Collector::collect(&listing, Expectation::AnyType).unwrap();
    assert_eq!(got, vec!["/c/b", "/c/a.png"]);
}

#[test]
fn chapters_without_strategy_keep_discovery_order() {
    let c = Collector::new(&"/r".to_string());
    let listing = vec![entry("/r", "10", true), entry("/r", "2", true)];
    assert_eq!(c.collect_chapters(&listing, None).unwrap(), vec!["/r/10", "/r/2"]);
}

#[test]
fn one_failing_chapter_fails_page_collection() {
    let c = Collector::new(&"/r".to_string());
    let listings = vec![vec![entry("/r/1", "1.jpg", false)], vec![entry("/r/2", "inner", true)]];
    match c.collect_pages(&listings, None) {
        Err(Error::InvalidEntry(p, Expectation::FilesOnly)) => assert_eq!(p, "/r/2/inner"),
        other => panic!("expected InvalidEntry, got {:?}", other),
    }
}
