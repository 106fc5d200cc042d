use palaxy::analysis::analyze;
use palaxy::error::Error;
use palaxy::collector::Collector;
use palaxy::media::{
    comic_info_xml, epub_cover_name, epub_image_name, epub_page_name, generate_xhtml, get_file_info,
    page_entry_name,
};
use palaxy::sorting::SortStrategy;
use palaxy::state::{
    bundle, chapter_order, get_data, reset, sensitivity_of, set_bundle_flag, set_data, set_source,
    set_volume_sizes, AppState, BundleFlag,
};

fn strings(v: &[&str]) -> Vec<String> {
    v.iter().map(|s| s.to_string()).collect()
}

#[test]
fn reset_clears_all_but_the_title() {
    let mut state = AppState::default();
    set_source("/home/me/One Piece".to_string(), &mut state);
    set_bundle_flag(BundleFlag::IMAGE, &mut state);
    set_volume_sizes(vec![1, 2], &mut state);
    set_data(vec![strings(&["a"])], &mut state);
    state.reset();
    assert_eq!(state.name, "One Piece");
    assert_eq!(state.source, "");
    assert_eq!(state.bundle_flag, BundleFlag::MANUAL);
    assert!(state.volume_sizes.is_empty());
    assert!(state.data.is_empty());
}

#[test]
fn source_title_comes_from_last_component() {
    let mut state = AppState::default();
    set_source("/data/Berserk/".to_string(), &mut state);
    assert_eq!(state.name, "Berserk");
    set_source("/".to_string(), &mut state);
    assert_eq!(state.name, "Palaxy-Converted");
    set_source("/data/..".to_string(), &mut state);
    assert_eq!(state.name, "Palaxy-Converted");
    set_source("Vinland".to_string(), &mut state);
    assert_eq!(state.name, "Vinland");
    assert_eq!(state.source, "Vinland");
}

#[test]
fn get_data_copies_pages() {
    let mut state = AppState::default();
    set_data(vec![strings(&["a", "b"]), strings(&["c"])], &mut state);
    let got = get_data(&state);
    assert!(got.message.is_none());
    assert_eq!(got.data, vec![strings(&["a", "b"]), strings(&["c"])]);
}

#[test]
fn bundle_records_plan_and_pages() {
    let mut state = AppState::default();
    let r = bundle(&mut state, vec![strings(&["a"]), strings(&["b"]), strings(&["c"])], vec![1, 2]);
    assert_eq!(r.total_chapters, 3);
    assert_eq!(r.total_volumes, Some(2));
    assert_eq!(r.chapter_sizes, Some(vec![1, 2]));
    assert_eq!(state.volume_sizes, vec![1, 2]);
    assert_eq!(state.data.len(), 3);
    let manual = bundle(&mut state, vec![strings(&["a"])], vec![]);
    assert_eq!(manual.total_volumes, None);
    assert_eq!(manual.chapter_sizes, None);
}

#[test]
fn chapter_order_by_mode() {
    assert_eq!(chapter_order(BundleFlag::IMAGE), Some(SortStrategy::TrailingNumber));
    assert_eq!(chapter_order(BundleFlag::NAME), Some(SortStrategy::VolumeChapterDual));
    assert_eq!(chapter_order(BundleFlag::MANUAL), None);
}

#[test]
fn sensitivity_defaults_and_bounds() {
    assert_eq!(sensitivity_of(None).unwrap(), 75);
    assert_eq!(sensitivity_of(Some(40)).unwrap(), 40);
    assert_eq!(sensitivity_of(Some(100)).unwrap(), 100);
    assert!(matches!(sensitivity_of(Some(0)), Err(Error::ParseFailure(_))));
    assert!(matches!(sensitivity_of(Some(101)), Err(Error::ParseFailure(_))));
}

#[test]
fn file_info_by_extension() {
    assert_eq!(get_file_info(&"/a/1.jpg".to_string()).unwrap(), ("jpg", "image/jpeg"));
    assert_eq!(get_file_info(&"/a/1.jpeg".to_string()).unwrap(), ("jpg", "image/jpeg"));
    assert_eq!(get_file_info(&"/a/1.png".to_string()).unwrap(), ("png", "image/png"));
    assert_eq!(get_file_info(&"/a.b/1.webp".to_string()).unwrap(), ("webp", "image/webp"));
    assert!(matches!(get_file_info(&"/a/1.gif".to_string()), Err(Error::UnsupportedFormat(_))));
    assert!(matches!(get_file_info(&"/a.png/noext".to_string()), Err(Error::UnsupportedFormat(_))));
    assert!(matches!(get_file_info(&"/a/.png".to_string()), Err(Error::UnsupportedFormat(_))));
}

#[test]
fn xhtml_page_embeds_source() {
    let x = generate_xhtml("images/3/1.png").unwrap();
    assert!(x.starts_with("<?xml"));
    assert_eq!(x.matches("images/3/1.png").count(), 3);
    assert!(x.contains("<img src=\"images/3/1.png\" alt=\"images/3/1.png\"/>"));
    assert!(x.contains("<title>images/3/1.png</title>"));
}

#[test]
fn comic_info_lists_title_volume_pages() {
    let x = comic_info_xml("S | 2", 2, 148);
    assert!(x.contains("<Title>S | 2</Title>"));
    assert!(x.contains("<Volume>2</Volume>"));
    assert!(x.contains("<PageCount>148</PageCount>"));
}

#[test]
fn page_entries_are_zero_padded() {
    assert_eq!(page_entry_name(1, "jpg"), "page_001.jpg");
    assert_eq!(page_entry_name(42, "png"), "page_042.png");
    assert_eq!(page_entry_name(1234, "webp"), "page_1234.webp");
}

#[test]
fn analysis_of_empty_tree() {
    let r = analyze(&vec![], &vec![], &vec![], &vec![]);
    assert_eq!(r.negative.len(), 1);
    assert!(r.negative[0].starts_with("No subdirectories"));
    assert_eq!(r.flag, BundleFlag::IMAGE);
    let r = analyze(&strings(&["/r/1"]), &vec![], &vec![true], &vec![]);
    assert!(r.negative[0].starts_with("Subdirectories contain no files"));
}

#[test]
fn analysis_of_conventional_tree() {
    let chapters = strings(&["/r/001-001", "/r/001-002"]);
    let pages = strings(&["/r/001-001/1.jpg", "/r/001-002/2.5.jpg"]);
    let r = analyze(&chapters, &pages, &vec![true, true], &vec![true, true]);
    assert!(r.negative.is_empty());
    assert!(r.suggest.is_empty());
    assert_eq!(r.positive.len(), 1);
    assert!(r.positive[0].starts_with("Directories correctly named"));
    assert_eq!(r.flag, BundleFlag::NAME);
}

#[test]
fn analysis_reports_each_problem() {
    let chapters = strings(&["/r/Prologue", "/r/Chapter 2"]);
    let pages = strings(&["/r/Prologue/cover.jpg", "/r/Chapter 2/1.jpg"]);
    let r = analyze(&chapters, &pages, &vec![true, false], &vec![false, true]);
    assert_eq!(
        r.negative,
        vec![
            "Directory \"Prologue\" lacks numerical identifiers. Remove them for faster bundling.",
            "Directory \"Chapter 2\" lacks write permissions. Required for full functionality.",
            "File \"cover.jpg\" lacks write permissions. Required for full functionality.",
            "File \"cover.jpg\" lacks numerical naming. Required for effective sorting and bundling.",
        ]
    );
    assert_eq!(r.suggest.len(), 1);
    assert!(r.positive[0].starts_with("Automatic bundling will use fallback"));
    assert_eq!(r.flag, BundleFlag::IMAGE);
}

#[test]
fn epub_entry_names() {
    assert_eq!(epub_image_name(12, 3, "png"), "images/12/3.png");
    assert_eq!(epub_page_name(12, 3), "12-3.xhtml");
    assert_eq!(epub_cover_name("jpg"), "data/cover.jpg");
}

#[test]
fn check_path_keeps_failures_in_order() {
    let paths = strings(&["/r/a1", "/r/b", "/r/c2", "/r/d"]);
    let failing = Collector::check_path(&paths, |p: &String| p.chars().any(|c| c.is_ascii_digit())).unwrap();
    assert_eq!(failing, strings(&["/r/b", "/r/d"]));
}

#[test]
fn reset_command_reports_nothing() {
    let mut state = AppState::default();
    set_source("/x/Title".to_string(), &mut state);
    set_volume_sizes(vec![4], &mut state);
    let r = reset(&mut state);
    assert!(r.message.is_none());
    assert!(state.volume_sizes.is_empty());
    assert_eq!(state.name, "Title");
}
