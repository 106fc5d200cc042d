use std::cmp::Ordering;

use palaxy::collector::Collector;
use palaxy::sorting::{compare_paths, sort_paths, SortStrategy};

fn strings(v: &[&str]) -> Vec<String> {
    v.iter().map(|s| s.to_string()).collect()
}

#[test]
fn volume_chapter_dual_orders_pairs() {
    let a = "001-010.jpg".to_string();
    let b = "001-011.jpg".to_string();
    let c = "002-001.jpg".to_string();
    assert_eq!(Collector::sort_by_name_volume_chapter(&a, &b), Ordering::Less);
    assert_eq!(Collector::sort_by_name_volume_chapter(&b, &c), Ordering::Less);
    assert_eq!(Collector::sort_by_name_volume_chapter(&a, &c), Ordering::Less);
    let mut v = strings(&["002-001.jpg", "001-011.jpg", "001-010.jpg"]);
    sort_paths(&mut v, SortStrategy::VolumeChapterDual);
    assert_eq!(v, strings(&["001-010.jpg", "001-011.jpg", "002-001.jpg"]));
}

#[test]
fn volume_chapter_dual_reads_decimal_chapters() {
    let a = "/x/002-032".to_string();
    let b = "/x/002-032.5".to_string();
    let c = "/x/2-33".to_string();
    assert_eq!(Collector::sort_by_name_volume_chapter(&a, &b), Ordering::Less);
    assert_eq!(Collector::sort_by_name_volume_chapter(&b, &c), Ordering::Less);
    assert_eq!(Collector::sort_by_name_volume_chapter(&"/x/01-5".to_string(), &"/x/1-5.0".to_string()), Ordering::Equal);
}

#[test]
fn numeric_stem_orders_by_value() {
    let two = "/p/2.png".to_string();
    let ten = "/p/10.png".to_string();
    let ten_padded = "/p/010.jpg".to_string();
    let cover = "/p/cover.jpg".to_string();
    assert_eq!(Collector::sort_by_stem_number(&two, &ten), Ordering::Less);
    assert_eq!(Collector::sort_by_stem_number(&ten, &two), Ordering::Greater);
    assert_eq!(Collector::sort_by_stem_number(&ten, &ten_padded), Ordering::Equal);
    assert_eq!(Collector::sort_by_stem_number(&ten, &cover), Ordering::Less);
    assert_eq!(Collector::sort_by_stem_number(&cover, &"/p/back.jpg".to_string()), Ordering::Equal);
}

#[test]
fn numeric_stem_sort_is_stable_for_unparsed_stems() {
    let mut v = strings(&["/p/z.jpg", "/p/10.jpg", "/p/a.jpg", "/p/9.jpg", "/p/m.jpg", "/p/1.jpg"]);
    sort_paths(&mut v, SortStrategy::NumericStem);
    assert_eq!(v, strings(&["/p/1.jpg", "/p/9.jpg", "/p/10.jpg", "/p/z.jpg", "/p/a.jpg", "/p/m.jpg"]));
}

#[test]
fn numeric_stem_overflow_does_not_parse() {
    let huge = "/p/99999999999999999999999.jpg".to_string();
    let small = "/p/3.jpg".to_string();
    assert_eq!(Collector::sort_by_stem_number(&small, &huge), Ordering::Less);
}

#[test]
fn trailing_number_uses_last_number() {
    let a = "Chapter 10.5.jpg".to_string();
    let b = "Chapter 10.25.jpg".to_string();
    let c = "Vol 2 Chapter 9".to_string();
    let none = "Extras".to_string();
    assert_eq!(Collector::sort_name_by_number(&b, &a), Ordering::Less);
    assert_eq!(Collector::sort_name_by_number(&c, &b), Ordering::Less);
    assert_eq!(Collector::sort_name_by_number(&a, &none), Ordering::Less);
    assert_eq!(Collector::sort_name_by_number(&"ch 007".to_string(), &"ch 7.0".to_string()), Ordering::Equal);
    assert_eq!(Collector::sort_name_by_number(&"0".to_string(), &"ch 0.5".to_string()), Ordering::Less);
}

#[test]
fn trailing_number_sorts_chapters() {
    let mut v = strings(&["/m/Chapter 10", "/m/Chapter 2", "/m/Bonus", "/m/Chapter 2.5", "/m/Chapter 1"]);
    sort_paths(&mut v, SortStrategy::TrailingNumber);
    assert_eq!(v, strings(&["/m/Chapter 1", "/m/Chapter 2", "/m/Chapter 2.5", "/m/Chapter 10", "/m/Bonus"]));
}

#[test]
fn strategies_dispatch() {
    let a = "/d/3-1".to_string();
    let b = "/d/2-9".to_string();
    assert_eq!(compare_paths(SortStrategy::VolumeChapterDual, &a, &b), Ordering::Greater);
    assert_eq!(compare_paths(SortStrategy::TrailingNumber, &a, &b), Ordering::Less);
    assert_eq!(compare_paths(SortStrategy::NumericStem, &a, &b), Ordering::Equal);
}
