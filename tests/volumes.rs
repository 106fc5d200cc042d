use palaxy::collector::Collector;
use palaxy::error::Error;
use palaxy::naming::volume_number_of;
use palaxy::orchestrate::{decimal_string, plan_volumes, volume_name};
use palaxy::state::BundleFlag;

fn collector() -> Collector {
    Collector::new(&String::from("/library/series"))
}

fn strings(v: &[&str]) -> Vec<String> {
    v.iter().map(|s| s.to_string()).collect()
}

#[test]
fn sizes_from_boundaries_end_to_end() {
    let c = collector();
    let chapters = strings(&["001", "002", "003", "004"]);
    let verdicts: Vec<Result<bool, Error>> = vec![Ok(true), Ok(false), Ok(true), Ok(false)];
    let starts = c.determine_volume_start_chapters(verdicts).unwrap();
    assert_eq!(starts, vec![0, 2]);
    let sizes = c.calculate_volume_sizes(starts, chapters.len()).unwrap();
    assert_eq!(sizes, vec![2, 2]);
}

#[test]
fn sizes_sum_to_total() {
    let c = collector();
    let sizes = c.calculate_volume_sizes(vec![0, 3, 4, 9], 12).unwrap();
    assert_eq!(sizes, vec![3, 1, 5, 3]);
    assert_eq!(sizes.iter().sum::<usize>(), 12);
}

#[test]
fn single_boundary_is_one_volume() {
    let c = collector();
    assert_eq!(c.calculate_volume_sizes(vec![0], 7).unwrap(), vec![7]);
}

#[test]
fn first_boundary_is_dropped_whatever_it_is() {
    let c = collector();
    assert_eq!(c.calculate_volume_sizes(vec![5, 2], 6).unwrap(), vec![2, 4]);
}

#[test]
fn empty_boundaries_fail_with_empty_input() {
    let c = collector();
    for total in [0usize, 1, 10] {
        match c.calculate_volume_sizes(vec![], total) {
            Err(Error::EmptyInput(_)) => {}
            other => panic!("expected EmptyInput, got {:?}", other),
        }
    }
}

#[test]
fn chapter_zero_always_starts_a_volume() {
    let c = collector();
    let starts = c
        .determine_volume_start_chapters(vec![Ok(false), Ok(true), Ok(true)])
        .unwrap();
    assert_eq!(starts, vec![0, 1, 2]);
    assert_eq!(c.determine_volume_start_chapters(vec![]).unwrap(), Vec::<usize>::new());
}

#[test]
fn failed_first_cover_fails_detection() {
    let c = collector();
    let verdicts = vec![Err(Error::ImageFailure("first".to_string())), Ok(true)];
    match c.determine_volume_start_chapters(verdicts) {
        Err(Error::ImageFailure(m)) => assert_eq!(m, "first"),
        other => panic!("expected the first chapter's failure, got {:?}", other),
    }
}

#[test]
fn plan_sizes_by_mode() {
    let c = collector();
    assert_eq!(c.plan_sizes(BundleFlag::NAME, vec![2, 3], vec![9], vec![]).unwrap(), vec![2, 3]);
    assert_eq!(c.plan_sizes(BundleFlag::MANUAL, vec![2, 3], vec![9], vec![]).unwrap(), vec![9]);
    let verdicts = vec![Ok(false), Ok(false), Ok(true), Ok(false), Ok(false)];
    assert_eq!(c.plan_sizes(BundleFlag::IMAGE, vec![], vec![], verdicts).unwrap(), vec![2, 3]);
    assert!(matches!(c.plan_sizes(BundleFlag::IMAGE, vec![], vec![], vec![]), Err(Error::EmptyInput(_))));
    let failing = vec![Ok(true), Err(Error::ImageFailure("x".to_string()))];
    assert!(matches!(c.plan_sizes(BundleFlag::IMAGE, vec![], vec![], failing), Err(Error::ImageFailure(_))));
}

#[test]
fn failed_classification_fails_detection() {
    let c = collector();
    let verdicts = vec![
        Ok(true),
        Ok(false),
        Err(Error::ImageFailure("second".to_string())),
        Err(Error::ImageFailure("third".to_string())),
    ];
    match c.determine_volume_start_chapters(verdicts) {
        Err(Error::ImageFailure(m)) => assert_eq!(m, "second"),
        other => panic!("expected the first failure, got {:?}", other),
    }
}

#[test]
fn name_plan_groups_runs_and_moves_extras_last() {
    let chapters = strings(&[
        "/s/000-001",
        "/s/001-001",
        "/s/001-002",
        "/s/002-003",
        "/s/002-004",
        "/s/002-005",
        "/s/extra",
    ]);
    let plan = Collector::plan_by_name(&chapters);
    assert_eq!(
        plan.chapters,
        strings(&[
            "/s/001-001",
            "/s/001-002",
            "/s/002-003",
            "/s/002-004",
            "/s/002-005",
            "/s/000-001",
            "/s/extra",
        ])
    );
    assert_eq!(plan.sizes, vec![2, 3, 2]);
}

#[test]
fn name_plan_without_extras() {
    let chapters = strings(&["/s/1-1", "/s/1-2", "/s/2-3", "/s/3-4"]);
    let plan = Collector::plan_by_name(&chapters);
    assert_eq!(plan.sizes, vec![2, 1, 1]);
    assert_eq!(plan.chapters, chapters);
}

#[test]
fn name_plan_of_nothing_is_empty() {
    let plan = Collector::plan_by_name(&Vec::new());
    assert!(plan.chapters.is_empty());
    assert!(plan.sizes.is_empty());
}

#[test]
fn volume_number_reads_the_prefix() {
    assert_eq!(volume_number_of(&"/a/012-004.5".to_string()), 12);
    assert_eq!(volume_number_of(&"/a/+7-1".to_string()), 7);
    assert_eq!(volume_number_of(&"/a/x-1".to_string()), 0);
    assert_eq!(volume_number_of(&"/a/003".to_string()), 3);
}

#[test]
fn jobs_follow_prefix_sums() {
    let pages = vec![
        strings(&["a1", "a2"]),
        strings(&["b1"]),
        strings(&["c1", "c2", "c3"]),
        strings(&["d1"]),
    ];
    let jobs = plan_volumes(&"Series".to_string(), &pages, &vec![1, 3]).unwrap();
    assert_eq!(jobs.len(), 2);
    assert_eq!(jobs[0].ordinal, 1);
    assert_eq!(jobs[0].name, "Series | 1");
    assert_eq!(jobs[0].first_chapter, 0);
    assert_eq!(jobs[0].chapters, vec![strings(&["a1", "a2"])]);
    assert_eq!(jobs[1].ordinal, 2);
    assert_eq!(jobs[1].name, "Series | 2");
    assert_eq!(jobs[1].first_chapter, 1);
    assert_eq!(jobs[1].chapter_count, 3);
    assert_eq!(jobs[1].chapters, vec![strings(&["b1"]), strings(&["c1", "c2", "c3"]), strings(&["d1"])]);
}

#[test]
fn plan_not_covering_chapters_is_refused() {
    let pages = vec![strings(&["a"]), strings(&["b"])];
    assert!(matches!(plan_volumes(&"T".to_string(), &pages, &vec![1]), Err(Error::InvalidPlan(_))));
    assert!(matches!(plan_volumes(&"T".to_string(), &pages, &vec![2, 1]), Err(Error::InvalidPlan(_))));
}

#[test]
fn volume_names_and_decimals() {
    assert_eq!(decimal_string(0), "0");
    assert_eq!(decimal_string(1234567), "1234567");
    assert_eq!(volume_name(&"My Manga".to_string(), 12), "My Manga | 12");
}
