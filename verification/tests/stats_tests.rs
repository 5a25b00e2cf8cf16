use happ::cc_stats::CCFunction;
use happ::cc_stats::CCStats;
use happ::large_dir::DirStat;
use happ::large_dir::DirStats;
use happ::loc_file_stats::LocFile;
use happ::loc_file_stats::LocFileStats;
use happ::loc_func_stats::LocFunction;
use happ::loc_func_stats::LocStats;

fn seeded() -> CCStats {
    // Scores [3, 1, 4, 1, 5] under names a..e, in that insertion order.
    let mut stats = CCStats::new();
    stats.add_func(CCFunction::new(String::from("a"), String::from("f.rs"), 3));
    stats.add_func(CCFunction::new(String::from("b"), String::from("f.rs"), 1));
    stats.add_func(CCFunction::new(String::from("c"), String::from("f.rs"), 4));
    stats.add_func(CCFunction::new(String::from("d"), String::from("f.rs"), 1));
    stats.add_func(CCFunction::new(String::from("e"), String::from("f.rs"), 5));
    stats
}

#[test]
fn seeded_topk_two_gives_highest_scores() {
    let mut stats = seeded();
    let top = stats.topk(2);
    assert_eq!(top.len(), 2);
    assert_eq!(top[0].cc(), 5);
    assert_eq!(top[1].cc(), 4);
}

#[test]
fn seeded_mean_is_exact() {
    let stats = seeded();
    let mean = (stats.score_total() as f64) / (stats.len() as f64);
    assert_eq!(mean, 2.8);
}

#[test]
fn seeded_max_and_min() {
    let mut stats = seeded();
    assert_eq!(stats.max().unwrap().cc(), 5);
    // Both records of score 1 tie for the minimum; the stable sort keeps
    // insertion order among ties, so the later-inserted one sits last.
    let min = stats.min().unwrap();
    assert_eq!(min.cc(), 1);
    assert_eq!(min.name(), "d");
}

#[test]
fn topk_beyond_len_returns_all_in_order() {
    let mut stats = seeded();
    let top = stats.topk(100);
    assert_eq!(top.len(), 5);
    let scores: Vec<usize> = top.iter().map(|f| f.cc()).collect();
    assert_eq!(scores, vec![5, 4, 3, 1, 1]);
    // Among the tied records, insertion order is kept.
    assert_eq!(top[3].name(), "b");
    assert_eq!(top[4].name(), "d");
}

#[test]
fn mean_over_identical_scores_is_that_score() {
    let mut stats = LocStats::new();
    for name in ["x", "y", "z"] {
        stats.add_func(LocFunction::new(String::from(name), String::from("g.rs"), 7));
    }
    let mean = (stats.score_total() as f64) / (stats.len() as f64);
    assert_eq!(mean, 7.0);
    assert_eq!(stats.max().unwrap().loc(), 7);
    assert_eq!(stats.min().unwrap().loc(), 7);
}

#[test]
fn empty_stats_have_no_max_or_min() {
    let mut stats = CCStats::new();
    assert!(stats.max().is_none());
    assert!(stats.min().is_none());
    assert_eq!(stats.topk(5).len(), 0);
    assert_eq!(stats.len(), 0);
    assert_eq!(stats.score_total(), 0);
}

#[test]
fn add_funcs_appends_in_order() {
    let mut stats = LocStats::new();
    stats.add_func(LocFunction::new(String::from("one"), String::from("h.rs"), 10));
    stats.add_funcs(vec![
        LocFunction::new(String::from("two"), String::from("h.rs"), 30),
        LocFunction::new(String::from("three"), String::from("h.rs"), 20),
    ]);
    assert_eq!(stats.len(), 3);
    let top = stats.topk(3);
    assert_eq!(top[0].name(), "two");
    assert_eq!(top[1].name(), "three");
    assert_eq!(top[2].name(), "one");
}

#[test]
fn sort_is_idempotent() {
    let mut stats = seeded();
    stats.sort();
    let first: Vec<usize> = stats.topk(5).iter().map(|f| f.cc()).collect();
    stats.sort();
    let second: Vec<usize> = stats.topk(5).iter().map(|f| f.cc()).collect();
    assert_eq!(first, second);
}

#[test]
fn file_stats_rank_files() {
    let mut stats = LocFileStats::new();
    stats.add_file(LocFile::new(String::from("a.rs"), 100));
    stats.add_files(vec![
        LocFile::new(String::from("b.rs"), 300),
        LocFile::new(String::from("c.rs"), 200),
    ]);
    assert_eq!(stats.max().unwrap().name(), "b.rs");
    assert_eq!(stats.min().unwrap().name(), "a.rs");
    assert_eq!(stats.topk(1)[0].loc(), 300);
    let mean = (stats.score_total() as f64) / (stats.len() as f64);
    assert_eq!(mean, 200.0);
}

#[test]
fn dir_stats_rank_directories() {
    let mut stats = DirStats::new();
    stats.add_dir(DirStat::new(String::from("src"), 12));
    stats.add_dirs(vec![
        DirStat::new(String::from("tests"), 4),
        DirStat::new(String::from("docs"), 25),
    ]);
    assert_eq!(stats.max().unwrap().name(), "docs");
    assert_eq!(stats.max().unwrap().file_num(), 25);
    assert_eq!(stats.min().unwrap().name(), "tests");
    let top = stats.topk(2);
    assert_eq!(top[0].file_num(), 25);
    assert_eq!(top[1].file_num(), 12);
}

#[test]
fn record_accessors_return_what_was_stored() {
    let f = CCFunction::new(String::from("parse"), String::from("lib.rs"), 9);
    assert_eq!(f.name(), "parse");
    assert_eq!(f.file(), "lib.rs");
    assert_eq!(f.cc(), 9);
    let l = LocFunction::new(String::from("emit"), String::from("gen.rs"), 42);
    assert_eq!(l.name(), "emit");
    assert_eq!(l.file(), "gen.rs");
    assert_eq!(l.loc(), 42);
}
