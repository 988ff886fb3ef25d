use wallrustler::catalog::is_img_file;
use wallrustler::rotation::can_pick;
use wallrustler::text::parse_u64;
use wallrustler::wallpaper::{apply_plan, SetterStep, WallSetterProgram};
use wallrustler::weighting::{count_weight, select_index, select_wallpaper, total_weight};
use wallrustler::{
    get_wallpapers_from_path, mean_centering_counts, pick_random_wallpaper, process_args, rotate,
    sync_wallpapers, CliOption, Error, Wallpaper,
};

fn w(name: &str, count: usize) -> Wallpaper {
    Wallpaper { file_name: name.to_string(), count }
}

fn names(v: &[&str]) -> Vec<String> {
    v.iter().map(|s| s.to_string()).collect()
}

fn pairs(v: &[Wallpaper]) -> Vec<(String, usize)> {
    v.iter().map(|x| (x.file_name.clone(), x.count)).collect()
}

fn args(v: &[&str]) -> Vec<String> {
    names(v)
}

#[test]
fn reconcile_drops_missing_and_adds_new() {
    let prior = vec![w("a.png", 5), w("b.jpg", 5), w("c.gif", 5)];
    let scan = names(&["a.png", "b.jpg", "d.bmp"]);
    let r = sync_wallpapers(&scan, prior);
    assert_eq!(
        pairs(&r),
        vec![("a.png".to_string(), 5), ("b.jpg".to_string(), 5), ("d.bmp".to_string(), 0)]
    );
}

#[test]
fn reconcile_twice_is_reconcile_once() {
    let prior = vec![w("x.png", 2), w("a.png", 7), w("gone.gif", 1)];
    let scan = names(&["n.webp", "a.png", "x.png", "m.tga"]);
    let once = sync_wallpapers(&scan, prior);
    let once_pairs = pairs(&once);
    let twice = sync_wallpapers(&scan, once);
    assert_eq!(pairs(&twice), once_pairs);
}

#[test]
fn reconcile_names_equal_scan() {
    let prior = vec![w("a.png", 1), w("b.png", 2)];
    let scan = names(&["c.png", "b.png"]);
    let r = sync_wallpapers(&scan, prior);
    let mut got: Vec<String> = r.iter().map(|x| x.file_name.clone()).collect();
    got.sort();
    assert_eq!(got, names(&["b.png", "c.png"]));
    assert_eq!(pairs(&r), vec![("b.png".to_string(), 2), ("c.png".to_string(), 0)]);
}

#[test]
fn reconcile_empty_scan_empties() {
    let r = sync_wallpapers(&Vec::new(), vec![w("a.png", 3)]);
    assert!(r.is_empty());
}

#[test]
fn normalize_shifts_to_zero() {
    let r = mean_centering_counts(vec![w("a", 3), w("b", 5), w("c", 7)]);
    assert_eq!(
        pairs(&r),
        vec![("a".to_string(), 0), ("b".to_string(), 2), ("c".to_string(), 4)]
    );
}

#[test]
fn normalize_keeps_zero_minimum() {
    let r = mean_centering_counts(vec![w("a", 4), w("b", 0)]);
    assert_eq!(pairs(&r), vec![("a".to_string(), 4), ("b".to_string(), 0)]);
}

#[test]
fn normalize_empty_is_noop() {
    assert!(mean_centering_counts(Vec::new()).is_empty());
}

#[test]
fn weights_decay_with_count() {
    assert_eq!(count_weight(0), 4294967296);
    assert_eq!(count_weight(1), 4290676619);
    assert_eq!(count_weight(10), 4252252899);
    assert!(count_weight(0) > count_weight(10));
    assert_eq!(count_weight(usize::MAX), 1);
}

#[test]
fn total_weight_sums() {
    assert_eq!(total_weight(&vec![w("a", 0), w("b", 0)]), 8589934592);
    assert_eq!(total_weight(&vec![w("a", 0), w("b", 10)]), 8547220195);
    assert_eq!(total_weight(&Vec::new()), 0);
}

#[test]
fn select_walks_cumulative_weight() {
    let v = vec![w("a", 0), w("b", 0), w("c", 0)];
    assert_eq!(select_index(&v, 0), 0);
    assert_eq!(select_index(&v, 4294967296), 0);
    assert_eq!(select_index(&v, 4294967297), 1);
    assert_eq!(select_index(&v, 8589934592), 1);
    assert_eq!(select_index(&v, 8589934593), 2);
    assert_eq!(select_index(&v, u128::MAX), 2);
}

#[test]
fn select_single_entry_always() {
    let v = vec![w("only", 9)];
    assert_eq!(select_index(&v, 0), 0);
    assert_eq!(select_index(&v, u128::MAX), 0);
}

#[test]
fn select_bumps_only_the_chosen() {
    let mut v = vec![w("a", 0), w("b", 3), w("c", 1)];
    let name = select_wallpaper(&mut v, 4294967297);
    assert_eq!(name, "b");
    assert_eq!(
        pairs(&v),
        vec![("a".to_string(), 0), ("b".to_string(), 4), ("c".to_string(), 1)]
    );
}

#[test]
fn pick_changes_exactly_one_count() {
    let before = vec![w("a", 0), w("b", 2), w("c", 5)];
    let mut v = vec![w("a", 0), w("b", 2), w("c", 5)];
    let name = pick_random_wallpaper(&mut v);
    let changed: Vec<usize> = (0..3).filter(|&i| v[i].count != before[i].count).collect();
    assert_eq!(changed.len(), 1);
    let i = changed[0];
    assert_eq!(v[i].count, before[i].count + 1);
    assert_eq!(v[i].file_name, name);
}

#[test]
fn pick_equal_counts_roughly_uniform() {
    let trials = 30000;
    let mut hits = [0usize; 3];
    for _ in 0..trials {
        let mut v = vec![w("a", 0), w("b", 0), w("c", 0)];
        let name = pick_random_wallpaper(&mut v);
        let i = ["a", "b", "c"].iter().position(|n| *n == name).unwrap();
        hits[i] += 1;
    }
    for h in hits {
        let share = h as f64 / trials as f64;
        assert!(share > 0.30 && share < 0.367, "share {}", share);
    }
}

#[test]
fn pick_prefers_unseen_entry() {
    let v = vec![w("a", 0), w("b", 10), w("c", 10)];
    let total = total_weight(&v) as f64;
    let share_a = count_weight(0) as f64 / total;
    let share_b = count_weight(10) as f64 / total;
    assert!(share_a > share_b);
    let mut v2 = vec![w("a", 0), w("b", 10000), w("c", 10000)];
    let mut hits_a = 0;
    for _ in 0..2000 {
        v2[0].count = 0;
        v2[1].count = 10000;
        v2[2].count = 10000;
        if pick_random_wallpaper(&mut v2) == "a" {
            hits_a += 1;
        }
    }
    assert!(hits_a > 1800, "hits {}", hits_a);
}

#[test]
fn cold_start_then_select() {
    let listing = names(&["a.png", "b.jpg", "notes.txt"]);
    let scan = get_wallpapers_from_path(&listing);
    assert_eq!(scan, names(&["a.png", "b.jpg"]));
    let mut v = sync_wallpapers(&scan, Vec::new());
    assert_eq!(pairs(&v), vec![("a.png".to_string(), 0), ("b.jpg".to_string(), 0)]);
    v = mean_centering_counts(v);
    let name = pick_random_wallpaper(&mut v);
    let total: usize = v.iter().map(|x| x.count).sum();
    assert_eq!(total, 1);
    assert_eq!(v.iter().find(|x| x.file_name == name).unwrap().count, 1);
}

#[test]
fn image_extensions() {
    for e in ["jpg", "jpeg", "png", "gif", "pnm", "tga", "tiff", "webp", "bmp", "farbfeld"] {
        assert!(is_img_file(e));
    }
    assert!(!is_img_file("PNG"));
    assert!(!is_img_file("txt"));
    assert!(!is_img_file(""));
}

#[test]
fn catalog_filters_by_extension() {
    let listing = names(&[
        "a.png", "b.txt", ".png", "c.tar.gz", "d.jpeg", "e", "f.PNG", "g.old.webp", "..", "h.",
        "..bmp",
    ]);
    assert_eq!(
        get_wallpapers_from_path(&listing),
        names(&["a.png", "d.jpeg", "g.old.webp", "..bmp"])
    );
}

#[test]
fn decimal_parsing() {
    assert_eq!(parse_u64("15"), Some(15));
    assert_eq!(parse_u64("+7"), Some(7));
    assert_eq!(parse_u64("0"), Some(0));
    assert_eq!(parse_u64("18446744073709551615"), Some(u64::MAX));
    assert_eq!(parse_u64("18446744073709551616"), None);
    assert_eq!(parse_u64(""), None);
    assert_eq!(parse_u64("+"), None);
    assert_eq!(parse_u64("-1"), None);
    assert_eq!(parse_u64("12a"), None);
}

#[test]
fn args_read_options_and_directory() {
    let r = process_args(&args(&["--program=swww", "--interval=5", "/pics"]), true).unwrap();
    assert_eq!(
        r,
        vec![
            CliOption::Path("/pics".to_string()),
            CliOption::Interval(5),
            CliOption::Program(WallSetterProgram::SWWW),
        ]
    );
    let r = process_args(
        &args(&["--print-state", "--restart-swww", "--program=plasma-apply-wallpaperimage", "/p"]),
        true,
    )
    .unwrap();
    assert_eq!(
        r,
        vec![
            CliOption::Path("/p".to_string()),
            CliOption::Program(WallSetterProgram::PLASMA),
            CliOption::RestartSWWW,
            CliOption::PrintState,
        ]
    );
    let r = process_args(&args(&["--help", "/p"]), true).unwrap();
    assert_eq!(r, vec![CliOption::Path("/p".to_string()), CliOption::PrintState]);
}

#[test]
fn args_structure_errors() {
    assert!(matches!(process_args(&Vec::new(), true), Err(Error::InvalidOptionsStructure)));
    assert!(matches!(
        process_args(&args(&["--bogus", "/nope"]), false),
        Err(Error::InvalidOptionsStructure)
    ));
}

#[test]
fn args_invalid_option_reported() {
    match process_args(&args(&["--interval=0", "/p"]), true) {
        Err(Error::InvalidOption(s)) => assert_eq!(s, "--interval=0"),
        other => panic!("unexpected {:?}", other),
    }
    match process_args(&args(&["--x", "--y", "/p"]), true) {
        Err(Error::InvalidOption(s)) => assert_eq!(s, "--y"),
        other => panic!("unexpected {:?}", other),
    }
    match process_args(&args(&["--program=feh", "/p"]), true) {
        Err(Error::InvalidOption(s)) => assert_eq!(s, "--program=feh"),
        other => panic!("unexpected {:?}", other),
    }
    match process_args(&args(&["--interval=abc", "/p"]), true) {
        Err(Error::InvalidOption(s)) => assert_eq!(s, "--interval=abc"),
        other => panic!("unexpected {:?}", other),
    }
}

#[test]
fn rotate_reconciles_shifts_and_picks() {
    let prior = vec![w("a.png", 5), w("b.jpg", 7), w("c.gif", 5)];
    let scan = names(&["a.png", "b.jpg", "d.bmp"]);
    let (v, picked) = rotate(&scan, prior);
    let name = picked.unwrap();
    let expected = vec![
        ("a.png".to_string(), 5),
        ("b.jpg".to_string(), 7),
        ("d.bmp".to_string(), 0),
    ];
    let got = pairs(&v);
    let changed: Vec<usize> = (0..3).filter(|&i| got[i] != expected[i]).collect();
    assert_eq!(changed.len(), 1);
    assert_eq!(got[changed[0]].0, name);
    assert_eq!(got[changed[0]].1, expected[changed[0]].1 + 1);
}

#[test]
fn rotate_shifts_before_picking() {
    let prior = vec![w("a.png", 3), w("b.png", 4)];
    let (v, picked) = rotate(&names(&["a.png", "b.png"]), prior);
    let name = picked.unwrap();
    let got = pairs(&v);
    if name == "a.png" {
        assert_eq!(got, vec![("a.png".to_string(), 1), ("b.png".to_string(), 1)]);
    } else {
        assert_eq!(got, vec![("a.png".to_string(), 0), ("b.png".to_string(), 2)]);
    }
}

#[test]
fn rotate_empty_scan_picks_nothing() {
    let (v, picked) = rotate(&Vec::new(), vec![w("a.png", 1)]);
    assert!(v.is_empty());
    assert!(picked.is_none());
}

#[test]
fn pick_needs_room_to_count() {
    assert!(can_pick(&vec![w("a", 0), w("b", 3)]));
    assert!(!can_pick(&Vec::new()));
    assert!(!can_pick(&vec![w("a", 0), w("b", usize::MAX)]));
}

#[test]
fn apply_plan_by_session_and_program() {
    assert_eq!(apply_plan(WallSetterProgram::SWWW, false, true), vec![SetterStep::FehImage]);
    assert_eq!(apply_plan(WallSetterProgram::SWWW, true, false), vec![SetterStep::SwwwImage]);
    assert_eq!(
        apply_plan(WallSetterProgram::SWWW, true, true),
        vec![
            SetterStep::SwwwImage,
            SetterStep::Pause(10),
            SetterStep::StopSwwwDaemon,
            SetterStep::StartSwwwDaemon,
        ]
    );
    assert_eq!(apply_plan(WallSetterProgram::PLASMA, true, true), vec![SetterStep::PlasmaImage]);
}
