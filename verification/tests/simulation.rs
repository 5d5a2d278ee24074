use simulator::{CacheLevel, Ratio, Simulator, VideoObject};

fn lines(v: &[&str]) -> Vec<String> {
    v.iter().map(|s| s.to_string()).collect()
}

fn dump() -> Vec<String> {
    lines(&[
        "1 0 100,100,200,200",
        "1 1 1000,100,200,200",
        "2 0 110,100,200,200",
        "2 1 1010,100,200,200",
        "3 0 120,100,200,200",
        "3 1 1020,100,200,200",
    ])
}

fn objects() -> Vec<VideoObject> {
    vec![VideoObject { from_start: 1, from_end: 4, size: 2, cluster: vec![0, 1] }]
}

fn make(segment: usize, users: &[&str]) -> Simulator {
    let name = String::from("f");
    Simulator::try_new(
        &name,
        &name,
        &name,
        Ratio { num: 9, den: 10 },
        segment,
        200,
        200,
        400,
        400,
        &dump(),
        true,
        &objects(),
        &lines(users),
    )
    .unwrap()
}

#[test]
fn paths_follow_frames_and_clusters() {
    let sim = make(2, &["0 100 105,100,200,200"]);
    assert_eq!(sim.path_list.len(), 3);
    let xs: Vec<Vec<i32>> = sim.path_list.iter().map(|p| p.iter().map(|v| v.x).collect()).collect();
    assert_eq!(xs, vec![vec![100, 1000], vec![110, 1010], vec![120, 1020]]);
    assert_eq!(sim.path_list[0][0].conf, 100);
    assert_eq!(sim.user_fov_list.len(), 1);
    assert_eq!(sim.user_fov_list[0].x, 105);
}

#[test]
fn paths_are_resized_to_field_of_view() {
    let name = String::from("f");
    let sim = Simulator::new(
        &name, &name, &name, Ratio { num: 1, den: 2 }, 1, 100, 100, 400, 400,
        &dump(), true, &objects(), &lines(&[]),
    );
    assert_eq!((sim.path_list[0][0].x, sim.path_list[0][0].y, sim.path_list[0][0].width), (150, 150, 100));
}

#[test]
fn incomplete_dump_adds_no_path() {
    let name = String::from("f");
    let sim = Simulator::try_new(
        &name, &name, &name, Ratio { num: 1, den: 2 }, 1, 200, 200, 400, 400,
        &dump(), false, &vec![], &lines(&["0 1 1,2,3,4"]),
    )
    .unwrap();
    assert_eq!(sim.path_list.len(), 0);
    assert_eq!(sim.user_fov_list.len(), 1);
}

#[test]
fn unreadable_inputs_are_refused() {
    let name = String::from("f");
    let bad_dump = lines(&["1 0 100,100,200"]);
    assert!(Simulator::try_new(
        &name, &name, &name, Ratio { num: 1, den: 2 }, 1, 200, 200, 400, 400,
        &bad_dump, false, &vec![], &vec![],
    )
    .is_none());
    let late = vec![VideoObject { from_start: 1, from_end: 5, size: 1, cluster: vec![0] }];
    assert!(Simulator::try_new(
        &name, &name, &name, Ratio { num: 1, den: 2 }, 1, 200, 200, 400, 400,
        &dump(), true, &late, &vec![],
    )
    .is_none());
    let zero_start = vec![VideoObject { from_start: 0, from_end: 2, size: 1, cluster: vec![0] }];
    assert!(Simulator::try_new(
        &name, &name, &name, Ratio { num: 1, den: 2 }, 1, 200, 200, 400, 400,
        &dump(), true, &zero_start, &vec![],
    )
    .is_none());
    let missing = vec![VideoObject { from_start: 1, from_end: 2, size: 1, cluster: vec![2] }];
    assert!(Simulator::try_new(
        &name, &name, &name, Ratio { num: 1, den: 2 }, 1, 200, 200, 400, 400,
        &dump(), true, &missing, &vec![],
    )
    .is_none());
    assert!(Simulator::try_new(
        &name, &name, &name, Ratio { num: 1, den: 2 }, 1, 200, 200, 400, 400,
        &dump(), true, &objects(), &lines(&["x 1 1,2,3,4"]),
    )
    .is_none());
}

fn level(l: CacheLevel) -> u8 {
    match l {
        CacheLevel::LevelOne => 1,
        CacheLevel::LevelTwo => 2,
        CacheLevel::LevelThree => 3,
    }
}

#[test]
fn levels_one_two_then_new_segment() {
    let mut sim = make(2, &[
        "0 100 105,100,200,200",
        "1 100 150,100,200,200",
        "2 100 1030,100,200,200",
    ]);
    assert!(sim.checked_hierarchical_simulate());
    let h = &sim.hit_list;
    assert_eq!(h.len(), 3);
    assert_eq!((h[0].index, h[0].path, level(h[0].cache_level)), (0, 0, 1));
    assert_eq!((h[0].ratio.num, h[0].ratio.den, h[0].width, h[0].height), (39000, 40000, 200, 200));
    assert_eq!((h[1].index, h[1].path, level(h[1].cache_level)), (1, 0, 2));
    assert_eq!((h[1].ratio.num, h[1].ratio.den, h[1].width, h[1].height), (40000, 40000, 400, 400));
    assert_eq!((h[2].index, h[2].path, level(h[2].cache_level)), (2, 1, 1));
    assert_eq!((h[2].ratio.num, h[2].ratio.den), (38000, 40000));
}

#[test]
fn path_change_goes_to_full_frame_for_the_segment() {
    let mut sim = make(3, &[
        "0 100 105,100,200,200",
        "1 100 1010,100,200,200",
        "2 100 120,100,200,200",
    ]);
    sim.hierarchical_simulate();
    let h = &sim.hit_list;
    assert_eq!((h[0].path, level(h[0].cache_level)), (0, 1));
    assert_eq!((h[1].path, level(h[1].cache_level)), (1, 3));
    assert_eq!((h[1].ratio.num, h[1].ratio.den, h[1].width, h[1].height), (1, 1, 3840, 2160));
    assert_eq!((h[2].path, level(h[2].cache_level)), (0, 3));
    for k in 1..h.len() {
        assert!(level(h[k].cache_level) >= level(h[k - 1].cache_level));
    }
}

#[test]
fn second_simulation_is_refused() {
    let mut sim = make(2, &["0 100 105,100,200,200"]);
    assert!(sim.checked_hierarchical_simulate());
    assert!(!sim.checked_hierarchical_simulate());
    assert_eq!(sim.hit_list.len(), 1);
}

#[test]
fn too_few_paths_are_refused() {
    let mut sim = make(2, &["0 1 1,1,1,1", "0 1 1,1,1,1", "0 1 1,1,1,1", "0 1 1,1,1,1"]);
    assert!(!sim.checked_hierarchical_simulate());
    assert_eq!(sim.hit_list.len(), 0);
}

#[test]
fn zero_segment_is_refused() {
    let mut sim = make(0, &["0 100 105,100,200,200"]);
    assert!(!sim.checked_hierarchical_simulate());
}

fn single_frame(users: &[&str]) -> Simulator {
    let name = String::from("f");
    let dump = lines(&["1 0 100,100,200,200", "1 1 100,100,200,200"]);
    let objs = vec![VideoObject { from_start: 1, from_end: 2, size: 2, cluster: vec![0, 1] }];
    Simulator::new(
        &name, &name, &name, Ratio { num: 1, den: 2 }, 1, 200, 200, 400, 400,
        &dump, true, &objs, &lines(users),
    )
}

#[test]
fn ties_keep_the_first_best_path() {
    let mut sim = single_frame(&["0 100 100,100,200,200"]);
    assert!(sim.checked_hierarchical_simulate());
    let h = &sim.hit_list[0];
    assert_eq!((h.path, level(h.cache_level), h.ratio.num, h.ratio.den), (0, 1, 40000, 40000));
    assert!(h.ratio.num <= h.ratio.den as i64);
}

#[test]
fn frame_without_a_best_path_is_refused() {
    let mut sim = single_frame(&["0 100 100,100,0,0"]);
    assert!(!sim.checked_hierarchical_simulate());
    assert_eq!(sim.hit_list.len(), 0);
}

#[test]
fn required_forms_match_checked_ones() {
    let mut sim = make(2, &["0 100 105,100,200,200"]);
    let fov = sim.path_list[0][0];
    let user = sim.user_fov_list[0];
    let (hit, lvl) = sim.compare_from_level_one(&fov, &user, 0, 0, 200, 200);
    assert_eq!((level(lvl), hit.ratio.num, hit.ratio.den), (1, 39000, 40000));
    let (hit2, lvl2) = sim.compare_from_level_two(&fov, &user, 0, 0);
    assert_eq!((level(lvl2), hit2.width, hit2.ratio.num), (2, 400, 40000));
    let (hit3, _) = sim.compare_from_level_three(4, 1);
    assert_eq!((hit3.index, hit3.path, hit3.width, hit3.height), (4, 1, 3840, 2160));
    sim.parse_user_data(&lines(&["1 100 150,100,200,200"]));
    assert_eq!(sim.user_fov_list.len(), 2);
    sim.parse_tracing_to_path_list(&dump(), true, &objects());
    assert_eq!(sim.path_list.len(), 6);
}
