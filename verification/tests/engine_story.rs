use wilson::engine::rng::Rng;
use wilson::engine::story::{
    holiday_for_date, is_night, pick_scene, raft_for_day, story_scenes, Director, Holiday, FINAL,
    FIRST, ISLAND, LEFT_ISLAND, LOWTIDE_OK, VARPOS_OK,
};

#[test]
fn table_has_63_scenes() {
    assert_eq!(story_scenes().len(), 63);
}

#[test]
fn day_beats_match_the_story() {
    let table = story_scenes();
    let beat = |day: u8| -> Option<(&'static str, u16)> {
        table
            .iter()
            .find(|s| s.day == day && s.flags & FINAL != 0)
            .map(|s| (s.ads_name, s.ads_tag))
    };
    assert_eq!(beat(1), Some(("MARY.ADS", 2)));
    assert_eq!(beat(2), Some(("JOHNNY.ADS", 2)));
    assert_eq!(beat(3), Some(("SUZY.ADS", 1)));
    assert_eq!(beat(4), Some(("MARY.ADS", 3)));
    assert_eq!(beat(5), Some(("MARY.ADS", 1)));
    assert_eq!(beat(6), None);
    assert!(table
        .iter()
        .any(|s| s.day == 6 && s.ads_name == "JOHNNY.ADS" && s.ads_tag == 3));
    assert_eq!(beat(7), Some(("MARY.ADS", 4)));
    assert_eq!(beat(8), Some(("MARY.ADS", 5)));
    assert_eq!(beat(9), Some(("SUZY.ADS", 2)));
    assert_eq!(beat(10), Some(("JOHNNY.ADS", 6)));
    assert_eq!(beat(11), Some(("JOHNNY.ADS", 1)));
}

#[test]
fn holidays() {
    assert_eq!(holiday_for_date(10, 30), Holiday::Halloween);
    assert_eq!(holiday_for_date(10, 28), Holiday::NoHoliday);
    assert_eq!(holiday_for_date(3, 16), Holiday::StPatrick);
    assert_eq!(holiday_for_date(12, 24), Holiday::Christmas);
    assert_eq!(holiday_for_date(12, 31), Holiday::NewYear);
    assert_eq!(holiday_for_date(1, 1), Holiday::NewYear);
    assert_eq!(holiday_for_date(6, 14), Holiday::NoHoliday);
}

#[test]
fn holiday_edges_are_exclusive() {
    assert_eq!(holiday_for_date(10, 29), Holiday::Halloween);
    assert_eq!(holiday_for_date(11, 1), Holiday::NoHoliday);
    assert_eq!(holiday_for_date(3, 14), Holiday::NoHoliday);
    assert_eq!(holiday_for_date(3, 15), Holiday::StPatrick);
    assert_eq!(holiday_for_date(3, 17), Holiday::StPatrick);
    assert_eq!(holiday_for_date(3, 18), Holiday::NoHoliday);
    assert_eq!(holiday_for_date(12, 28), Holiday::NoHoliday);
    assert_eq!(holiday_for_date(12, 29), Holiday::NewYear);
    assert_eq!(holiday_for_date(1, 2), Holiday::NoHoliday);
}

#[test]
fn night_and_raft() {
    for h in [0u8, 7, 8, 15, 16, 23] {
        assert!(is_night(h), "expected night at {h}");
    }
    for h in [1u8, 3, 6, 12] {
        assert!(!is_night(h), "expected day at {h}");
    }
    assert_eq!(raft_for_day(1), 1);
    assert_eq!(raft_for_day(2), 1);
    assert_eq!(raft_for_day(3), 2);
    assert_eq!(raft_for_day(4), 3);
    assert_eq!(raft_for_day(5), 4);
    assert_eq!(raft_for_day(6), 5);
    assert_eq!(raft_for_day(11), 5);
}

#[test]
fn advance_day_clamps_and_wraps() {
    let mut d = Director::new(5, 100);
    assert!(!d.advance_day(100));
    assert_eq!(d.current_day, 5);
    assert!(d.advance_day(101));
    assert_eq!(d.current_day, 6);
    d.current_day = 11;
    assert!(d.advance_day(102));
    assert_eq!(d.current_day, 1);
}

#[test]
fn advance_day_repairs_an_out_of_range_day_without_a_calendar_change() {
    let mut d = Director::new(0, 7);
    assert!(d.advance_day(7));
    assert_eq!(d.current_day, 1);
    assert_eq!(d.stored_yday, 7);
}

#[test]
fn plan_run_invariants() {
    let table = story_scenes();
    let mut d = Director::new(5, 200);
    let mut rng = Rng::new(7);
    let run = d.plan_run(200, 12, 6, 14, &mut rng);
    assert!(!run.scenes.is_empty());
    assert_eq!(run.island.holiday, Holiday::NoHoliday);
    assert!(!run.island.night);
    let last = run.scenes.last().unwrap();
    assert!(table.iter().any(|s| s.ads_name == last.ads_name
        && s.ads_tag == last.ads_tag
        && s.flags & FINAL != 0));
    if run.scenes.len() > 1 {
        assert!((7..=20).contains(&run.scenes.len()));
        for amb in &run.scenes[..run.scenes.len() - 1] {
            let scene = table
                .iter()
                .find(|s| s.ads_name == amb.ads_name && s.ads_tag == amb.ads_tag)
                .unwrap();
            assert_eq!(scene.flags & FINAL, 0, "ambient scene must not be FINAL");
        }
    }
}

#[test]
fn raft_reflects_day_in_plan() {
    let mut d = Director::new(5, 300);
    let mut rng = Rng::new(1);
    let run = d.plan_run(300, 12, 6, 14, &mut rng);
    if run.on_island {
        assert_eq!(run.island.raft, raft_for_day(5));
    }
}

#[test]
fn plans_chain_walks_between_scenes() {
    for seed in 0..40u64 {
        let mut d = Director::new(3, 10);
        let mut rng = Rng::new(seed);
        let run = d.plan_run(11, 0, 12, 24, &mut rng);
        assert_eq!(d.current_day, 4);
        assert!(run.island.night);
        assert!(run.scenes.len() >= 1 && run.scenes.len() <= 20);
        assert_eq!(run.scenes[0].walk_from, None);
        for w in run.scenes.windows(2) {
            assert!(w[1].walk_from.is_some());
            assert!(w[0].walk_to.is_some());
        }
        if !run.on_island {
            assert_eq!(run.island.holiday, Holiday::NoHoliday);
            assert_eq!(run.island.raft, 0);
        }
    }
}

#[test]
fn pick_scene_respects_flags_and_day() {
    let mut rng = Rng::new(3);
    for _ in 0..50 {
        let s = pick_scene(4, LOWTIDE_OK, FINAL, &mut rng).unwrap();
        assert!(s.flags & LOWTIDE_OK != 0);
        assert_eq!(s.flags & FINAL, 0);
        assert!(s.day == 0 || s.day == 4);
    }
    assert!(pick_scene(4, LEFT_ISLAND | FIRST | VARPOS_OK | ISLAND, 0xff, &mut rng).is_none());
}
