use wilson::host::assets::{
    data_candidates, has_zip_magic, join_path, DataSearch, Prepared, NEED_DATA_MSG,
};
use wilson::host::audio::{
    audio_summary, count_loaded, loaded_sound, sound_filename, PlayOutcome, NUM_SOUNDS,
};
use wilson::saver::{data_dirs_from, frame_delay_ms, FRAME_BYTES, WILSON_HEIGHT, WILSON_WIDTH};

#[test]
fn filename() {
    assert_eq!(sound_filename(0), "sound0.wav");
    assert_eq!(sound_filename(24), "sound24.wav");
}

#[test]
fn loaded_sounds_are_counted_and_found() {
    let mut sounds: Vec<Option<Vec<u8>>> = vec![None; NUM_SOUNDS];
    assert_eq!(count_loaded(&sounds), 0);
    sounds[3] = Some(vec![1, 2]);
    sounds[24] = Some(vec![]);
    assert_eq!(count_loaded(&sounds), 2);
    assert_eq!(loaded_sound(&sounds, 3), Some(&vec![1, 2]));
    assert_eq!(loaded_sound(&sounds, 4), None);
    assert_eq!(loaded_sound(&sounds, 25), None);
    assert_ne!(PlayOutcome::Played, PlayOutcome::NotLoaded);
}

#[test]
fn audio_summary_lists_the_state() {
    assert_eq!(
        audio_summary(true, false, true, 25),
        "feature=true muted=false device_open=true sounds_loaded=25"
    );
}

#[test]
fn missing_data_dir_reports_resource_map() {
    // No candidate holds data: the search reports the generic message, which names the files.
    let mut search = DataSearch::new();
    for _ in data_candidates(&vec!["/nonexistent/wilson/data".to_string()]) {
        assert_eq!(search.offer(Prepared::Skip), None);
    }
    let err = search.finish();
    assert!(err.contains("RESOURCE.MAP"), "unexpected error: {err}");
    assert_eq!(err, NEED_DATA_MSG);
}

#[test]
fn data_search_takes_the_first_ready_dir_and_the_first_reason() {
    let mut s = DataSearch::new();
    assert_eq!(s.offer(Prepared::Unusable("installer".into())), None);
    assert_eq!(s.offer(Prepared::Unusable("later".into())), None);
    assert_eq!(s.offer(Prepared::Ready("/d".into())), Some("/d".to_string()));
    assert_eq!(s.finish(), "installer");
}

#[test]
fn candidates_prioritise_explicit_then_probe_data_subdir() {
    let c = data_candidates(&vec!["/explicit".to_string(), "/cwd/".to_string()]);
    assert_eq!(c[0], "/explicit");
    assert_eq!(c[1], "/explicit/data");
    assert_eq!(c[2], "/cwd/");
    assert_eq!(c[3], "/cwd/data");
    assert_eq!(c[4], "/explicit/scrantic-run.zip");
    assert_eq!(c[5], "/explicit/scrantic-installer.zip");
    assert_eq!(c[6], "/explicit/data/scrantic-run.zip");
    assert_eq!(c.len(), 12);
}

#[test]
fn zip_magic_and_path_joins() {
    assert!(has_zip_magic(b"PK\x03\x04rest"));
    assert!(!has_zip_magic(b"PK\x03"));
    assert!(!has_zip_magic(b"RESOURCE"));
    assert_eq!(join_path("", "data"), "data");
    assert_eq!(join_path("/a", "/b"), "/b");
}

#[test]
fn data_dirs_order_and_home_path() {
    let dirs = data_dirs_from(Some("/explicit".to_string()), Some("/home/u".to_string()));
    assert_eq!(dirs[0], "/explicit");
    assert_eq!(dirs[1], "/home/u/Library/Application Support/WilsonReborn");
    assert_eq!(data_dirs_from(Some("/x".to_string()), None).len(), 1);
    assert!(data_dirs_from(None, None).is_empty());
}

#[test]
fn saver_frame_geometry_and_delay() {
    assert_eq!(FRAME_BYTES, (WILSON_WIDTH * WILSON_HEIGHT * 4) as usize);
    assert_eq!(frame_delay_ms(6), 120);
    assert_eq!(frame_delay_ms(0), 0);
}
