use edifm::db::models::{
    Play, Program, Recording, ResumeRecord, StoreError, TimeOfDay, SECONDS_PER_DAY,
};
use edifm::db::{
    find_program, find_recording, insert_play_record, select_next_recording, Schedule,
    MAX_CANDIDATES, RECENT_PLAYS,
};

fn at(hour: u32, minute: u32, second: u32) -> TimeOfDay {
    TimeOfDay::from_hms(hour, minute, second).unwrap()
}

fn program(id: i32, name: &str, starts_at: TimeOfDay, ends_at: TimeOfDay) -> Program {
    Program { id, name: name.to_string(), starts_at, ends_at }
}

fn recording(id: i32) -> Recording {
    Recording {
        id,
        filename: format!("r{}.mp3", id),
        title: format!("Title {}", id),
        artist: format!("Artist {}", id),
        link: if id % 2 == 0 { Some(format!("http://example.org/{}", id)) } else { None },
    }
}

const ROCK: i32 = 1;
const JAZZ: i32 = 2;

/// Program 1 from 10:00 to 11:00 tagged rock, with `n` rock recordings 1..=n.
fn rock_hour(n: i32) -> Schedule {
    let mut store = Schedule::new();
    assert!(store.add_program(program(1, "Rock hour", at(10, 0, 0), at(11, 0, 0))));
    store.tag_program(1, ROCK);
    for id in 1..=n {
        assert!(store.add_recording(recording(id)));
        store.tag_recording(id, ROCK);
    }
    store
}

fn play(store: &mut Schedule, program_id: i32, recording_id: i32) {
    let p = find_program(store, program_id as i64).unwrap();
    let r = find_recording(store, recording_id as i64).unwrap();
    assert_eq!(insert_play_record(store, &p, &r, "2024-01-01T10:00:00+00:00".to_string()), Ok(()));
}

#[test]
fn store_settings() {
    assert_eq!(RECENT_PLAYS, 5);
    assert_eq!(MAX_CANDIDATES, 8);
    assert_eq!(SECONDS_PER_DAY, 86_400);
}

#[test]
fn time_from_hms() {
    assert_eq!(at(0, 0, 0).seconds(), 0);
    assert_eq!(at(10, 30, 0).seconds(), 37_800);
    assert_eq!(at(23, 59, 59).seconds(), 86_399);
    assert_eq!(TimeOfDay::from_hms(24, 0, 0), None);
    assert_eq!(TimeOfDay::from_hms(23, 60, 0), None);
    assert_eq!(TimeOfDay::from_hms(23, 59, 60), None);
}

#[test]
fn time_from_seconds() {
    assert_eq!(TimeOfDay::from_seconds(37_800), Some(at(10, 30, 0)));
    assert_eq!(TimeOfDay::from_seconds(86_399), Some(at(23, 59, 59)));
    assert_eq!(TimeOfDay::from_seconds(86_400), None);
    assert_eq!(TimeOfDay::from_seconds(u32::MAX), None);
}

#[test]
fn time_is_parsed_from_clock_text() {
    assert_eq!(TimeOfDay::parse("10:30:00"), Ok(at(10, 30, 0)));
    assert_eq!(TimeOfDay::parse("00:00:00"), Ok(at(0, 0, 0)));
    assert_eq!(TimeOfDay::parse("23:59:59"), Ok(at(23, 59, 59)));
    assert_eq!(TimeOfDay::parse("23:59:59").unwrap().seconds(), 86_399);
}

#[test]
fn malformed_clock_text_is_a_bad_time() {
    assert_eq!(TimeOfDay::parse(""), Err(StoreError::BadTime));
    assert_eq!(TimeOfDay::parse("ten thirty"), Err(StoreError::BadTime));
    assert_eq!(TimeOfDay::parse("25:00:00"), Err(StoreError::BadTime));
    assert_eq!(TimeOfDay::parse("10:61:00"), Err(StoreError::BadTime));
    assert_eq!(TimeOfDay::parse("10:30"), Err(StoreError::BadTime));
    assert_eq!(TimeOfDay::parse("10:30:00 trailing"), Err(StoreError::BadTime));
}

#[test]
fn parse_outcome_becomes_a_time() {
    assert_eq!(TimeOfDay::from_parsed(Some(37_800)), Ok(at(10, 30, 0)));
    assert_eq!(TimeOfDay::from_parsed(Some(86_400)), Err(StoreError::BadTime));
    assert_eq!(TimeOfDay::from_parsed(None), Err(StoreError::BadTime));
}

#[test]
fn program_is_on_air_at_both_ends() {
    let p = program(1, "Morning", at(10, 0, 0), at(11, 0, 0));
    assert!(p.is_airing(at(10, 0, 0)));
    assert!(p.is_airing(at(11, 0, 0)));
    assert!(p.is_airing(at(10, 30, 0)));
    assert!(!p.is_airing(at(9, 59, 59)));
    assert!(!p.is_airing(at(11, 0, 1)));
}

#[test]
fn ids_are_unique() {
    let mut store = Schedule::new();
    assert!(store.add_program(program(1, "a", at(1, 0, 0), at(2, 0, 0))));
    assert!(!store.add_program(program(1, "b", at(3, 0, 0), at(4, 0, 0))));
    assert!(store.add_recording(recording(1)));
    assert!(!store.add_recording(recording(1)));
    assert_eq!(find_program(&store, 1).unwrap().name, "a");
    assert!(store.contains_program(1));
    assert!(!store.contains_program(2));
    assert!(store.contains_recording(1));
    assert!(!store.contains_recording(2));
}

#[test]
fn program_must_not_end_before_it_starts() {
    let mut store = Schedule::new();
    assert!(!store.add_program(program(1, "backwards", at(11, 0, 0), at(10, 0, 0))));
    assert!(!store.contains_program(1));
    assert!(store.add_program(program(1, "instant", at(10, 0, 0), at(10, 0, 0))));
    assert!(store.contains_program(1));
}

#[test]
fn find_recording_by_id() {
    let store = rock_hour(3);
    assert_eq!(find_recording(&store, 2), Ok(recording(2)));
    assert_eq!(find_recording(&store, 3), Ok(recording(3)));
    assert_eq!(find_recording(&store, 4), Err(StoreError::NotFound));
    assert_eq!(find_recording(&store, 1 << 40), Err(StoreError::NotFound));
}

#[test]
fn find_program_by_id() {
    let store = rock_hour(1);
    assert_eq!(find_program(&store, 1), Ok(program(1, "Rock hour", at(10, 0, 0), at(11, 0, 0))));
    assert_eq!(find_program(&store, 2), Err(StoreError::NotFound));
    assert_eq!(find_program(&store, -1), Err(StoreError::NotFound));
}

#[test]
fn happy_path_proposes_both_recordings() {
    let store = rock_hour(2);
    let mut candidates = store.select_candidates(at(10, 30, 0));
    candidates.sort();
    assert_eq!(candidates, vec![(1, 1), (1, 2)]);
    for _ in 0..20 {
        let (p, r) = select_next_recording(&store, at(10, 30, 0)).unwrap().unwrap();
        assert_eq!(p.id, 1);
        assert!(r == recording(1) || r == recording(2));
    }
}

#[test]
fn candidates_at_window_ends() {
    let store = rock_hour(1);
    assert_eq!(store.select_candidates(at(10, 0, 0)), vec![(1, 1)]);
    assert_eq!(store.select_candidates(at(11, 0, 0)), vec![(1, 1)]);
    assert!(store.select_candidates(at(9, 59, 59)).is_empty());
    assert!(store.select_candidates(at(11, 0, 1)).is_empty());
}

#[test]
fn nothing_on_air_means_nothing_to_play() {
    let store = rock_hour(3);
    assert!(store.select_candidates(at(12, 0, 0)).is_empty());
    assert_eq!(select_next_recording(&store, at(12, 0, 0)), Ok(None));
    assert_eq!(select_next_recording(&Schedule::new(), at(12, 0, 0)), Ok(None));
}

#[test]
fn recordings_need_a_shared_tag() {
    let mut store = rock_hour(2);
    assert!(store.add_recording(recording(3)));
    store.tag_recording(3, JAZZ);
    assert!(store.add_recording(recording(4)));
    let mut candidates = store.select_candidates(at(10, 30, 0));
    candidates.sort();
    assert_eq!(candidates, vec![(1, 1), (1, 2)]);
}

#[test]
fn several_shared_tags_give_one_candidate() {
    let mut store = rock_hour(1);
    store.tag_program(1, JAZZ);
    store.tag_recording(1, JAZZ);
    store.tag_recording(1, ROCK);
    assert_eq!(store.select_candidates(at(10, 30, 0)), vec![(1, 1)]);
}

#[test]
fn overlapping_programs_each_pair_up() {
    let mut store = rock_hour(2);
    assert!(store.add_program(program(2, "Jazz & rock", at(10, 15, 0), at(10, 45, 0))));
    store.tag_program(2, ROCK);
    let mut candidates = store.select_candidates(at(10, 30, 0));
    candidates.sort();
    assert_eq!(candidates, vec![(1, 1), (1, 2), (2, 1), (2, 2)]);
    let mut candidates = store.select_candidates(at(10, 50, 0));
    candidates.sort();
    assert_eq!(candidates, vec![(1, 1), (1, 2)]);
}

#[test]
fn recency_exclusion_empties_the_set() {
    // plays end with R3, R4, R5, R6, R7; only R7 is eligible by tag
    let mut store = Schedule::new();
    assert!(store.add_program(program(1, "Morning", at(10, 0, 0), at(11, 0, 0))));
    store.tag_program(1, ROCK);
    for id in 1..=7 {
        assert!(store.add_recording(recording(id)));
    }
    store.tag_recording(7, ROCK);
    for id in 1..=7 {
        play(&mut store, 1, id);
    }
    assert!(store.select_candidates(at(10, 30, 0)).is_empty());
    assert_eq!(select_next_recording(&store, at(10, 30, 0)), Ok(None));
}

#[test]
fn only_the_latest_five_plays_exclude() {
    let mut store = rock_hour(7);
    for id in 1..=7 {
        play(&mut store, 1, id);
    }
    // 3..=7 are the latest five
    let mut candidates = store.select_candidates(at(10, 30, 0));
    candidates.sort();
    assert_eq!(candidates, vec![(1, 1), (1, 2)]);
}

#[test]
fn single_recording_is_returned_until_recently_played() {
    let mut store = rock_hour(1);
    for _ in 0..5 {
        assert_eq!(store.select_candidates(at(10, 30, 0)), vec![(1, 1)]);
        let (p, r) = select_next_recording(&store, at(10, 30, 0)).unwrap().unwrap();
        assert_eq!((p.id, r.id), (1, 1));
    }
    play(&mut store, 1, 1);
    assert!(store.select_candidates(at(10, 30, 0)).is_empty());
    assert_eq!(select_next_recording(&store, at(10, 30, 0)), Ok(None));
}

#[test]
fn least_played_come_first() {
    let mut store = rock_hour(4);
    // old plays: 1 three times, 2 once, 3 twice, 4 never; then five plays of
    // recordings outside the program push them out of the latest five
    for id in [1, 1, 1, 2, 3, 3] {
        play(&mut store, 1, id);
    }
    for id in 101..=105 {
        assert!(store.add_recording(recording(id)));
        play(&mut store, 1, id);
    }
    assert_eq!(store.select_candidates(at(10, 30, 0)), vec![(1, 4), (1, 2), (1, 3), (1, 1)]);
}

#[test]
fn at_most_eight_candidates_and_the_least_played() {
    let mut store = rock_hour(12);
    // recordings 1..=4 have been played once, long ago
    for id in 1..=4 {
        play(&mut store, 1, id);
    }
    for id in 101..=105 {
        assert!(store.add_recording(recording(id)));
        play(&mut store, 1, id);
    }
    let candidates = store.select_candidates(at(10, 30, 0));
    assert_eq!(candidates.len(), 8);
    let mut ids: Vec<i64> = candidates.iter().map(|c| c.1).collect();
    ids.sort();
    assert_eq!(ids, vec![5, 6, 7, 8, 9, 10, 11, 12]);
    for _ in 0..20 {
        let (_, r) = select_next_recording(&store, at(10, 30, 0)).unwrap().unwrap();
        assert!(r.id >= 5 && r.id <= 12);
    }
}

#[test]
fn eight_candidates_include_played_ones_when_needed() {
    let mut store = rock_hour(9);
    for id in [1, 2, 2] {
        play(&mut store, 1, id);
    }
    for id in 101..=105 {
        assert!(store.add_recording(recording(id)));
        play(&mut store, 1, id);
    }
    let candidates = store.select_candidates(at(10, 30, 0));
    assert_eq!(candidates.len(), 8);
    // seven unplayed ones first, then the one played once; the one played
    // twice is left out
    let mut unplayed: Vec<i64> = candidates[..7].iter().map(|c| c.1).collect();
    unplayed.sort();
    assert_eq!(unplayed, vec![3, 4, 5, 6, 7, 8, 9]);
    assert_eq!(candidates[7], (1, 1));
}

#[test]
fn play_is_appended_with_the_next_id() {
    let mut store = rock_hour(2);
    assert_eq!(store.play_history_len(), 0);
    play(&mut store, 1, 2);
    assert_eq!(store.play_history_len(), 1);
    assert_eq!(store.play(0).recording_id, 2);
    play(&mut store, 1, 1);
    assert_eq!(store.play_history_len(), 2);
    assert_eq!(store.play(0).recording_id, 2);
    assert_eq!(store.play(1).recording_id, 1);
}

#[test]
fn play_rows_carry_program_and_start() {
    let mut store = rock_hour(2);
    play(&mut store, 1, 2);
    play(&mut store, 1, 1);
    assert_eq!(
        store.play(0),
        &Play {
            id: 1,
            recording_id: 2,
            program_id: 1,
            started_at: "2024-01-01T10:00:00+00:00".to_string(),
        }
    );
    assert_eq!(store.play(1).id, 2);
}

#[test]
fn earlier_plays_are_added_under_their_ids() {
    let row = |id: i64, recording_id: i32| Play {
        id,
        recording_id,
        program_id: 1,
        started_at: "2023-12-31T23:00:00+00:00".to_string(),
    };
    let mut store = rock_hour(2);
    assert!(store.add_play(row(10, 1)));
    assert!(store.add_play(row(12, 2)));
    assert!(!store.add_play(row(12, 1)));
    assert!(!store.add_play(row(3, 1)));
    assert_eq!(store.play_history_len(), 2);
    play(&mut store, 1, 1);
    assert_eq!(store.play(2).id, 13);
}

#[test]
fn full_history_refuses_plays() {
    let mut store = rock_hour(1);
    assert!(store.add_play(Play {
        id: i64::MAX,
        recording_id: 1,
        program_id: 1,
        started_at: String::new(),
    }));
    let p = find_program(&store, 1).unwrap();
    let r = find_recording(&store, 1).unwrap();
    assert_eq!(insert_play_record(&mut store, &p, &r, String::new()), Err(StoreError::Full));
    assert_eq!(store.play_history_len(), 1);
}

#[test]
fn inserted_play_is_seen_by_the_next_query() {
    let mut store = rock_hour(2);
    play(&mut store, 1, 1);
    assert_eq!(store.select_candidates(at(10, 30, 0)), vec![(1, 2)]);
}

#[test]
fn resolve_fetches_full_records() {
    let store = rock_hour(2);
    assert_eq!(store.resolve(None), Ok(None));
    assert_eq!(
        store.resolve(Some((1, 2))),
        Ok(Some((program(1, "Rock hour", at(10, 0, 0), at(11, 0, 0)), recording(2))))
    );
    assert_eq!(store.resolve(Some((2, 2))), Err(StoreError::NotFound));
    assert_eq!(store.resolve(Some((1, 3))), Err(StoreError::NotFound));
}

#[test]
fn resume_record_is_kept_once() {
    let mut store = Schedule::new();
    assert_eq!(store.take_resume(), None);
    store.save_resume(ResumeRecord { recording_id: 42, file_pos: 1_234_567 });
    store.save_resume(ResumeRecord { recording_id: 43, file_pos: 7 });
    assert_eq!(store.take_resume(), Some(ResumeRecord { recording_id: 43, file_pos: 7 }));
    assert_eq!(store.take_resume(), None);
}
