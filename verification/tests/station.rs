use edifm::db::models::{Play, Program, Recording, ResumeRecord, StoreError, TimeOfDay};
use edifm::db::Schedule;
use edifm::station::{
    load_resume, save_resume, Error, ResumeInfo, Station, StationAction, StationEvent,
    StationState, IDLE_DELAY_SECS,
};
use edifm::stream::{BroadcastError, EncodeFailure};

fn at(hour: u32, minute: u32, second: u32) -> TimeOfDay {
    TimeOfDay::from_hms(hour, minute, second).unwrap()
}

fn recording(id: i32) -> Recording {
    Recording {
        id,
        filename: format!("r{}.mp3", id),
        title: format!("Title {}", id),
        artist: format!("Artist {}", id),
        link: None,
    }
}

fn rock_hour(ids: &[i32]) -> Schedule {
    let mut store = Schedule::new();
    assert!(store.add_program(Program {
        id: 1,
        name: "Rock hour".to_string(),
        starts_at: at(10, 0, 0),
        ends_at: at(11, 0, 0),
    }));
    store.tag_program(1, 1);
    for id in ids {
        assert!(store.add_recording(recording(*id)));
        store.tag_recording(*id, 1);
    }
    store
}

fn time(hour: u32, minute: u32) -> StationEvent {
    StationEvent::Time { now: at(hour, minute, 0), started_at: "2024-01-01T10:30:00+01:00".to_string() }
}

#[test]
fn idle_delay() {
    assert_eq!(IDLE_DELAY_SECS, 1);
}

#[test]
fn fresh_station_asks_for_the_time() {
    let station = Station::new(rock_hour(&[1]), None);
    assert_eq!(station.phase(), &StationState::Selecting);
    assert_eq!(station.start(), StationAction::Select);
    assert!(!station.is_over());
}

#[test]
fn empty_candidate_set_sleeps_and_retries() {
    let station = Station::new(rock_hour(&[1]), None);
    let (station, action) = station.run(time(12, 0));
    assert_eq!(action, StationAction::Sleep);
    assert_eq!(station.phase(), &StationState::Waiting);
    let (station, action) = station.run(StationEvent::Slept);
    assert_eq!(action, StationAction::Select);
    assert_eq!(station.phase(), &StationState::Selecting);
    let (station, action) = station.run(time(12, 0));
    assert_eq!(action, StationAction::Sleep);
    assert!(!station.is_over());
    assert_eq!(station.schedule().play_history_len(), 0);
}

#[test]
fn selected_track_is_recorded_once_before_the_first_frame() {
    let station = Station::new(rock_hour(&[1]), None);
    let (station, action) = station.run(time(10, 30));
    assert_eq!(action, StationAction::Open { recording: recording(1), seek: None });
    // nothing is recorded before the file is open
    assert_eq!(station.schedule().play_history_len(), 0);
    let (station, action) = station.run(StationEvent::Opened { run: true });
    assert_eq!(action, StationAction::ReadFrame);
    assert_eq!(station.phase(), &StationState::Playing { recording: recording(1) });
    assert_eq!(station.schedule().play_history_len(), 1);
    assert_eq!(station.schedule().play(0).recording_id, 1);
    // frames add no plays
    let (station, action) = station.run(StationEvent::FrameWritten { run: true });
    assert_eq!(action, StationAction::ReadFrame);
    let (station, action) = station.run(StationEvent::SkippedData { run: true });
    assert_eq!(action, StationAction::ReadFrame);
    let (station, action) = station.run(StationEvent::FrameWritten { run: true });
    assert_eq!(action, StationAction::ReadFrame);
    assert_eq!(station.schedule().play_history_len(), 1);
    // the play is seen by the next query
    assert!(station.schedule().select_candidates(at(10, 30, 0)).is_empty());
}

#[test]
fn happy_path_plays_one_of_the_two() {
    let station = Station::new(rock_hour(&[1, 2]), None);
    let (station, action) = station.run(time(10, 30));
    let chosen = match action {
        StationAction::Open { recording, seek: None } => recording,
        other => panic!("unexpected action {:?}", other),
    };
    assert!(chosen == recording(1) || chosen == recording(2));
    let (station, action) = station.run(StationEvent::Opened { run: true });
    assert_eq!(action, StationAction::ReadFrame);
    assert_eq!(station.schedule().play_history_len(), 1);
    assert_eq!(station.schedule().play(0).recording_id, chosen.id);
}

#[test]
fn end_of_file_leads_to_the_next_track() {
    let station = Station::new(rock_hour(&[1, 2]), None);
    let (station, _) = station.run(time(10, 30));
    let (station, _) = station.run(StationEvent::Opened { run: true });
    let first = station.schedule().play(0).recording_id;
    let (station, action) = station.run(StationEvent::Eof);
    assert_eq!(action, StationAction::Select);
    assert_eq!(station.phase(), &StationState::Selecting);
    let (station, action) = station.run(time(10, 35));
    // the one just played is among the latest plays, so the other is chosen
    let other = if first == 1 { 2 } else { 1 };
    assert_eq!(action, StationAction::Open { recording: recording(other), seek: None });
    let (station, _) = station.run(StationEvent::Opened { run: true });
    assert_eq!(station.schedule().play_history_len(), 2);
    assert_eq!(station.schedule().play(1).recording_id, other);
}

#[test]
fn graceful_restart() {
    let mut store = rock_hour(&[]);
    assert!(store.add_recording(recording(42)));
    store.tag_recording(42, 1);
    // mid-track, the stop flag is cleared
    let station = Station::new(store, None);
    let (station, _) = station.run(time(10, 30));
    let (station, _) = station.run(StationEvent::Opened { run: true });
    let (station, action) = station.run(StationEvent::FrameWritten { run: false });
    assert_eq!(action, StationAction::QueryPosition);
    assert_eq!(station.phase(), &StationState::Stopping { recording: recording(42) });
    let (station, action) = station.run(StationEvent::Position { file_pos: 1_234_567 });
    let info = match action {
        StationAction::Return(info) => info,
        other => panic!("unexpected action {:?}", other),
    };
    assert_eq!(info, ResumeInfo { recording: recording(42), file_pos: 1_234_567 });
    assert!(station.is_over());
    assert_eq!(station.phase(), &StationState::Stopped);
    // the supervisor persists it
    let mut store = station.into_store();
    assert_eq!(store.play_history_len(), 1);
    save_resume(&mut store, &info);
    // on next start it is loaded and deleted
    let resume = load_resume(&mut store).unwrap();
    assert_eq!(resume, Some(ResumeInfo { recording: recording(42), file_pos: 1_234_567 }));
    assert_eq!(load_resume(&mut store), Ok(None));
    // the track is taken up where it stopped, with no new play
    let station = Station::new(store, resume);
    assert_eq!(
        station.start(),
        StationAction::Open { recording: recording(42), seek: Some(1_234_567) }
    );
    let (station, action) = station.run(StationEvent::Opened { run: true });
    assert_eq!(action, StationAction::ReadFrame);
    assert_eq!(station.phase(), &StationState::Playing { recording: recording(42) });
    assert_eq!(station.schedule().play_history_len(), 1);
    // once it ends, the loop selects as usual
    let (station, action) = station.run(StationEvent::Eof);
    assert_eq!(action, StationAction::Select);
    assert_eq!(station.schedule().play_history_len(), 1);
}

#[test]
fn stop_before_the_first_frame() {
    let station = Station::new(rock_hour(&[1]), None);
    let (station, _) = station.run(time(10, 30));
    let (station, action) = station.run(StationEvent::Opened { run: false });
    assert_eq!(action, StationAction::QueryPosition);
    // the track was started, so its play is recorded
    assert_eq!(station.schedule().play_history_len(), 1);
    let (station, action) = station.run(StationEvent::Position { file_pos: 0 });
    assert_eq!(action, StationAction::Return(ResumeInfo { recording: recording(1), file_pos: 0 }));
    assert!(station.is_over());
}

#[test]
fn stop_after_skipped_data() {
    let station = Station::new(rock_hour(&[1]), None);
    let (station, _) = station.run(time(10, 30));
    let (station, _) = station.run(StationEvent::Opened { run: true });
    let (station, action) = station.run(StationEvent::SkippedData { run: false });
    assert_eq!(action, StationAction::QueryPosition);
    assert_eq!(station.phase(), &StationState::Stopping { recording: recording(1) });
}

#[test]
fn failures_end_the_loop() {
    let opened = || {
        let station = Station::new(rock_hour(&[1]), None);
        let (station, _) = station.run(time(10, 30));
        station
    };
    let (station, action) =
        opened().run(StationEvent::OpenFailed { message: "no such file".to_string() });
    assert_eq!(action, StationAction::Fail(Error::Io("no such file".to_string())));
    assert!(station.is_over());
    assert_eq!(station.phase(), &StationState::Failed);
    // a file that could not be opened was never played
    assert_eq!(station.schedule().play_history_len(), 0);

    let playing = || opened().run(StationEvent::Opened { run: true }).0;
    let error = BroadcastError::Lame(EncodeFailure::NoMem);
    let (station, action) = playing().run(StationEvent::WriteFailed { error: error.clone() });
    assert_eq!(action, StationAction::Fail(Error::Broadcast(error)));
    assert!(station.is_over());

    let error = BroadcastError::Io("broken pipe".to_string());
    let (station, action) = playing().run(StationEvent::WriteFailed { error: error.clone() });
    assert_eq!(action, StationAction::Fail(Error::Broadcast(error)));
    assert!(station.is_over());

    let (station, action) =
        playing().run(StationEvent::DecodeFailed { message: "read error".to_string() });
    assert_eq!(action, StationAction::Fail(Error::Io("read error".to_string())));
    assert!(station.is_over());

    let stopping = || playing().run(StationEvent::FrameWritten { run: false }).0;
    let (station, action) =
        stopping().run(StationEvent::PositionFailed { message: "seek".to_string() });
    assert_eq!(action, StationAction::Fail(Error::Io("seek".to_string())));
    assert!(station.is_over());
    let (station, action) = station.run(StationEvent::Slept);
    assert_eq!(action, StationAction::Ignored);
    assert_eq!(station.phase(), &StationState::Failed);
}

#[test]
fn unawaited_events_are_ignored() {
    let station = Station::new(rock_hour(&[1]), None);
    let (station, action) = station.run(StationEvent::Slept);
    assert_eq!(action, StationAction::Ignored);
    assert_eq!(station.phase(), &StationState::Selecting);
    let (station, action) = station.run(StationEvent::Eof);
    assert_eq!(action, StationAction::Ignored);
    let (station, _) = station.run(time(10, 30));
    let (station, action) = station.run(StationEvent::FrameWritten { run: true });
    assert_eq!(action, StationAction::Ignored);
    assert_eq!(station.start(), StationAction::Open { recording: recording(1), seek: None });
    let (station, _) = station.run(StationEvent::Opened { run: true });
    let (station, action) = station.run(StationEvent::Position { file_pos: 3 });
    assert_eq!(action, StationAction::Ignored);
    assert_eq!(station.phase(), &StationState::Playing { recording: recording(1) });
    assert_eq!(station.schedule().play_history_len(), 1);
}

#[test]
fn full_history_ends_the_loop() {
    let mut store = rock_hour(&[1, 2, 3, 4, 5, 6, 7]);
    // six older plays keep recording 1 out of the latest five
    for (k, id) in [1, 2, 3, 4, 5, 6].iter().enumerate() {
        assert!(store.add_play(Play {
            id: i64::MAX - 5 + k as i64,
            recording_id: *id,
            program_id: 1,
            started_at: String::new(),
        }));
    }
    let station = Station::new(store, None);
    let (station, action) = station.run(time(10, 30));
    assert!(matches!(action, StationAction::Open { seek: None, .. }));
    let (station, action) = station.run(StationEvent::Opened { run: true });
    assert_eq!(action, StationAction::Fail(Error::Database(StoreError::Full)));
    assert!(station.is_over());
    assert_eq!(station.schedule().play_history_len(), 6);
}

#[test]
fn resume_round_trip() {
    let mut store = rock_hour(&[7, 42]);
    assert_eq!(load_resume(&mut store), Ok(None));
    let info = ResumeInfo { recording: recording(42), file_pos: u64::MAX };
    assert_eq!(info.record(), ResumeRecord { recording_id: 42, file_pos: u64::MAX });
    save_resume(&mut store, &info);
    assert_eq!(load_resume(&mut store), Ok(Some(info)));
    assert_eq!(load_resume(&mut store), Ok(None));
}

#[test]
fn later_save_replaces_the_earlier() {
    let mut store = rock_hour(&[7, 42]);
    save_resume(&mut store, &ResumeInfo { recording: recording(42), file_pos: 1 });
    save_resume(&mut store, &ResumeInfo { recording: recording(7), file_pos: 2 });
    assert_eq!(load_resume(&mut store), Ok(Some(ResumeInfo { recording: recording(7), file_pos: 2 })));
    assert_eq!(load_resume(&mut store), Ok(None));
}

#[test]
fn resume_of_a_vanished_recording_is_dropped() {
    let mut store = rock_hour(&[7]);
    save_resume(&mut store, &ResumeInfo { recording: recording(42), file_pos: 9 });
    assert_eq!(load_resume(&mut store), Err(StoreError::NotFound));
    // the stale record is gone all the same
    assert_eq!(load_resume(&mut store), Ok(None));
}
