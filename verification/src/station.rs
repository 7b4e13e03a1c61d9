//! The station loop and the restart protocol: what to do next, given what
//! just happened. The surroundings open files, decode, encode, sleep and
//! watch the stop flag; every decision between those is made here.

use vstd::prelude::*;
use crate::db::models::{Play, Program, Recording, ResumeRecord, StoreError, TimeOfDay};
use crate::db::{find_recording, insert_play_record, next_play_id, select_next_recording, Schedule};
use crate::stream::BroadcastError;

verus! {

/// Seconds the station waits when nothing is eligible.
pub const IDLE_DELAY_SECS: u64 = 1;

/// Why the station gave up.
#[derive(Debug, PartialEq, Eq)]
pub enum Error {
    /// A recording could not be opened, read or positioned.
    Io(String),
    /// A sink pipeline failed.
    Broadcast(BroadcastError),
    /// The schedule store failed.
    Database(StoreError),
}

/// A point inside a track from which playback can be taken up again.
#[derive(Debug, PartialEq, Eq)]
pub struct ResumeInfo {
    pub recording: Recording,
    pub file_pos: u64,
}

impl ResumeInfo {
    /// The record that is persisted for this resume point.
    pub open spec fn spec_record(&self) -> ResumeRecord {
        ResumeRecord { recording_id: self.recording.id as i64, file_pos: self.file_pos }
    }

    /// The record that is persisted for this resume point.
    pub fn record(&self) -> (record: ResumeRecord)
        ensures
            record == self.spec_record(),
    {
        ResumeRecord { recording_id: self.recording.id as i64, file_pos: self.file_pos }
    }
}

/// The persisted slot after a resume record is saved into it: it holds that
/// record, whatever it held before.
pub open spec fn slot_after_save(slot: Option<ResumeRecord>, record: ResumeRecord) -> Option<
    ResumeRecord,
> {
    Some(record)
}

/// What loading hands out of the persisted slot, and the slot afterwards:
/// the record that was kept, and an empty slot.
pub open spec fn slot_after_load(slot: Option<ResumeRecord>) -> (
    Option<ResumeRecord>,
    Option<ResumeRecord>,
) {
    (slot, None)
}

/// A saved resume record is loaded back unchanged, and loading once more
/// finds none.
pub proof fn lemma_resume_round_trip(slot: Option<ResumeRecord>, record: ResumeRecord)
    ensures
        slot_after_load(slot_after_save(slot, record)).0 == Some(record),
        slot_after_load(slot_after_load(slot_after_save(slot, record)).1) == (
            None::<ResumeRecord>,
            None::<ResumeRecord>,
        ),
{
}

/// Persists the resume point in the store, in place of any kept before.
pub fn save_resume(store: &mut Schedule, info: &ResumeInfo)
    ensures
        final(store).resume() == slot_after_save(old(store).resume(), info.spec_record()),
        final(store).programs() == old(store).programs(),
        final(store).recordings() == old(store).recordings(),
        final(store).recording_tags() == old(store).recording_tags(),
        final(store).program_tags() == old(store).program_tags(),
        final(store).plays() == old(store).plays(),
{
    store.save_resume(info.record());
}

/// Loads the persisted resume point, if one is kept, and deletes it from
/// the store at once, whether or not its recording can still be found. A
/// record whose recording is gone gives `NotFound`.
pub fn load_resume(store: &mut Schedule) -> (loaded: Result<Option<ResumeInfo>, StoreError>)
    ensures
        final(store).resume() == slot_after_load(old(store).resume()).1,
        final(store).programs() == old(store).programs(),
        final(store).recordings() == old(store).recordings(),
        final(store).recording_tags() == old(store).recording_tags(),
        final(store).program_tags() == old(store).program_tags(),
        final(store).plays() == old(store).plays(),
        match old(store).resume() {
            None => loaded matches Ok(None),
            Some(record) => if old(store).has_recording(record.recording_id as int) {
                &&& loaded matches Ok(Some(info))
                &&& info.spec_record() == record
                &&& old(store).recordings().contains(info.recording)
            } else {
                loaded matches Err(StoreError::NotFound)
            },
        },
{
    match store.take_resume() {
        None => Ok(None),
        Some(record) => match find_recording(store, record.recording_id) {
            Ok(recording) => Ok(Some(ResumeInfo { recording, file_pos: record.file_pos })),
            Err(e) => Err(e),
        },
    }
}

/// Where the station loop stands.
#[derive(Debug, PartialEq, Eq)]
pub enum StationState {
    /// Between tracks: the next track is chosen once the time is known.
    Selecting,
    /// Nothing was eligible: waiting before choosing again.
    Waiting,
    /// A recording is being opened. `play` holds the program and the start
    /// time of a newly selected track, and nothing for a resumed one;
    /// `seek` holds the byte offset a resumed track starts from.
    Opening { recording: Recording, play: Option<(Program, String)>, seek: Option<u64> },
    /// Frames of the recording are being read and fanned out.
    Playing { recording: Recording },
    /// Playback was stopped: waiting for the byte offset reached.
    Stopping { recording: Recording },
    /// The loop ended with a resume point.
    Stopped,
    /// The loop ended with an error.
    Failed,
}

/// What the surroundings report to the station loop.
#[derive(Debug, PartialEq, Eq)]
pub enum StationEvent {
    /// The local time of day, to the second, and the same instant written
    /// out as a timestamp with zone.
    Time { now: TimeOfDay, started_at: String },
    /// The idle delay has passed.
    Slept,
    /// The recording is open, and positioned if a position was asked for.
    /// `run` is the stop flag as sampled now: `false` asks to stop.
    Opened { run: bool },
    /// The recording could not be opened or positioned.
    OpenFailed { message: String },
    /// A frame was read and written to every output. `run` is the stop flag
    /// as sampled now.
    FrameWritten { run: bool },
    /// The decoder skipped data that was no frame. `run` is the stop flag
    /// as sampled now.
    SkippedData { run: bool },
    /// An output failed on the frame.
    WriteFailed { error: BroadcastError },
    /// The decoder could not read the recording.
    DecodeFailed { message: String },
    /// The recording has ended.
    Eof,
    /// The byte offset the decoder has reached.
    Position { file_pos: u64 },
    /// The byte offset could not be read.
    PositionFailed { message: String },
}

/// What the surroundings are to do for the station loop.
#[derive(Debug, PartialEq, Eq)]
pub enum StationAction {
    /// Report the time of day.
    Select,
    /// Wait `IDLE_DELAY_SECS`, then report that.
    Sleep,
    /// Open the recording, at the byte offset `seek` if one is given, and
    /// report how that went.
    Open { recording: Recording, seek: Option<u64> },
    /// Read the next frame, write it to every output, and report how that
    /// went.
    ReadFrame,
    /// Report the byte offset the decoder has reached.
    QueryPosition,
    /// End the loop and hand this resume point to the supervisor.
    Return(ResumeInfo),
    /// End the loop with this error.
    Fail(Error),
    /// The event was not awaited; nothing changed.
    Ignored,
}

/// Playback goes on while the stop flag allows it, and winds down once it
/// does not.
pub open spec fn proceed(recording: Recording, run: bool) -> StationState {
    if run {
        StationState::Playing { recording }
    } else {
        StationState::Stopping { recording }
    }
}

/// The play history after a track has been opened: a newly selected track
/// adds exactly one play, under the next id; a resumed track adds none.
pub open spec fn plays_after_open(
    plays: Seq<Play>,
    recording: Recording,
    play: Option<(Program, String)>,
) -> Seq<Play> {
    match play {
        Some((program, started_at)) => plays.push(
            Play {
                id: next_play_id(plays) as i64,
                recording_id: recording.id,
                program_id: program.id,
                started_at,
            },
        ),
        None => plays,
    }
}

/// The station loop: the schedule store it owns while it runs, and where it
/// stands.
pub struct Station {
    store: Schedule,
    state: StationState,
}

impl Station {
    /// The schedule store.
    pub closed spec fn store(&self) -> Schedule {
        self.store
    }

    /// Where the loop stands.
    pub closed spec fn state(&self) -> StationState {
        self.state
    }

    /// The state a station starts in: with a resume point, opening its
    /// recording at its byte offset, with no play to record; without one,
    /// selecting.
    pub open spec fn initial(resume: Option<ResumeInfo>) -> StationState {
        match resume {
            Some(info) => StationState::Opening {
                recording: info.recording,
                play: None,
                seek: Some(info.file_pos),
            },
            None => StationState::Selecting,
        }
    }

    /// A station over `store`. A resume point, if given, is consumed here:
    /// it is the first track, and nothing of it is kept beyond that.
    pub fn new(store: Schedule, resume: Option<ResumeInfo>) -> (station: Self)
        ensures
            station.store() == store,
            station.state() == Self::initial(resume),
    {
        let state = match resume {
            Some(info) => StationState::Opening {
                recording: info.recording,
                play: None,
                seek: Some(info.file_pos),
            },
            None => StationState::Selecting,
        };
        Station { store, state }
    }

    /// The first request of a station that was just made: open the resumed
    /// recording at its byte offset, or report the time so that a track can
    /// be selected.
    pub fn start(&self) -> (action: StationAction)
        ensures
            match self.state() {
                StationState::Selecting => action is Select,
                StationState::Waiting => action is Sleep,
                StationState::Opening { recording, play, seek } => action
                    == (StationAction::Open { recording, seek }),
                StationState::Playing { .. } => action is ReadFrame,
                StationState::Stopping { .. } => action is QueryPosition,
                StationState::Stopped => action is Ignored,
                StationState::Failed => action is Ignored,
            },
    {
        match &self.state {
            StationState::Selecting => StationAction::Select,
            StationState::Waiting => StationAction::Sleep,
            StationState::Opening { recording, play, seek } => StationAction::Open {
                recording: recording.clone(),
                seek: *seek,
            },
            StationState::Playing { .. } => StationAction::ReadFrame,
            StationState::Stopping { .. } => StationAction::QueryPosition,
            StationState::Stopped => StationAction::Ignored,
            StationState::Failed => StationAction::Ignored,
        }
    }

    /// Where the loop stands.
    pub fn phase(&self) -> (state: &StationState)
        ensures
            *state == self.state(),
    {
        &self.state
    }

    /// The schedule store, to look at.
    pub fn schedule(&self) -> (store: &Schedule)
        ensures
            *store == self.store(),
    {
        &self.store
    }

    /// Gives the store back once the loop is over.
    pub fn into_store(self) -> (store: Schedule)
        ensures
            store == self.store(),
    {
        self.store
    }

    /// Whether the loop has ended.
    pub fn is_over(&self) -> (over: bool)
        ensures
            over == (self.state() is Stopped || self.state() is Failed),
    {
        match &self.state {
            StationState::Stopped => true,
            StationState::Failed => true,
            _ => false,
        }
    }

    /// One decision of the station loop.
    ///
    /// Selecting, told the time: with no eligible pair the station waits;
    /// otherwise it opens the recording of an eligible pair, chosen at
    /// random among the store's proposals. Having waited, it selects again.
    ///
    /// Opening, told that the recording is open: a newly selected track is
    /// recorded as exactly one play before any frame is asked for; a
    /// resumed track is not recorded. Then playback goes on or winds down as
    /// the stop flag says. A recording that cannot be opened ends the loop.
    ///
    /// Playing: after each frame and each skip the stop flag decides whether
    /// another frame is read or the byte offset is asked for. The end of the
    /// recording leads back to selecting. A failed output or decoder ends
    /// the loop.
    ///
    /// Stopping, told the byte offset: the loop ends with the resume point
    /// of the recording at that offset.
    ///
    /// Only the opening of a newly selected track touches the store, and
    /// only its play history. An event the state does not await changes
    /// nothing.
    pub fn run(self, event: StationEvent) -> (next: (Station, StationAction))
        requires
            self.store().well_formed(),
        ensures
            next.0.store().well_formed(),
            next.0.store().programs() == self.store().programs(),
            next.0.store().recordings() == self.store().recordings(),
            next.0.store().recording_tags() == self.store().recording_tags(),
            next.0.store().program_tags() == self.store().program_tags(),
            next.0.store().resume() == self.store().resume(),
            !(self.state() is Opening && event is Opened) ==> next.0.store().plays()
                == self.store().plays(),
            match (self.state(), event) {
                (StationState::Selecting, StationEvent::Time { now, started_at }) => {
                    if forall|program_id: int, recording_id: int|
                        !self.store().eligible(now, program_id, recording_id) {
                        &&& next.0.state() is Waiting
                        &&& next.1 is Sleep
                    } else {
                        &&& next.0.state() matches StationState::Opening { recording, play, seek }
                        &&& play matches Some((program, stamp))
                        &&& stamp == started_at
                        &&& seek is None
                        &&& self.store().eligible(now, program.id as int, recording.id as int)
                        &&& self.store().programs().contains(program)
                        &&& self.store().recordings().contains(recording)
                        &&& exists|out: Seq<(i64, i64)>| #[trigger]
                            self.store().proposes(now, out) && out.contains(
                                (program.id as i64, recording.id as i64),
                            )
                        &&& next.1 == (StationAction::Open { recording, seek: None })
                    }
                },
                (StationState::Waiting, StationEvent::Slept) => {
                    &&& next.0.state() is Selecting
                    &&& next.1 is Select
                },
                (StationState::Opening { recording, play, seek }, StationEvent::Opened { run }) => {
                    if play is Some && next_play_id(self.store().plays()) > i64::MAX {
                        &&& next.0.state() is Failed
                        &&& next.0.store().plays() == self.store().plays()
                        &&& next.1 matches StationAction::Fail(Error::Database(StoreError::Full))
                    } else {
                        &&& next.0.store().plays() == plays_after_open(
                            self.store().plays(),
                            recording,
                            play,
                        )
                        &&& next.0.state() == proceed(recording, run)
                        &&& run ==> next.1 is ReadFrame
                        &&& !run ==> next.1 is QueryPosition
                    }
                },
                (StationState::Opening { .. }, StationEvent::OpenFailed { message }) => {
                    &&& next.0.state() is Failed
                    &&& next.1 matches StationAction::Fail(Error::Io(m))
                    &&& m == message
                },
                (StationState::Playing { recording }, StationEvent::FrameWritten { run })
                | (StationState::Playing { recording }, StationEvent::SkippedData { run }) => {
                    &&& next.0.state() == proceed(recording, run)
                    &&& run ==> next.1 is ReadFrame
                    &&& !run ==> next.1 is QueryPosition
                },
                (StationState::Playing { .. }, StationEvent::Eof) => {
                    &&& next.0.state() is Selecting
                    &&& next.1 is Select
                },
                (StationState::Playing { .. }, StationEvent::WriteFailed { error }) => {
                    &&& next.0.state() is Failed
                    &&& next.1 matches StationAction::Fail(Error::Broadcast(e))
                    &&& e == error
                },
                (StationState::Playing { .. }, StationEvent::DecodeFailed { message }) => {
                    &&& next.0.state() is Failed
                    &&& next.1 matches StationAction::Fail(Error::Io(m))
                    &&& m == message
                },
                (StationState::Stopping { recording }, StationEvent::Position { file_pos }) => {
                    &&& next.0.state() is Stopped
                    &&& next.1 == StationAction::Return(ResumeInfo { recording, file_pos })
                },
                (StationState::Stopping { .. }, StationEvent::PositionFailed { message }) => {
                    &&& next.0.state() is Failed
                    &&& next.1 matches StationAction::Fail(Error::Io(m))
                    &&& m == message
                },
                _ => {
                    &&& next.0.state() == self.state()
                    &&& next.1 is Ignored
                },
            },
    {
        let Station { store, state } = self;
        let mut store = store;
        match state {
            StationState::Selecting => match event {
                StationEvent::Time { now, started_at } => {
                    match select_next_recording(&store, now) {
                        Ok(None) => (
                            Station { store, state: StationState::Waiting },
                            StationAction::Sleep,
                        ),
                        Ok(Some((program, recording))) => {
                            let copy = recording.clone();
                            (
                                Station {
                                    store,
                                    state: StationState::Opening {
                                        recording,
                                        play: Some((program, started_at)),
                                        seek: None,
                                    },
                                },
                                StationAction::Open { recording: copy, seek: None },
                            )
                        },
                        Err(e) => (
                            Station { store, state: StationState::Failed },
                            StationAction::Fail(Error::Database(e)),
                        ),
                    }
                },
                _ => (Station { store, state: StationState::Selecting }, StationAction::Ignored),
            },
            StationState::Waiting => match event {
                StationEvent::Slept => (
                    Station { store, state: StationState::Selecting },
                    StationAction::Select,
                ),
                _ => (Station { store, state: StationState::Waiting }, StationAction::Ignored),
            },
            StationState::Opening { recording, play, seek } => match event {
                StationEvent::Opened { run } => {
                    let recorded = match &play {
                        Some((program, started_at)) => insert_play_record(
                            &mut store,
                            program,
                            &recording,
                            started_at.clone(),
                        ),
                        None => Ok(()),
                    };
                    match recorded {
                        Ok(()) => if run {
                            (
                                Station { store, state: StationState::Playing { recording } },
                                StationAction::ReadFrame,
                            )
                        } else {
                            (
                                Station { store, state: StationState::Stopping { recording } },
                                StationAction::QueryPosition,
                            )
                        },
                        Err(e) => (
                            Station { store, state: StationState::Failed },
                            StationAction::Fail(Error::Database(e)),
                        ),
                    }
                },
                StationEvent::OpenFailed { message } => (
                    Station { store, state: StationState::Failed },
                    StationAction::Fail(Error::Io(message)),
                ),
                _ => (
                    Station { store, state: StationState::Opening { recording, play, seek } },
                    StationAction::Ignored,
                ),
            },
            StationState::Playing { recording } => match event {
                StationEvent::FrameWritten { run } | StationEvent::SkippedData { run } => if run {
                    (
                        Station { store, state: StationState::Playing { recording } },
                        StationAction::ReadFrame,
                    )
                } else {
                    (
                        Station { store, state: StationState::Stopping { recording } },
                        StationAction::QueryPosition,
                    )
                },
                StationEvent::Eof => (
                    Station { store, state: StationState::Selecting },
                    StationAction::Select,
                ),
                StationEvent::WriteFailed { error } => (
                    Station { store, state: StationState::Failed },
                    StationAction::Fail(Error::Broadcast(error)),
                ),
                StationEvent::DecodeFailed { message } => (
                    Station { store, state: StationState::Failed },
                    StationAction::Fail(Error::Io(message)),
                ),
                _ => (
                    Station { store, state: StationState::Playing { recording } },
                    StationAction::Ignored,
                ),
            },
            StationState::Stopping { recording } => match event {
                StationEvent::Position { file_pos } => (
                    Station { store, state: StationState::Stopped },
                    StationAction::Return(ResumeInfo { recording, file_pos }),
                ),
                StationEvent::PositionFailed { message } => (
                    Station { store, state: StationState::Failed },
                    StationAction::Fail(Error::Io(message)),
                ),
                _ => (
                    Station { store, state: StationState::Stopping { recording } },
                    StationAction::Ignored,
                ),
            },
            StationState::Stopped => (
                Station { store, state: StationState::Stopped },
                StationAction::Ignored,
            ),
            StationState::Failed => (
                Station { store, state: StationState::Failed },
                StationAction::Ignored,
            ),
        }
    }
}

} // verus!
