//! Catalog and schedule records.

use vstd::prelude::*;

verus! {

/// Seconds in one day.
pub const SECONDS_PER_DAY: u32 = 86_400;

/// Why the schedule store refused an operation.
#[derive(Debug, Clone, Copy, PartialEq, Eq, Structural)]
pub enum StoreError {
    /// No row has the id that was asked for.
    NotFound,
    /// A time of day was not written as `HH:MM:SS`.
    BadTime,
    /// The play history has used up its ids.
    Full,
}

#[verifier::external_type_specification]
#[verifier::external_body]
pub struct ExParseError(chrono::format::ParseError);

/// The second of the day that a text denotes when read as `%T`
/// (`HH:MM:SS`), if it denotes one.
pub uninterp spec fn parsed_clock(text: Seq<char>) -> Option<u32>;

/// `chrono::NaiveTime::parse_from_str` with the format `%T`, the time it
/// finds given as whole seconds since midnight
/// (`Timelike::num_seconds_from_midnight`), which are fewer than a day's.
#[verifier::external_body]
fn parse_clock(text: &str) -> (r: Result<u32, chrono::format::ParseError>)
    ensures
        match r {
            Ok(secs) => parsed_clock(text@) == Some(secs) && secs < SECONDS_PER_DAY,
            Err(_) => parsed_clock(text@) is None,
        },
{
    match chrono::NaiveTime::parse_from_str(text, "%T") {
        Ok(time) => Ok(chrono::Timelike::num_seconds_from_midnight(&time)),
        Err(e) => Err(e),
    }
}

/// `chrono::NaiveTime::from_hms_opt`, the time it makes given as whole
/// seconds since midnight (`Timelike::num_seconds_from_midnight`): a time
/// exists exactly for hours below 24 and minutes and seconds below 60.
#[verifier::external_body]
fn hms_seconds(hour: u32, minute: u32, second: u32) -> (r: Option<u32>)
    ensures
        hour < 24 && minute < 60 && second < 60 ==> r == Some(
            (hour * 3600 + minute * 60 + second) as u32,
        ),
        !(hour < 24 && minute < 60 && second < 60) ==> r is None,
{
    match chrono::NaiveTime::from_hms_opt(hour, minute, second) {
        Some(time) => Some(chrono::Timelike::num_seconds_from_midnight(&time)),
        None => None,
    }
}

/// A wall-clock time of day, to the whole second.
#[derive(Debug, Clone, Copy, PartialEq, Eq, Structural)]
pub struct TimeOfDay {
    secs: u32,
}

impl TimeOfDay {
    /// Whole seconds since midnight.
    pub closed spec fn spec_seconds(&self) -> nat {
        self.secs as nat
    }

    /// The time lies within one day.
    pub open spec fn well_formed(&self) -> bool {
        self.spec_seconds() < SECONDS_PER_DAY
    }

    /// The time of day that a parse result stands for: the second it found,
    /// or `BadTime` where it found none or one outside the day.
    pub open spec fn spec_from_parsed(parsed: Option<u32>) -> Result<nat, StoreError> {
        match parsed {
            Some(secs) => if secs < SECONDS_PER_DAY {
                Ok(secs as nat)
            } else {
                Err(StoreError::BadTime)
            },
            None => Err(StoreError::BadTime),
        }
    }

    /// The time `secs` seconds after midnight, if that is within the day.
    pub fn from_seconds(secs: u32) -> (time: Option<Self>)
        ensures
            secs < SECONDS_PER_DAY ==> {
                &&& time matches Some(t)
                &&& t.well_formed()
                &&& t.spec_seconds() == secs
            },
            secs >= SECONDS_PER_DAY ==> time is None,
    {
        if secs < SECONDS_PER_DAY {
            Some(TimeOfDay { secs })
        } else {
            None
        }
    }

    /// The time of day with the given hour, minute and second, if there is
    /// one.
    pub fn from_hms(hour: u32, minute: u32, second: u32) -> (time: Option<Self>)
        ensures
            hour < 24 && minute < 60 && second < 60 ==> {
                &&& time matches Some(t)
                &&& t.well_formed()
                &&& t.spec_seconds() == hour * 3600 + minute * 60 + second
            },
            !(hour < 24 && minute < 60 && second < 60) ==> time is None,
    {
        match hms_seconds(hour, minute, second) {
            Some(secs) => Some(TimeOfDay { secs }),
            None => None,
        }
    }

    /// Turns the outcome of reading a text as `HH:MM:SS` into a time of day.
    pub fn from_parsed(parsed: Option<u32>) -> (time: Result<Self, StoreError>)
        ensures
            match Self::spec_from_parsed(parsed) {
                Ok(secs) => {
                    &&& time matches Ok(t)
                    &&& t.well_formed()
                    &&& t.spec_seconds() == secs
                },
                Err(e) => time == Err::<Self, StoreError>(e),
            },
    {
        match parsed {
            Some(secs) => if secs < SECONDS_PER_DAY {
                Ok(TimeOfDay { secs })
            } else {
                Err(StoreError::BadTime)
            },
            None => Err(StoreError::BadTime),
        }
    }

    /// Reads a time of day written as `HH:MM:SS`, as the store keeps it.
    pub fn parse(text: &str) -> (time: Result<Self, StoreError>)
        ensures
            match Self::spec_from_parsed(parsed_clock(text@)) {
                Ok(secs) => {
                    &&& time matches Ok(t)
                    &&& t.well_formed()
                    &&& t.spec_seconds() == secs
                },
                Err(e) => time == Err::<Self, StoreError>(e),
            },
    {
        match parse_clock(text) {
            Ok(secs) => Self::from_parsed(Some(secs)),
            Err(_) => Self::from_parsed(None),
        }
    }

    /// Whole seconds since midnight.
    pub fn seconds(&self) -> (secs: u32)
        ensures
            secs == self.spec_seconds(),
    {
        self.secs
    }
}

/// A daily recurring window of the schedule.
#[derive(Debug, PartialEq, Eq)]
pub struct Program {
    pub id: i32,
    pub name: String,
    pub starts_at: TimeOfDay,
    pub ends_at: TimeOfDay,
}

impl Program {
    /// The program is on air at `now`: `starts_at <= now <= ends_at`, both
    /// ends included.
    pub open spec fn airing(&self, now: TimeOfDay) -> bool {
        self.starts_at.spec_seconds() <= now.spec_seconds() <= self.ends_at.spec_seconds()
    }

    /// Whether the program is on air at `now`.
    pub fn is_airing(&self, now: TimeOfDay) -> (b: bool)
        ensures
            b == self.airing(now),
    {
        self.starts_at.seconds() <= now.seconds() && now.seconds() <= self.ends_at.seconds()
    }
}

impl Clone for Program {
    fn clone(&self) -> (copy: Self)
        ensures
            copy == *self,
    {
        Program {
            id: self.id,
            name: self.name.clone(),
            starts_at: self.starts_at,
            ends_at: self.ends_at,
        }
    }
}

/// One audio file of the catalog.
#[derive(Debug, PartialEq, Eq)]
pub struct Recording {
    pub id: i32,
    pub filename: String,
    pub title: String,
    pub artist: String,
    pub link: Option<String>,
}

impl Clone for Recording {
    fn clone(&self) -> (copy: Self)
        ensures
            copy == *self,
    {
        let link = match &self.link {
            Some(text) => Some(text.clone()),
            None => None,
        };
        Recording {
            id: self.id,
            filename: self.filename.clone(),
            title: self.title.clone(),
            artist: self.artist.clone(),
            link,
        }
    }
}

/// A recording carries a tag.
#[derive(Debug, Clone, Copy, PartialEq, Eq, Structural)]
pub struct RecordingTag {
    pub recording_id: i32,
    pub tag_id: i32,
}

/// A program plays recordings that carry a tag.
#[derive(Debug, Clone, Copy, PartialEq, Eq, Structural)]
pub struct ProgramTag {
    pub program_id: i32,
    pub tag_id: i32,
}

/// One entry of the play history.
#[derive(Debug, PartialEq, Eq)]
pub struct Play {
    pub id: i64,
    pub recording_id: i32,
    pub program_id: i32,
    pub started_at: String,
}

/// Where a stopped track is to be taken up again.
#[derive(Debug, Clone, Copy, PartialEq, Eq, Structural)]
pub struct ResumeRecord {
    pub recording_id: i64,
    pub file_pos: u64,
}

} // verus!
