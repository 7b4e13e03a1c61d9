//! The schedule store: programs, recordings, tags and play history, and the
//! query that proposes what to play next.

pub mod models;

use vstd::prelude::*;
use crate::db::models::{Play, Program, ProgramTag, Recording, RecordingTag, ResumeRecord, StoreError, TimeOfDay};

verus! {

/// How many of the latest plays keep a recording from being proposed.
pub const RECENT_PLAYS: usize = 5;

/// The most candidates one query proposes.
pub const MAX_CANDIDATES: usize = 8;

/// The two rows give the recording and the program one and the same tag.
pub open spec fn tag_link(
    recording_tag: RecordingTag,
    program_tag: ProgramTag,
    program_id: int,
    recording_id: int,
) -> bool {
    &&& recording_tag.recording_id == recording_id
    &&& program_tag.program_id == program_id
    &&& recording_tag.tag_id == program_tag.tag_id
}

/// A recording and a program share at least one tag.
pub open spec fn share_tag(
    recording_tags: Seq<RecordingTag>,
    program_tags: Seq<ProgramTag>,
    program_id: int,
    recording_id: int,
) -> bool {
    exists|i: int, j: int|
        0 <= i < recording_tags.len() && 0 <= j < program_tags.len() && tag_link(
            #[trigger] recording_tags[i],
            #[trigger] program_tags[j],
            program_id,
            recording_id,
        )
}

/// The recording is among the latest `RECENT_PLAYS` entries of a play
/// history that is ordered by ascending id.
pub open spec fn recently_played(plays: Seq<Play>, recording_id: int) -> bool {
    exists|k: int|
        0 <= k < plays.len() && plays.len() - k <= RECENT_PLAYS && (
        #[trigger] plays[k]).recording_id == recording_id
}

/// How many entries of the play history are plays of the recording.
pub open spec fn play_count(plays: Seq<Play>, recording_id: int) -> nat
    decreases plays.len(),
{
    if plays.len() == 0 {
        0
    } else {
        play_count(plays.drop_last(), recording_id) + if plays.last().recording_id
            == recording_id {
            1nat
        } else {
            0nat
        }
    }
}

/// Ids of the history rise strictly with the position.
pub open spec fn ids_ascend(plays: Seq<Play>) -> bool {
    forall|i: int, j: int| 0 <= i < j < plays.len() ==> (#[trigger] plays[i]).id < (
    #[trigger] plays[j]).id
}

/// No two programs share an id.
pub open spec fn program_ids_distinct(programs: Seq<Program>) -> bool {
    forall|a: int, b: int|
        0 <= a < b < programs.len() ==> (#[trigger] programs[a]).id != (#[trigger] programs[b]).id
}

/// Every program starts no later than it ends.
pub open spec fn windows_ordered(programs: Seq<Program>) -> bool {
    forall|a: int|
        0 <= a < programs.len() ==> (#[trigger] programs[a]).starts_at.spec_seconds()
            <= programs[a].ends_at.spec_seconds()
}

/// No two recordings share an id.
pub open spec fn recording_ids_distinct(recordings: Seq<Recording>) -> bool {
    forall|a: int, b: int|
        0 <= a < b < recordings.len() ==> (#[trigger] recordings[a]).id != (
        #[trigger] recordings[b]).id
}

/// The id the next play is given: one more than the latest, or 1 for the
/// first.
pub open spec fn next_play_id(plays: Seq<Play>) -> int {
    if plays.len() == 0 {
        1
    } else {
        plays.last().id + 1
    }
}

/// An in-memory schedule store.
pub struct Schedule {
    programs: Vec<Program>,
    recordings: Vec<Recording>,
    recording_tags: Vec<RecordingTag>,
    program_tags: Vec<ProgramTag>,
    plays: Vec<Play>,
    resume: Option<ResumeRecord>,
}

impl Schedule {
    /// The programs, in the order they were added.
    pub closed spec fn programs(&self) -> Seq<Program> {
        self.programs@
    }

    /// The recordings, in the order they were added.
    pub closed spec fn recordings(&self) -> Seq<Recording> {
        self.recordings@
    }

    /// The tags of the recordings.
    pub closed spec fn recording_tags(&self) -> Seq<RecordingTag> {
        self.recording_tags@
    }

    /// The tags of the programs.
    pub closed spec fn program_tags(&self) -> Seq<ProgramTag> {
        self.program_tags@
    }

    /// The play history, oldest first.
    pub closed spec fn plays(&self) -> Seq<Play> {
        self.plays@
    }

    /// The persisted resume record, if one is kept.
    pub closed spec fn resume(&self) -> Option<ResumeRecord> {
        self.resume
    }

    /// A program with this id exists.
    pub open spec fn has_program(&self, id: int) -> bool {
        exists|a: int| 0 <= a < self.programs().len() && (#[trigger] self.programs()[a]).id == id
    }

    /// A recording with this id exists.
    pub open spec fn has_recording(&self, id: int) -> bool {
        exists|b: int| 0 <= b < self.recordings().len() && (#[trigger] self.recordings()[b]).id == id
    }

    /// No two programs and no two recordings share an id, every program
    /// starts no later than it ends, and the play history's ids ascend.
    pub open spec fn well_formed(&self) -> bool {
        &&& program_ids_distinct(self.programs())
        &&& windows_ordered(self.programs())
        &&& recording_ids_distinct(self.recordings())
        &&& ids_ascend(self.plays())
    }

    /// The recording's plays in the history.
    pub open spec fn count_of(&self, recording_id: int) -> nat {
        play_count(self.plays(), recording_id)
    }

    /// The pair may be played at `now`: the program exists and is on air,
    /// the recording exists, the two share a tag, and the recording is not
    /// among the latest plays.
    pub open spec fn eligible(&self, now: TimeOfDay, program_id: int, recording_id: int) -> bool {
        &&& exists|a: int|
            0 <= a < self.programs().len() && (#[trigger] self.programs()[a]).id == program_id
                && self.programs()[a].airing(now)
        &&& self.has_recording(recording_id)
        &&& share_tag(self.recording_tags(), self.program_tags(), program_id, recording_id)
        &&& !recently_played(self.plays(), recording_id)
    }

    /// `out` is a list of proposals for `now`: at most `MAX_CANDIDATES`
    /// pairs of program id and recording id, each of them eligible, none
    /// twice, least played first, and complete in that an eligible pair is
    /// missing only from a full list of pairs played no more often.
    pub open spec fn proposes(&self, now: TimeOfDay, out: Seq<(i64, i64)>) -> bool {
        &&& out.len() <= MAX_CANDIDATES
        &&& forall|i: int|
            0 <= i < out.len() ==> self.eligible(now, (#[trigger] out[i]).0 as int, out[i].1 as int)
        &&& forall|i: int, j: int| 0 <= i < j < out.len() ==> (#[trigger] out[i]) != (#[trigger] out[j])
        &&& forall|i: int, j: int|
            0 <= i < j < out.len() ==> self.count_of((#[trigger] out[i]).1 as int) <= self.count_of(
                (#[trigger] out[j]).1 as int,
            )
        &&& forall|program_id: int, recording_id: int| #[trigger]
            self.eligible(now, program_id, recording_id) ==> out.contains(
                (program_id as i64, recording_id as i64),
            ) || (out.len() == MAX_CANDIDATES && forall|i: int|
                0 <= i < out.len() ==> self.count_of((#[trigger] out[i]).1 as int) <= self.count_of(
                    recording_id,
                ))
    }

    /// An empty store.
    pub fn new() -> (store: Self)
        ensures
            store.well_formed(),
            store.programs().len() == 0,
            store.recordings().len() == 0,
            store.recording_tags().len() == 0,
            store.program_tags().len() == 0,
            store.plays().len() == 0,
            store.resume() is None,
    {
        Schedule {
            programs: Vec::new(),
            recordings: Vec::new(),
            recording_tags: Vec::new(),
            program_tags: Vec::new(),
            plays: Vec::new(),
            resume: None,
        }
    }

    /// Whether a program with this id exists.
    pub fn contains_program(&self, id: i64) -> (b: bool)
        ensures
            b == self.has_program(id as int),
    {
        let mut a: usize = 0;
        while a < self.programs.len()
            invariant
                a <= self.programs@.len(),
                forall|x: int| 0 <= x < a ==> (#[trigger] self.programs@[x]).id != id,
            decreases self.programs@.len() - a,
        {
            if self.programs[a].id as i64 == id {
                assert(self.programs()[a as int].id == id);
                return true;
            }
            a += 1;
        }
        false
    }

    /// Whether a recording with this id exists.
    pub fn contains_recording(&self, id: i64) -> (b: bool)
        ensures
            b == self.has_recording(id as int),
    {
        let mut a: usize = 0;
        while a < self.recordings.len()
            invariant
                a <= self.recordings@.len(),
                forall|x: int| 0 <= x < a ==> (#[trigger] self.recordings@[x]).id != id,
            decreases self.recordings@.len() - a,
        {
            if self.recordings[a].id as i64 == id {
                assert(self.recordings()[a as int].id == id);
                return true;
            }
            a += 1;
        }
        false
    }

    /// Adds a program. A program whose id is taken, or that ends before it
    /// starts, is refused, and the store stays as it was.
    pub fn add_program(&mut self, program: Program) -> (added: bool)
        requires
            old(self).well_formed(),
        ensures
            final(self).well_formed(),
            added == (!old(self).has_program(program.id as int)
                && program.starts_at.spec_seconds() <= program.ends_at.spec_seconds()),
            final(self).programs() == if added {
                old(self).programs().push(program)
            } else {
                old(self).programs()
            },
            final(self).recordings() == old(self).recordings(),
            final(self).recording_tags() == old(self).recording_tags(),
            final(self).program_tags() == old(self).program_tags(),
            final(self).plays() == old(self).plays(),
            final(self).resume() == old(self).resume(),
    {
        if self.contains_program(program.id as i64) || program.starts_at.seconds()
            > program.ends_at.seconds() {
            false
        } else {
            self.programs.push(program);
            proof {
                let before = old(self).programs();
                let after = self.programs();
                assert forall|a: int, b: int| 0 <= a < b < after.len() implies (#[trigger] after[a]).id
                    != (#[trigger] after[b]).id by {
                    if b < before.len() {
                        assert(after[a] == before[a] && after[b] == before[b]);
                    } else {
                        assert(after[a] == before[a]);
                    }
                }
                assert forall|a: int| 0 <= a < after.len() implies (
                #[trigger] after[a]).starts_at.spec_seconds() <= after[a].ends_at.spec_seconds() by {
                    if a < before.len() {
                        assert(after[a] == before[a]);
                    }
                }
            }
            true
        }
    }

    /// Adds a recording. A recording whose id is taken is refused, and the
    /// store stays as it was.
    pub fn add_recording(&mut self, recording: Recording) -> (added: bool)
        requires
            old(self).well_formed(),
        ensures
            final(self).well_formed(),
            added == !old(self).has_recording(recording.id as int),
            final(self).recordings() == if added {
                old(self).recordings().push(recording)
            } else {
                old(self).recordings()
            },
            final(self).programs() == old(self).programs(),
            final(self).recording_tags() == old(self).recording_tags(),
            final(self).program_tags() == old(self).program_tags(),
            final(self).plays() == old(self).plays(),
            final(self).resume() == old(self).resume(),
    {
        if self.contains_recording(recording.id as i64) {
            false
        } else {
            self.recordings.push(recording);
            proof {
                let before = old(self).recordings();
                let after = self.recordings();
                assert forall|a: int, b: int| 0 <= a < b < after.len() implies (#[trigger] after[a]).id
                    != (#[trigger] after[b]).id by {
                    if b < before.len() {
                        assert(after[a] == before[a] && after[b] == before[b]);
                    } else {
                        assert(after[a] == before[a]);
                    }
                }
            }
            true
        }
    }

    /// Gives a recording a tag.
    pub fn tag_recording(&mut self, recording_id: i32, tag_id: i32)
        ensures
            final(self).recording_tags() == old(self).recording_tags().push(
                RecordingTag { recording_id, tag_id },
            ),
            final(self).programs() == old(self).programs(),
            final(self).recordings() == old(self).recordings(),
            final(self).program_tags() == old(self).program_tags(),
            final(self).plays() == old(self).plays(),
            final(self).resume() == old(self).resume(),
    {
        self.recording_tags.push(RecordingTag { recording_id, tag_id });
    }

    /// Gives a program a tag.
    pub fn tag_program(&mut self, program_id: i32, tag_id: i32)
        ensures
            final(self).program_tags() == old(self).program_tags().push(
                ProgramTag { program_id, tag_id },
            ),
            final(self).programs() == old(self).programs(),
            final(self).recordings() == old(self).recordings(),
            final(self).recording_tags() == old(self).recording_tags(),
            final(self).plays() == old(self).plays(),
            final(self).resume() == old(self).resume(),
    {
        self.program_tags.push(ProgramTag { program_id, tag_id });
    }

    /// Number of entries in the play history.
    pub fn play_history_len(&self) -> (n: usize)
        ensures
            n == self.plays().len(),
    {
        self.plays.len()
    }

    /// The play at `index` of the history, oldest first.
    pub fn play(&self, index: usize) -> (play: &Play)
        requires
            index < self.plays().len(),
        ensures
            *play == self.plays()[index as int],
    {
        &self.plays[index]
    }

    /// Adds a play that was recorded earlier, under the id it was given
    /// then. A play whose id is not above those of the history is refused,
    /// and the store stays as it was.
    pub fn add_play(&mut self, play: Play) -> (added: bool)
        requires
            old(self).well_formed(),
        ensures
            final(self).well_formed(),
            added == (old(self).plays().len() == 0 || old(self).plays().last().id < play.id),
            final(self).plays() == if added {
                old(self).plays().push(play)
            } else {
                old(self).plays()
            },
            final(self).programs() == old(self).programs(),
            final(self).recordings() == old(self).recordings(),
            final(self).recording_tags() == old(self).recording_tags(),
            final(self).program_tags() == old(self).program_tags(),
            final(self).resume() == old(self).resume(),
    {
        let n = self.plays.len();
        if n > 0 && self.plays[n - 1].id >= play.id {
            return false;
        }
        self.plays.push(play);
        proof {
            let before = old(self).plays();
            let after = self.plays();
            assert forall|i: int, j: int| 0 <= i < j < after.len() implies (#[trigger] after[i]).id < (
            #[trigger] after[j]).id by {
                if j < before.len() {
                    assert(after[i] == before[i] && after[j] == before[j]);
                } else {
                    assert(after[i] == before[i]);
                    if i < before.len() - 1 {
                        assert(before[i].id < before[before.len() - 1].id);
                    }
                }
            }
        }
        true
    }

    /// Keeps `record` as the one persisted resume record, in place of any
    /// that was kept before.
    pub fn save_resume(&mut self, record: ResumeRecord)
        ensures
            final(self).resume() == Some(record),
            final(self).programs() == old(self).programs(),
            final(self).recordings() == old(self).recordings(),
            final(self).recording_tags() == old(self).recording_tags(),
            final(self).program_tags() == old(self).program_tags(),
            final(self).plays() == old(self).plays(),
    {
        self.resume = Some(record);
    }

    /// Hands out the persisted resume record and deletes it: a second call
    /// finds none.
    pub fn take_resume(&mut self) -> (record: Option<ResumeRecord>)
        ensures
            record == old(self).resume(),
            final(self).resume() is None,
            final(self).programs() == old(self).programs(),
            final(self).recordings() == old(self).recordings(),
            final(self).recording_tags() == old(self).recording_tags(),
            final(self).program_tags() == old(self).program_tags(),
            final(self).plays() == old(self).plays(),
    {
        let record = self.resume;
        self.resume = None;
        record
    }
}

/// A recording's plays are never more than the history holds.
pub proof fn lemma_play_count_bounded(plays: Seq<Play>, recording_id: int)
    ensures
        play_count(plays, recording_id) <= plays.len(),
    decreases plays.len(),
{
    if plays.len() > 0 {
        lemma_play_count_bounded(plays.drop_last(), recording_id);
    }
}

/// One proposal while the query runs: positions of the program and the
/// recording in their tables, and the recording's plays.
#[derive(Clone, Copy, PartialEq, Eq, Structural)]
struct Ranked {
    program: usize,
    recording: usize,
    count: usize,
}

spec fn sorted(best: Seq<Ranked>) -> bool {
    forall|i: int, j: int|
        0 <= i < j < best.len() ==> (#[trigger] best[i]).count <= (#[trigger] best[j]).count
}

spec fn no_repeats(best: Seq<Ranked>) -> bool {
    forall|i: int, j: int| 0 <= i < j < best.len() ==> (#[trigger] best[i]) != (#[trigger] best[j])
}

spec fn all_at_most(best: Seq<Ranked>, count: int) -> bool {
    forall|i: int| 0 <= i < best.len() ==> (#[trigger] best[i]).count <= count
}

/// The proposal is kept, or the list is full of proposals that rank no
/// worse.
spec fn covered(best: Seq<Ranked>, e: Ranked) -> bool {
    best.contains(e) || (best.len() == MAX_CANDIDATES && all_at_most(best, e.count as int))
}

spec fn before(a: int, b: int, pi: int, ri: int) -> bool {
    a < pi || (a == pi && b < ri)
}

/// Puts `item` into a list that is sorted by plays, behind the proposals
/// that rank no worse, and drops the last proposal if the list outgrows
/// `MAX_CANDIDATES`.
fn insert_ranked(best: &mut Vec<Ranked>, item: Ranked)
    requires
        sorted(old(best)@),
        no_repeats(old(best)@),
        old(best)@.len() <= MAX_CANDIDATES,
        !old(best)@.contains(item),
    ensures
        sorted(final(best)@),
        no_repeats(final(best)@),
        final(best)@.len() <= MAX_CANDIDATES,
        forall|i: int|
            0 <= i < final(best)@.len() ==> (#[trigger] final(best)@[i]) == item || old(
                best,
            )@.contains(final(best)@[i]),
        covered(final(best)@, item),
        forall|i: int| 0 <= i < old(best)@.len() ==> covered(final(best)@, #[trigger] old(best)@[i]),
        forall|c: int|
            old(best)@.len() == MAX_CANDIDATES && all_at_most(old(best)@, c) ==> final(best)@.len()
                == MAX_CANDIDATES && all_at_most(final(best)@, c),
{
    let ghost before = best@;
    let n: usize = best.len();
    let mut p: usize = 0;
    while p < n && best[p].count <= item.count
        invariant
            n == best@.len(),
            best@ == before,
            p <= n,
            forall|i: int| 0 <= i < p ==> (#[trigger] best@[i]).count <= item.count,
        decreases n - p,
    {
        p += 1;
    }
    if p == MAX_CANDIDATES {
        assert(all_at_most(best@, item.count as int));
        assert forall|i: int| 0 <= i < before.len() implies covered(best@, #[trigger] before[i]) by {
            assert(best@[i] == before[i]);
        }
        assert forall|i: int| 0 <= i < best@.len() implies (#[trigger] best@[i]) == item
            || before.contains(best@[i]) by {
            assert(before[i] == best@[i]);
        }
        return ;
    }
    best.insert(p, item);
    let ghost mid = best@;
    proof {
        assert(mid.len() == n + 1);
        assert forall|i: int| 0 <= i < mid.len() implies (#[trigger] mid[i]) == (if i < p {
            before[i]
        } else if i == p {
            item
        } else {
            before[i - 1]
        }) by {}
        assert forall|i: int, j: int| 0 <= i < j < mid.len() implies (#[trigger] mid[i]).count <= (
        #[trigger] mid[j]).count by {
            if j < p {
                assert(before[i].count <= before[j].count);
            } else if j == p {
                assert(before[i].count <= item.count);
            } else if i < p {
                assert(before[i].count <= before[j - 1].count);
            } else if i == p {
                assert(before[p as int].count <= before[j - 1].count || p as int == j - 1);
            } else {
                assert(before[i - 1].count <= before[j - 1].count);
            }
        }
        assert forall|i: int, j: int| 0 <= i < j < mid.len() implies (#[trigger] mid[i]) != (
        #[trigger] mid[j]) by {
            if j < p {
                assert(before[i] != before[j]);
            } else if j == p {
                assert(before[i] != item);
            } else if i < p {
                assert(before[i] != before[j - 1]);
            } else if i == p {
                assert(before[j - 1] != item);
            } else {
                assert(before[i - 1] != before[j - 1]);
            }
        }
    }
    if best.len() > MAX_CANDIDATES {
        best.pop();
    }
    proof {
        let now = best@;
        assert(now.len() <= mid.len());
        assert forall|i: int| 0 <= i < now.len() implies #[trigger] now[i] == mid[i] by {}
        assert(sorted(now)) by {
            assert forall|i: int, j: int| 0 <= i < j < now.len() implies (#[trigger] now[i]).count
                <= (#[trigger] now[j]).count by {
                assert(mid[i].count <= mid[j].count);
            }
        }
        assert(no_repeats(now)) by {
            assert forall|i: int, j: int| 0 <= i < j < now.len() implies (#[trigger] now[i]) != (
            #[trigger] now[j]) by {
                assert(mid[i] != mid[j]);
            }
        }
        assert forall|i: int| 0 <= i < now.len() implies (#[trigger] now[i]) == item
            || before.contains(now[i]) by {
            if i < p {
                assert(before[i] == now[i]);
            } else if i > p {
                assert(before[i - 1] == now[i]);
            }
        }
        // p < MAX_CANDIDATES, so the item itself is kept.
        assert(now[p as int] == item);
        assert(now.contains(item));
        assert forall|i: int| 0 <= i < before.len() implies covered(now, #[trigger] before[i]) by {
            let k = if i < p {
                i
            } else {
                i + 1
            };
            if k < now.len() {
                assert(now[k] == before[i]);
                assert(now.contains(before[i]));
            } else {
                // The proposal that fell off the end ranks no better than any kept.
                assert(k == MAX_CANDIDATES && i == MAX_CANDIDATES - 1);
                assert forall|x: int| 0 <= x < now.len() implies (#[trigger] now[x]).count
                    <= before[i].count by {
                    assert(mid[x].count <= mid[k].count);
                }
                assert(all_at_most(now, before[i].count as int));
            }
        }
        assert forall|c: int| before.len() == MAX_CANDIDATES && all_at_most(before, c) implies now.len()
            == MAX_CANDIDATES && all_at_most(now, c) by {
            assert forall|x: int| 0 <= x < now.len() implies (#[trigger] now[x]).count <= c by {
                if x < p {
                    assert(before[x].count <= c);
                } else if x == p {
                    assert(mid[x].count <= mid[x + 1].count);
                    assert(before[x].count <= c);
                } else {
                    assert(before[x - 1].count <= c);
                }
            }
        }
    }
}

impl Schedule {
    /// The program at `a` and the recording at `b` form a pair that may be
    /// played at `now`.
    spec fn elig_at(&self, now: TimeOfDay, a: int, b: int) -> bool {
        &&& 0 <= a < self.programs@.len()
        &&& 0 <= b < self.recordings@.len()
        &&& self.programs@[a].airing(now)
        &&& share_tag(
            self.recording_tags@,
            self.program_tags@,
            self.programs@[a].id as int,
            self.recordings@[b].id as int,
        )
        &&& !recently_played(self.plays@, self.recordings@[b].id as int)
    }

    spec fn entry(&self, a: int, b: int) -> Ranked {
        Ranked {
            program: a as usize,
            recording: b as usize,
            count: play_count(self.plays@, self.recordings@[b].id as int) as usize,
        }
    }

    spec fn ranked_ok(&self, now: TimeOfDay, e: Ranked, pi: int, ri: int) -> bool {
        &&& self.elig_at(now, e.program as int, e.recording as int)
        &&& before(e.program as int, e.recording as int, pi, ri)
        &&& e == self.entry(e.program as int, e.recording as int)
    }

    /// What holds of the list of proposals when every pair before
    /// `(pi, ri)` has been looked at.
    spec fn ranking(&self, now: TimeOfDay, best: Seq<Ranked>, pi: int, ri: int) -> bool {
        &&& sorted(best)
        &&& no_repeats(best)
        &&& best.len() <= MAX_CANDIDATES
        &&& forall|i: int| 0 <= i < best.len() ==> self.ranked_ok(now, #[trigger] best[i], pi, ri)
        &&& forall|a: int, b: int| #[trigger]
            self.elig_at(now, a, b) && before(a, b, pi, ri) ==> covered(best, self.entry(a, b))
    }

    /// Whether the program and the recording share a tag.
    fn tags_in_common(&self, program_id: i32, recording_id: i32) -> (b: bool)
        ensures
            b == share_tag(
                self.recording_tags(),
                self.program_tags(),
                program_id as int,
                recording_id as int,
            ),
    {
        let mut i: usize = 0;
        while i < self.recording_tags.len()
            invariant
                i <= self.recording_tags@.len(),
                forall|x: int, y: int|
                    0 <= x < i && 0 <= y < self.program_tags@.len() ==> !tag_link(
                        #[trigger] self.recording_tags@[x],
                        #[trigger] self.program_tags@[y],
                        program_id as int,
                        recording_id as int,
                    ),
            decreases self.recording_tags@.len() - i,
        {
            if self.recording_tags[i].recording_id == recording_id {
                let mut j: usize = 0;
                while j < self.program_tags.len()
                    invariant
                        i < self.recording_tags@.len(),
                        j <= self.program_tags@.len(),
                        self.recording_tags@[i as int].recording_id == recording_id,
                        forall|y: int|
                            0 <= y < j ==> !tag_link(
                                self.recording_tags@[i as int],
                                #[trigger] self.program_tags@[y],
                                program_id as int,
                                recording_id as int,
                            ),
                    decreases self.program_tags@.len() - j,
                {
                    if self.program_tags[j].program_id == program_id && self.program_tags[j].tag_id
                        == self.recording_tags[i].tag_id {
                        assert(tag_link(
                            self.recording_tags()[i as int],
                            self.program_tags()[j as int],
                            program_id as int,
                            recording_id as int,
                        ));
                        return true;
                    }
                    j += 1;
                }
            }
            i += 1;
        }
        false
    }

    /// Whether the recording is among the latest plays.
    fn played_recently(&self, recording_id: i32) -> (b: bool)
        ensures
            b == recently_played(self.plays(), recording_id as int),
    {
        let n: usize = self.plays.len();
        let mut k: usize = if n > RECENT_PLAYS {
            n - RECENT_PLAYS
        } else {
            0
        };
        let ghost first = k;
        while k < n
            invariant
                n == self.plays@.len(),
                first <= k <= n,
                first == if n > RECENT_PLAYS {
                    n - RECENT_PLAYS
                } else {
                    0
                },
                forall|x: int| first <= x < k ==> (#[trigger] self.plays@[x]).recording_id != recording_id,
            decreases n - k,
        {
            if self.plays[k].recording_id == recording_id {
                assert(self.plays()[k as int].recording_id == recording_id);
                return true;
            }
            k += 1;
        }
        false
    }

    /// How often the recording occurs in the play history.
    fn count_plays(&self, recording_id: i32) -> (count: usize)
        ensures
            count == play_count(self.plays(), recording_id as int),
    {
        let n: usize = self.plays.len();
        let mut count: usize = 0;
        let mut k: usize = 0;
        while k < n
            invariant
                n == self.plays@.len(),
                k <= n,
                count <= k,
                count == play_count(self.plays@.subrange(0, k as int), recording_id as int),
            decreases n - k,
        {
            proof {
                let next = self.plays@.subrange(0, k + 1);
                assert(next.drop_last() =~= self.plays@.subrange(0, k as int));
                assert(next.last() == self.plays@[k as int]);
            }
            if self.plays[k].recording_id == recording_id {
                count += 1;
            }
            k += 1;
        }
        assert(self.plays@.subrange(0, n as int) =~= self.plays@);
        count
    }

    /// Proposes what may be played at `now`: up to `MAX_CANDIDATES` pairs of
    /// program id and recording id. Every pair proposed is eligible: its
    /// program is on air at `now`, its recording shares a tag with the
    /// program, and the recording is not among the latest `RECENT_PLAYS`
    /// plays. No pair is proposed twice. The pairs come least played first,
    /// and an eligible pair is left out only when the list is full of pairs
    /// whose recordings were played no more often.
    pub fn select_candidates(&self, now: TimeOfDay) -> (out: Vec<(i64, i64)>)
        requires
            self.well_formed(),
        ensures
            self.proposes(now, out@),
    {
        let mut best: Vec<Ranked> = Vec::new();
        let mut pi: usize = 0;
        while pi < self.programs.len()
            invariant
                self.well_formed(),
                pi <= self.programs@.len(),
                self.ranking(now, best@, pi as int, 0),
            decreases self.programs@.len() - pi,
        {
            if self.programs[pi].is_airing(now) {
                let mut ri: usize = 0;
                while ri < self.recordings.len()
                    invariant
                        self.well_formed(),
                        pi < self.programs@.len(),
                        ri <= self.recordings@.len(),
                        self.programs@[pi as int].airing(now),
                        self.ranking(now, best@, pi as int, ri as int),
                    decreases self.recordings@.len() - ri,
                {
                    let program_id = self.programs[pi].id;
                    let recording_id = self.recordings[ri].id;
                    let ghost old_best = best@;
                    if self.tags_in_common(program_id, recording_id) && !self.played_recently(
                        recording_id,
                    ) {
                        let count = self.count_plays(recording_id);
                        let item = Ranked { program: pi, recording: ri, count };
                        proof {
                            assert(self.elig_at(now, pi as int, ri as int));
                            assert(item == self.entry(pi as int, ri as int));
                            if old_best.contains(item) {
                                let i = choose|i: int| 0 <= i < old_best.len() && old_best[i] == item;
                                assert(self.ranked_ok(now, old_best[i], pi as int, ri as int));
                            }
                        }
                        insert_ranked(&mut best, item);
                        proof {
                            let new_best = best@;
                            assert forall|i: int| 0 <= i < new_best.len() implies self.ranked_ok(
                                now,
                                #[trigger] new_best[i],
                                pi as int,
                                ri + 1,
                            ) by {
                                if new_best[i] != item {
                                    let k = choose|k: int|
                                        0 <= k < old_best.len() && old_best[k] == new_best[i];
                                    assert(self.ranked_ok(now, old_best[k], pi as int, ri as int));
                                }
                            }
                            assert forall|a: int, b: int| #[trigger]
                                self.elig_at(now, a, b) && before(
                                    a,
                                    b,
                                    pi as int,
                                    ri + 1,
                                ) implies covered(new_best, self.entry(a, b)) by {
                                if a == pi && b == ri {
                                } else {
                                    assert(before(a, b, pi as int, ri as int));
                                    let e = self.entry(a, b);
                                    assert(covered(old_best, e));
                                    if old_best.contains(e) {
                                        let k = choose|k: int|
                                            0 <= k < old_best.len() && old_best[k] == e;
                                        assert(covered(new_best, old_best[k]));
                                    }
                                }
                            }
                        }
                    } else {
                        proof {
                            assert(!self.elig_at(now, pi as int, ri as int));
                            assert forall|i: int| 0 <= i < best@.len() implies self.ranked_ok(
                                now,
                                #[trigger] best@[i],
                                pi as int,
                                ri + 1,
                            ) by {
                                assert(self.ranked_ok(now, best@[i], pi as int, ri as int));
                            }
                            assert forall|a: int, b: int| #[trigger]
                                self.elig_at(now, a, b) && before(
                                    a,
                                    b,
                                    pi as int,
                                    ri + 1,
                                ) implies covered(best@, self.entry(a, b)) by {
                                assert(before(a, b, pi as int, ri as int));
                            }
                        }
                    }
                    ri += 1;
                }
                proof {
                    assert forall|i: int| 0 <= i < best@.len() implies self.ranked_ok(
                        now,
                        #[trigger] best@[i],
                        pi + 1,
                        0,
                    ) by {
                        assert(self.ranked_ok(now, best@[i], pi as int, self.recordings@.len() as int));
                    }
                    assert forall|a: int, b: int| #[trigger]
                        self.elig_at(now, a, b) && before(a, b, pi + 1, 0) implies covered(
                        best@,
                        self.entry(a, b),
                    ) by {
                        assert(before(a, b, pi as int, self.recordings@.len() as int));
                    }
                }
            } else {
                proof {
                    assert forall|i: int| 0 <= i < best@.len() implies self.ranked_ok(
                        now,
                        #[trigger] best@[i],
                        pi + 1,
                        0,
                    ) by {
                        assert(self.ranked_ok(now, best@[i], pi as int, 0));
                    }
                    assert forall|a: int, b: int| #[trigger]
                        self.elig_at(now, a, b) && before(a, b, pi + 1, 0) implies covered(
                        best@,
                        self.entry(a, b),
                    ) by {
                        assert(before(a, b, pi as int, 0));
                    }
                }
            }
            pi += 1;
        }
        let mut out: Vec<(i64, i64)> = Vec::new();
        let mut k: usize = 0;
        while k < best.len()
            invariant
                k <= best@.len(),
                out@.len() == k,
                self.ranking(now, best@, self.programs@.len() as int, 0),
                forall|i: int|
                    0 <= i < k ==> (#[trigger] out@[i]) == (
                        self.programs@[best@[i].program as int].id as i64,
                        self.recordings@[best@[i].recording as int].id as i64,
                    ),
            decreases best@.len() - k,
        {
            let e = best[k];
            proof {
                assert(self.ranked_ok(now, best@[k as int], self.programs@.len() as int, 0));
            }
            out.push((self.programs[e.program].id as i64, self.recordings[e.recording].id as i64));
            k += 1;
        }
        proof {
            self.lemma_candidates(now, best@, out@);
        }
        out
    }

    /// Carries what holds of the finished list of proposals over to the ids
    /// that are handed out.
    proof fn lemma_candidates(&self, now: TimeOfDay, best: Seq<Ranked>, out: Seq<(i64, i64)>)
        requires
            self.well_formed(),
            self.ranking(now, best, self.programs@.len() as int, 0),
            out.len() == best.len(),
            forall|i: int|
                0 <= i < out.len() ==> (#[trigger] out[i]) == (
                    self.programs@[best[i].program as int].id as i64,
                    self.recordings@[best[i].recording as int].id as i64,
                ),
        ensures
            self.proposes(now, out),
    {
        let np = self.programs@.len() as int;
        assert(self.programs@.len() == self.programs.len());
        assert(self.recordings@.len() == self.recordings.len());
        assert(self.plays@.len() == self.plays.len());
        assert forall|i: int| 0 <= i < out.len() implies self.ranked_ok(now, best[i], np, 0)
            && self.count_of((#[trigger] out[i]).1 as int) == best[i].count by {
            assert(self.ranked_ok(now, best[i], np, 0));
            lemma_play_count_bounded(self.plays@, self.recordings@[best[i].recording as int].id as int);
        }
        assert forall|i: int| 0 <= i < out.len() implies self.eligible(
            now,
            (#[trigger] out[i]).0 as int,
            out[i].1 as int,
        ) by {
            assert(self.ranked_ok(now, best[i], np, 0));
            let a = best[i].program as int;
            let b = best[i].recording as int;
            assert(self.programs()[a].id == out[i].0 && self.programs()[a].airing(now));
            assert(self.recordings()[b].id == out[i].1);
        }
        assert forall|i: int, j: int| 0 <= i < j < out.len() implies (#[trigger] out[i]) != (
        #[trigger] out[j]) by {
            assert(self.ranked_ok(now, best[i], np, 0));
            assert(self.ranked_ok(now, best[j], np, 0));
            assert(best[i] != best[j]);
            if out[i] == out[j] {
                let a1 = best[i].program as int;
                let a2 = best[j].program as int;
                let b1 = best[i].recording as int;
                let b2 = best[j].recording as int;
                assert(self.programs()[a1].id == self.programs()[a2].id);
                assert(self.recordings()[b1].id == self.recordings()[b2].id);
                assert(a1 == a2);
                assert(b1 == b2);
            }
        }
        assert forall|i: int, j: int| 0 <= i < j < out.len() implies self.count_of(
            (#[trigger] out[i]).1 as int,
        ) <= self.count_of((#[trigger] out[j]).1 as int) by {
            assert(best[i].count <= best[j].count);
        }
        assert forall|program_id: int, recording_id: int| #[trigger]
            self.eligible(now, program_id, recording_id) implies out.contains(
            (program_id as i64, recording_id as i64),
        ) || (out.len() == MAX_CANDIDATES && forall|i: int|
            0 <= i < out.len() ==> self.count_of((#[trigger] out[i]).1 as int) <= self.count_of(
                recording_id,
            )) by {
            let a = choose|a: int|
                0 <= a < self.programs().len() && (#[trigger] self.programs()[a]).id == program_id
                    && self.programs()[a].airing(now);
            let b = choose|b: int|
                0 <= b < self.recordings().len() && (#[trigger] self.recordings()[b]).id
                    == recording_id;
            assert(self.elig_at(now, a, b));
            assert(before(a, b, np, 0));
            let e = self.entry(a, b);
            assert(covered(best, e));
            lemma_play_count_bounded(self.plays@, recording_id);
            if best.contains(e) {
                let i = choose|i: int| 0 <= i < best.len() && best[i] == e;
                assert(out[i] == (program_id as i64, recording_id as i64));
            } else {
                assert(all_at_most(best, e.count as int));
                assert forall|i: int| 0 <= i < out.len() implies self.count_of(
                    (#[trigger] out[i]).1 as int,
                ) <= self.count_of(recording_id) by {
                    assert(best[i].count <= e.count);
                }
            }
        }
    }
}

/// A program is on air at the very second it starts and at the very second
/// it ends.
pub proof fn lemma_on_air_at_both_ends(program: Program)
    requires
        program.starts_at.spec_seconds() <= program.ends_at.spec_seconds(),
    ensures
        program.airing(program.starts_at),
        program.airing(program.ends_at),
{
}

/// A play that was just appended makes its recording one of the latest
/// plays, so no pair with that recording is eligible at any time.
pub proof fn lemma_fresh_play_excludes(store: Schedule, play: Play, now: TimeOfDay, program_id: int)
    requires
        store.plays().len() > 0,
        store.plays().last() == play,
    ensures
        recently_played(store.plays(), play.recording_id as int),
        !store.eligible(now, program_id, play.recording_id as int),
{
    let k = store.plays().len() - 1;
    assert(store.plays()[k].recording_id == play.recording_id);
}

/// No proposal ever names a recording that is among the latest plays, a
/// pair without a shared tag, or a program that is off air.
pub proof fn lemma_proposals_are_eligible(store: Schedule, now: TimeOfDay, out: Seq<(i64, i64)>, i: int)
    requires
        store.proposes(now, out),
        0 <= i < out.len(),
    ensures
        store.has_program(out[i].0 as int),
        store.has_recording(out[i].1 as int),
        share_tag(store.recording_tags(), store.program_tags(), out[i].0 as int, out[i].1 as int),
        !recently_played(store.plays(), out[i].1 as int),
        exists|a: int|
            0 <= a < store.programs().len() && (#[trigger] store.programs()[a]).id == out[i].0
                && store.programs()[a].airing(now),
{
    assert(store.eligible(now, out[i].0 as int, out[i].1 as int));
    let a = choose|a: int|
        0 <= a < store.programs().len() && (#[trigger] store.programs()[a]).id == out[i].0
            && store.programs()[a].airing(now);
    assert(store.programs()[a].id == out[i].0);
}

/// When exactly one pair is eligible, the proposals are that pair and
/// nothing else.
pub proof fn lemma_single_eligible(
    store: Schedule,
    now: TimeOfDay,
    out: Seq<(i64, i64)>,
    program_id: i64,
    recording_id: i64,
)
    requires
        store.proposes(now, out),
        store.eligible(now, program_id as int, recording_id as int),
        forall|p: int, r: int| #[trigger]
            store.eligible(now, p, r) ==> p == program_id && r == recording_id,
    ensures
        out == seq![(program_id, recording_id)],
{
    assert(out.len() <= 1) by {
        if out.len() >= 2 {
            assert(store.eligible(now, out[0].0 as int, out[0].1 as int));
            assert(store.eligible(now, out[1].0 as int, out[1].1 as int));
            assert(out[0] != out[1]);
        }
    }
    assert(out.contains((program_id, recording_id)));
    assert(out =~= seq![(program_id, recording_id)]);
}

/// When no pair is eligible, nothing is proposed; and when a pair is
/// eligible, something is.
pub proof fn lemma_empty_proposals(store: Schedule, now: TimeOfDay, out: Seq<(i64, i64)>)
    requires
        store.proposes(now, out),
    ensures
        out.len() == 0 <==> forall|p: int, r: int| !store.eligible(now, p, r),
{
    if out.len() == 0 {
        assert forall|p: int, r: int| !store.eligible(now, p, r) by {
            if store.eligible(now, p, r) {
                assert(out.contains((p as i64, r as i64)));
            }
        }
    } else {
        assert(store.eligible(now, out[0].0 as int, out[0].1 as int));
    }
}

/// `rand::seq::SliceRandom::choose` on the proposals, with the thread's
/// random number generator: nothing for an empty list, else one of its
/// entries, whichever chance picks.
#[verifier::external_body]
fn pick_at_random(candidates: &Vec<(i64, i64)>) -> (choice: Option<(i64, i64)>)
    ensures
        candidates@.len() == 0 ==> choice is None,
        candidates@.len() > 0 ==> choice is Some && candidates@.contains(choice->0),
{
    rand::seq::SliceRandom::choose(candidates.as_slice(), &mut rand::thread_rng()).copied()
}

impl Schedule {
    /// Fetches the full records of a chosen pair of program id and recording
    /// id. No choice gives nothing to play; a pair whose program or
    /// recording does not exist gives `NotFound`.
    pub fn resolve(&self, choice: Option<(i64, i64)>) -> (next: Result<
        Option<(Program, Recording)>,
        StoreError,
    >)
        ensures
            match choice {
                None => next matches Ok(None),
                Some((program_id, recording_id)) => if self.has_program(program_id as int)
                    && self.has_recording(recording_id as int) {
                    &&& next matches Ok(Some((program, recording)))
                    &&& program.id == program_id
                    &&& recording.id == recording_id
                    &&& self.programs().contains(program)
                    &&& self.recordings().contains(recording)
                } else {
                    next matches Err(StoreError::NotFound)
                },
            },
    {
        match choice {
            None => Ok(None),
            Some((program_id, recording_id)) => {
                let program = match find_program(self, program_id) {
                    Ok(program) => program,
                    Err(e) => {
                        return Err(e);
                    },
                };
                let recording = match find_recording(self, recording_id) {
                    Ok(recording) => recording,
                    Err(e) => {
                        return Err(e);
                    },
                };
                proof {
                    let a = choose|a: int|
                        0 <= a < self.programs().len() && self.programs()[a] == program;
                    assert(self.programs()[a].id == program_id);
                    let b = choose|b: int|
                        0 <= b < self.recordings().len() && self.recordings()[b] == recording;
                    assert(self.recordings()[b].id == recording_id);
                }
                Ok(Some((program, recording)))
            },
        }
    }

}

/// Looks a recording up by id.
pub fn find_recording(store: &Schedule, recording_id: i64) -> (found: Result<Recording, StoreError>)
    ensures
        match found {
            Ok(recording) => recording.id == recording_id && store.recordings().contains(
                recording,
            ),
            Err(e) => e == StoreError::NotFound && !store.has_recording(recording_id as int),
        },
{
    let mut b: usize = 0;
    while b < store.recordings.len()
        invariant
            b <= store.recordings@.len(),
            forall|x: int| 0 <= x < b ==> (#[trigger] store.recordings@[x]).id != recording_id,
        decreases store.recordings@.len() - b,
    {
        if store.recordings[b].id as i64 == recording_id {
            let copy = store.recordings[b].clone();
            assert(store.recordings@[b as int] == copy);
            return Ok(copy);
        }
        b += 1;
    }
    Err(StoreError::NotFound)
}

/// Looks a program up by id.
pub fn find_program(store: &Schedule, program_id: i64) -> (found: Result<Program, StoreError>)
    ensures
        match found {
            Ok(program) => program.id == program_id && store.programs().contains(program),
            Err(e) => e == StoreError::NotFound && !store.has_program(program_id as int),
        },
{
    let mut a: usize = 0;
    while a < store.programs.len()
        invariant
            a <= store.programs@.len(),
            forall|x: int| 0 <= x < a ==> (#[trigger] store.programs@[x]).id != program_id,
        decreases store.programs@.len() - a,
    {
        if store.programs[a].id as i64 == program_id {
            let copy = store.programs[a].clone();
            assert(store.programs@[a as int] == copy);
            return Ok(copy);
        }
        a += 1;
    }
    Err(StoreError::NotFound)
}

/// Appends one play of `recording` for `program` to the history, under
/// the next id. Nothing else changes. A history whose ids are used up
/// refuses the play and stays as it was.
pub fn insert_play_record(
    store: &mut Schedule,
    program: &Program,
    recording: &Recording,
    started_at: String,
) -> (done: Result<(), StoreError>)
    requires
        old(store).well_formed(),
    ensures
        final(store).well_formed(),
        final(store).programs() == old(store).programs(),
        final(store).recordings() == old(store).recordings(),
        final(store).recording_tags() == old(store).recording_tags(),
        final(store).program_tags() == old(store).program_tags(),
        final(store).resume() == old(store).resume(),
        next_play_id(old(store).plays()) <= i64::MAX ==> done is Ok && final(store).plays()
            == old(store).plays().push(
            Play {
                id: next_play_id(old(store).plays()) as i64,
                recording_id: recording.id,
                program_id: program.id,
                started_at,
            },
        ),
        next_play_id(old(store).plays()) > i64::MAX ==> done == Err::<(), StoreError>(
            StoreError::Full,
        ) && final(store).plays() == old(store).plays(),
{
    let n = store.plays.len();
    let id: i64 = if n == 0 {
        1
    } else {
        let last = store.plays[n - 1].id;
        if last == i64::MAX {
            return Err(StoreError::Full);
        }
        last + 1
    };
    store.plays.push(Play { id, recording_id: recording.id, program_id: program.id, started_at });
    proof {
        let before = old(store).plays();
        let after = store.plays();
        assert forall|i: int, j: int| 0 <= i < j < after.len() implies (#[trigger] after[i]).id < (
        #[trigger] after[j]).id by {
            if j < before.len() {
                assert(after[i] == before[i] && after[j] == before[j]);
            } else {
                assert(after[i] == before[i]);
                if i < before.len() - 1 {
                    assert(before[i].id < before[before.len() - 1].id);
                }
            }
        }
    }
    Ok(())
}

/// Picks what to play at `now`: one of the proposals of
/// `select_candidates`, chosen at random, with its full records. When no
/// pair is eligible there is nothing to play. Otherwise a program and a
/// recording of the store come back whose ids are one of the proposals, and
/// so form an eligible pair.
pub fn select_next_recording(store: &Schedule, now: TimeOfDay) -> (next: Result<
    Option<(Program, Recording)>,
    StoreError,
>)
    requires
        store.well_formed(),
    ensures
        (forall|program_id: int, recording_id: int|
            !store.eligible(now, program_id, recording_id)) ==> next matches Ok(None),
        (exists|program_id: int, recording_id: int|
            store.eligible(now, program_id, recording_id)) ==> {
            &&& next matches Ok(Some((program, recording)))
            &&& store.eligible(now, program.id as int, recording.id as int)
            &&& store.programs().contains(program)
            &&& store.recordings().contains(recording)
            &&& exists|out: Seq<(i64, i64)>| #[trigger]
                store.proposes(now, out) && out.contains((program.id as i64, recording.id as i64))
        },
{
    let candidates = store.select_candidates(now);
    let choice = pick_at_random(&candidates);
    proof {
        if candidates@.len() == 0 {
            assert forall|program_id: int, recording_id: int|
                !store.eligible(now, program_id, recording_id) by {
                if store.eligible(now, program_id, recording_id) {
                    assert(candidates@.contains((program_id as i64, recording_id as i64)));
                }
            }
        } else {
            let picked = choice->0;
            let i = choose|i: int| 0 <= i < candidates@.len() && candidates@[i] == picked;
            assert(store.eligible(now, candidates@[i].0 as int, candidates@[i].1 as int));
        }
    }
    store.resolve(choice)
}

} // verus!
