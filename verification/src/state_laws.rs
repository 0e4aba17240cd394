//! Laws of what changes from step to step: replays, watchers, reads and the indexer.

use crate::byte_laws;
use crate::host::Serve;
use crate::indexing;
use crate::indexing::{IndexedVolume, Indexer, Phase};
use crate::settings::SettingsChange;
use crate::usn::{CatchUp, JournalState, Replay, ReplayStep, Watch};
use crate::volumes::{Fill, FillStep};
use vstd::prelude::*;

verus! {

/// A replay whose read failed is stale. One whose read gave no higher number has caught up
/// where it stands; one that got further stands there, reads on before its end and has
/// caught up from there on.
pub proof fn law_replay_read(before: Replay, next: Option<i64>, after: Replay, r: ReplayStep)
    requires
        exists|m: &mut Replay|
            call_ensures(Replay::after_read, (m, next), r) && *m == before && *final(m) == after,
    ensures
        after.journal_id == before.journal_id && after.end == before.end,
        next is None ==> r == ReplayStep::Done(CatchUp::Stale) && after.cursor == before.cursor,
        next matches Some(n) ==> {
            &&& n <= before.cursor ==> after.cursor == before.cursor && r == ReplayStep::Done(
                CatchUp::Caught { next_usn: before.cursor },
            )
            &&& n > before.cursor ==> after.cursor == n
            &&& before.cursor < n < before.end ==> r == (ReplayStep::Read {
                journal_id: before.journal_id,
                start_usn: n,
            })
            &&& n > before.cursor && n >= before.end ==> r == ReplayStep::Done(
                CatchUp::Caught { next_usn: n },
            )
        },
{
}

/// A watcher goes on from the number in the first eight bytes that it read, in the journal
/// that it watches, and has events where more bytes follow.
pub proof fn law_watch_read(before: Watch, buf: &[u8], after: Watch, r: bool)
    requires
        buf@.len() >= 8,
        exists|m: &mut Watch|
            call_ensures(Watch::after_read, (m, buf), r) && *m == before && *final(m) == after,
    ensures
        after.journal_id == before.journal_id,
        byte_laws::eight(buf@, 0) <= i64::MAX ==> after.next_usn == byte_laws::eight(buf@, 0),
        r <==> buf@.len() > 8,
{
    byte_laws::law_low_byte_first(buf@, 0);
}

/// A watcher whose read failed goes on from where the journal now ends, and stays where it
/// is when that is not known.
pub proof fn law_watch_error(before: Watch, state: Option<JournalState>, after: Watch)
    requires
        exists|m: &mut Watch|
            call_ensures(Watch::after_error, (m, state), ()) && *m == before && *final(m) == after,
    ensures
        state matches Some(s) ==> after.journal_id == s.journal_id && after.next_usn == s.next_usn,
        state is None ==> after == before,
{
}

/// A buffer counts the bytes that it got, ends where it got none, and is full where none
/// is missing.
pub proof fn law_fill_got(before: Fill, read: u32, after: Fill, r: FillStep)
    requires
        before.wf(),
        read <= before.len - before.filled,
        exists|m: &mut Fill|
            call_ensures(Fill::got, (m, read), r) && *m == before && *final(m) == after,
    ensures
        after.len == before.len,
        after.filled == before.filled + read,
        r is Ended <==> read == 0,
        r is Full <==> read > 0 && after.filled == after.len,
{
}

/// The service takes up to 64 requests at a time.
pub proof fn law_inflight(before: Serve, inflight: usize, after: Serve, r: bool)
    requires
        exists|m: &mut Serve|
            call_ensures(Serve::accepted, (m, inflight), r) && *m == before && *final(m) == after,
    ensures
        after.ever_accepted,
        r <==> inflight < 64,
{
}

/// A change of settings keeps the first problem that came up.
pub proof fn law_first_problem(
    before: SettingsChange,
    outcome: Result<(), String>,
    after: SettingsChange,
)
    requires
        exists|m: &mut SettingsChange|
            call_ensures(SettingsChange::done, (m, outcome), ()) && *m == before && *final(m)
                == after,
    ensures
        after.wanted == before.wanted,
        before.problem is Some ==> after.problem == before.problem,
        before.problem is None && outcome is Ok ==> after.problem is None,
        before.problem is None ==> (outcome matches Err(e) ==> after.problem == Some(e)),
{
}

/// The indexer takes up its drives one after the other, and shows which one it reads.
pub proof fn law_next_drive(before: Indexer, after: Indexer, r: Option<char>)
    requires
        exists|m: &mut Indexer|
            call_ensures(Indexer::next_drive, (m,), r) && *m == before && *final(m) == after,
    ensures
        r is Some <==> before.taken < before.drives@.len(),
        r matches Some(d) ==> d == before.drives@[before.taken as int] && after.taken == before.taken
            + 1 && after.scanning@ == seq![d, ':'],
        r is None ==> after.taken == before.taken,
        after.drives == before.drives && after.phase == before.phase && after.committed
            == before.committed && after.indexed == before.indexed,
{
}

/// A drive that is online counts with its entries.
pub proof fn law_online(
    before: Indexer,
    drive: char,
    serial: u32,
    count: usize,
    after: Indexer,
)
    requires
        before.committed + count <= usize::MAX,
        exists|m: &mut Indexer|
            call_ensures(Indexer::online, (m, drive, serial, count), ()) && *m == before
                && *final(m) == after,
    ensures
        after.committed == before.committed + count,
        after.indexed@ == before.indexed@.push(IndexedVolume { drive, serial }),
        after.phase == before.phase && after.drives == before.drives && after.taken == before.taken,
{
}

/// The indexer is ready exactly where a drive is online when it has taken up all.
pub proof fn law_finish(before: Indexer, after: Indexer, r: bool)
    requires
        exists|m: &mut Indexer|
            call_ensures(Indexer::finish, (m,), r) && *m == before && *final(m) == after,
    ensures
        r <==> before.indexed@.len() > 0,
        r <==> after.phase is Ready,
        !r ==> after.phase is Error,
        after.scanning@.len() == 0,
        after.committed == before.committed && after.indexed == before.indexed,
{
}

/// Without a drive to index the indexer is in error.
pub proof fn law_found(before: Indexer, drives: Vec<char>, after: Indexer, r: bool)
    requires
        exists|m: &mut Indexer|
            call_ensures(Indexer::found, (m, drives), r) && *m == before && *final(m) == after,
    ensures
        r <==> drives@.len() > 0,
        r ==> after.phase == before.phase,
        !r ==> after.phase is Error,
        after.drives == drives && after.taken == 0,
{
}

/// What the indexer shows: while it works the drive that it reads, when it is ready all of
/// them, and in both the entries so far; in error why.
pub proof fn law_shown(x: Indexer, progress: usize)
    requires
        x.committed + progress <= usize::MAX,
    ensures
        x.phase is Indexing ==> x.shown(progress).state == "indexing"@ && x.shown(progress).count
            == x.committed + progress && (x.scanning@.len() > 0 ==> x.shown(progress).volume
            == x.scanning@),
        x.phase is Ready ==> x.shown(progress).state == "ready"@ && x.shown(progress).count
            == x.committed + progress && x.shown(progress).volume == x.label(),
        x.phase matches Phase::Error(m) ==> x.shown(progress).state == "error"@ && x.shown(
            progress,
        ).message == m@,
        x.drives@.len() == 1 ==> x.label() == seq![x.drives@[0], ':'],
        x.drives@.len() == 2 ==> x.label() == seq![x.drives@[0], ':', ' ', x.drives@[1], ':'],
{
    if x.drives@.len() == 2 {
        let front = x.drives@.drop_last();
        assert(front.len() == 1 && front[0] == x.drives@[0]);
        assert(indexing::drive_labels(front) == seq![front[0], ':']);
        assert(x.drives@.last() == x.drives@[1]);
        assert(x.label() =~= seq![x.drives@[0], ':', ' ', x.drives@[1], ':']);
    }
}

} // verus!
