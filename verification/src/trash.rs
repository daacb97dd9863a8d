//! The session trash: what a cleaning session moved away, how long it is
//! kept, and how sessions are listed, restored and forgotten.

use vstd::prelude::*;
use crate::paths::{join, join_spec};
use crate::scanner::Platform;
use crate::sort::{Keyed, stable_desc_of, with_key, law_ordering_is_permutation};
use crate::text::{chars_of, decimal, decimal_string, is_ws, opt_view, pad_left, pad_left_spec, pad_right, pad_right_spec, push_decimal, trim_bounds, trimmed};
use crate::display::{human_size, human_size_text};

verus! {

broadcast use vstd::seq_lib::group_seq_properties;

/// Seconds that a session stays in the trash: thirty days.
pub const RETENTION_SECS: u64 = 2_592_000;

/// One artefact moved into the trash.
#[derive(Debug, Clone)]
pub struct TrashEntry {
    /// Where it was.
    pub original: String,
    /// The label of its kind.
    pub kind: String,
    /// Its bytes.
    pub size: u64,
    /// The name of its slot in the session directory.
    pub index: usize,
}

/// The artefacts moved by one cleaning session.
#[derive(Debug, Clone)]
pub struct TrashSession {
    /// The session's name, also the name of its directory in the trash.
    pub id: String,
    /// When it was recorded, in seconds since the Unix epoch.
    pub timestamp: u64,
    pub entries: Vec<TrashEntry>,
}

impl Keyed for TrashSession {
    open spec fn sort_key(&self) -> u64 {
        self.timestamp
    }

    fn key(&self) -> (k: u64) {
        self.timestamp
    }
}

/// The bytes of the entries together.
pub open spec fn entries_size(es: Seq<TrashEntry>) -> nat
    decreases es.len(),
{
    if es.len() == 0 {
        0
    } else {
        entries_size(es.drop_last()) + es.last().size as nat
    }
}

/// How long ago something happened, in the largest whole unit: "just now"
/// under a minute, then minutes, hours, and days. A time in the future
/// counts as now.
pub open spec fn age_text(timestamp: u64, now: u64) -> Seq<char> {
    let diff: nat = if now >= timestamp {
        (now - timestamp) as nat
    } else {
        0
    };
    if diff < 60 {
        "just now"@
    } else if diff < 3600 {
        decimal(diff / 60) + " min ago"@
    } else if diff < 86400 {
        decimal(diff / 3600) + " h ago"@
    } else {
        decimal(diff / 86400) + " days ago"@
    }
}

/// Calls `std::time::SystemTime::now` and gives the seconds since the Unix
/// epoch, or 0 when the clock is set before it. Nothing is stated of the
/// result: it is the time.
#[verifier::external_body]
pub fn now_secs() -> u64 {
    match std::time::SystemTime::now().duration_since(std::time::UNIX_EPOCH) {
        Ok(d) => d.as_secs(),
        Err(_) => 0,
    }
}

/// How long before `now` the time `timestamp` was.
pub fn age_label_at(timestamp: u64, now: u64) -> (s: String)
    ensures
        s@ == age_text(timestamp, now),
{
    let diff: u64 = if now >= timestamp {
        now - timestamp
    } else {
        0
    };
    if diff < 60 {
        String::from_str("just now")
    } else if diff < 3600 {
        let mut s = decimal_string(diff / 60);
        s.append(" min ago");
        s
    } else if diff < 86400 {
        let mut s = decimal_string(diff / 3600);
        s.append(" h ago");
        s
    } else {
        let mut s = decimal_string(diff / 86400);
        s.append(" days ago");
        s
    }
}

impl TrashSession {
    /// The bytes of the session's entries together.
    pub fn total_size(&self) -> (t: u64)
        requires
            entries_size(self.entries@) <= u64::MAX,
        ensures
            t == entries_size(self.entries@),
    {
        let mut t: u64 = 0;
        let mut i: usize = 0;
        while i < self.entries.len()
            invariant
                i <= self.entries@.len(),
                entries_size(self.entries@) <= u64::MAX,
                t == entries_size(self.entries@.take(i as int)),
            decreases self.entries@.len() - i,
        {
            proof {
                lemma_entries_size_prefix(self.entries@, i + 1);
                assert(self.entries@.take(i + 1).drop_last() == self.entries@.take(i as int));
            }
            t = t + self.entries[i].size;
            i = i + 1;
        }
        assert(self.entries@.take(i as int) == self.entries@);
        t
    }

    /// How long ago the session was recorded, by the clock of the machine.
    pub fn age_label(&self) -> (s: String)
        ensures
            exists|now: u64| s@ == age_text(self.timestamp, now),
    {
        let now = now_secs();
        age_label_at(self.timestamp, now)
    }
}

/// The total of a prefix never exceeds the total of the whole.
pub proof fn lemma_entries_size_prefix(es: Seq<TrashEntry>, i: int)
    requires
        0 <= i <= es.len(),
    ensures
        entries_size(es.take(i)) <= entries_size(es),
    decreases es.len() - i,
{
    if i < es.len() {
        lemma_entries_size_prefix(es, i + 1);
        assert(es.take(i + 1).drop_last() == es.take(i));
    } else {
        assert(es.take(i) == es);
    }
}


/// The oldest timestamp that a session may have and stay: thirty days
/// before `now`, or the epoch when `now` is earlier than that.
pub open spec fn cutoff_spec(now: u64) -> u64 {
    if now >= RETENTION_SECS {
        (now - RETENTION_SECS) as u64
    } else {
        0
    }
}

/// The session is recent enough to stay in the trash.
pub open spec fn is_kept(s: TrashSession, cutoff: u64) -> bool {
    s.timestamp >= cutoff
}

/// The sessions that stay, in their order.
pub open spec fn kept_spec(sessions: Seq<TrashSession>, cutoff: u64) -> Seq<TrashSession> {
    sessions.filter(|s: TrashSession| is_kept(s, cutoff))
}

/// The names of the sessions that expire, in their order.
pub open spec fn expired_ids_spec(sessions: Seq<TrashSession>, cutoff: u64) -> Seq<Seq<char>> {
    sessions.filter(|s: TrashSession| !is_kept(s, cutoff)).map_values(|s: TrashSession| s.id@)
}

proof fn lemma_filter_push<T>(s: Seq<T>, x: T, pred: spec_fn(T) -> bool)
    ensures
        s.push(x).filter(pred) == if pred(x) {
            s.filter(pred).push(x)
        } else {
            s.filter(pred)
        },
{
    reveal(Seq::filter);
    assert(s.push(x).drop_last() == s);
}

/// Drops the sessions recorded before `cutoff`, keeping the others in
/// their order, and gives the names of the dropped ones (whose directories
/// are to be deleted).
pub fn purge_before(sessions: &mut Vec<TrashSession>, cutoff: u64) -> (expired: Vec<String>)
    ensures
        final(sessions)@ == kept_spec(old(sessions)@, cutoff),
        expired@.map_values(|s: String| s@) == expired_ids_spec(old(sessions)@, cutoff),
{
    let ghost orig = sessions@;
    let mut rest: Vec<TrashSession> = Vec::new();
    std::mem::swap(&mut rest, sessions);
    let mut kept: Vec<TrashSession> = Vec::new();
    let mut expired: Vec<String> = Vec::new();
    let n = rest.len();
    let mut i: usize = 0;
    while i < n
        invariant
            n == orig.len(),
            i <= n,
            rest@ == orig.subrange(i as int, n as int),
            kept@ == kept_spec(orig.take(i as int), cutoff),
            expired@.map_values(|s: String| s@) == expired_ids_spec(orig.take(i as int), cutoff),
        decreases n - i,
    {
        let s = rest.remove(0);
        proof {
            assert(orig.take(i + 1) == orig.take(i as int).push(s));
            lemma_filter_push(orig.take(i as int), s, |x: TrashSession| is_kept(x, cutoff));
            lemma_filter_push(orig.take(i as int), s, |x: TrashSession| !is_kept(x, cutoff));
        }
        if s.timestamp >= cutoff {
            kept.push(s);
        } else {
            let ghost before = expired@;
            expired.push(s.id);
            proof {
                assert(expired@.map_values(|x: String| x@) =~= before.map_values(|x: String| x@).push(
                    s.id@,
                ));
            }
        }
        i = i + 1;
    }
    proof {
        assert(orig.take(n as int) == orig);
    }
    *sessions = kept;
    expired
}

/// Drops the sessions older than thirty days by the clock of the machine,
/// and gives the names of the dropped ones.
pub fn purge_old(sessions: &mut Vec<TrashSession>) -> (expired: Vec<String>)
    ensures
        exists|now: u64|
            final(sessions)@ == kept_spec(old(sessions)@, cutoff_spec(now)) && expired@.map_values(
                |s: String| s@,
            ) == expired_ids_spec(old(sessions)@, cutoff_spec(now)),
{
    let now = now_secs();
    let cutoff = now.saturating_sub(RETENTION_SECS);
    assert(cutoff == cutoff_spec(now));
    purge_before(sessions, cutoff)
}

/// What becomes of a finished cleaning session.
pub enum Recording {
    /// Nothing was moved: the session is not recorded and its empty
    /// directory is to be deleted.
    Discarded,
    /// The session is recorded: the trash now holds `sessions`, and the
    /// directories of the `expired` sessions are to be deleted.
    Recorded { sessions: Vec<TrashSession>, expired: Vec<String> },
}

/// Records a session at time `now`: a session without entries is
/// discarded; otherwise the sessions older than thirty days are dropped
/// and the new session is added last.
pub fn record_session_at(
    sessions: Vec<TrashSession>,
    session_id: &str,
    entries: Vec<TrashEntry>,
    now: u64,
) -> (r: Recording)
    ensures
        entries@.len() == 0 <==> r is Discarded,
        match r {
            Recording::Discarded => true,
            Recording::Recorded { sessions: out, expired } => {
                &&& out@ == kept_spec(sessions@, cutoff_spec(now)).push(
                    TrashSession { id: out@.last().id, timestamp: now, entries },
                )
                &&& out@.last().id@ == session_id@
                &&& expired@.map_values(|s: String| s@) == expired_ids_spec(
                    sessions@,
                    cutoff_spec(now),
                )
            },
        },
{
    if entries.len() == 0 {
        return Recording::Discarded;
    }
    let mut all = sessions;
    let expired = purge_before(&mut all, now.saturating_sub(RETENTION_SECS));
    let id = String::from_str(session_id);
    all.push(TrashSession { id, timestamp: now, entries });
    Recording::Recorded { sessions: all, expired }
}

/// Records a session at the time of the machine's clock.
pub fn record_session(sessions: Vec<TrashSession>, session_id: &str, entries: Vec<TrashEntry>) -> (r:
    Recording)
    ensures
        entries@.len() == 0 <==> r is Discarded,
        match r {
            Recording::Discarded => true,
            Recording::Recorded { sessions: out, expired } => exists|now: u64|
                {
                    &&& out@ == kept_spec(sessions@, cutoff_spec(now)).push(
                        TrashSession { id: out@.last().id, timestamp: now, entries },
                    )
                    &&& out@.last().id@ == session_id@
                    &&& expired@.map_values(|s: String| s@) == expired_ids_spec(
                        sessions@,
                        cutoff_spec(now),
                    )
                },
        },
{
    let now = now_secs();
    record_session_at(sessions, session_id, entries, now)
}

/// The sessions other than the one named `id`, in their order.
pub open spec fn without_spec(sessions: Seq<TrashSession>, id: Seq<char>) -> Seq<TrashSession> {
    sessions.filter(|s: TrashSession| s.id@ != id)
}

/// Forgets the session named `id` (every session of that name).
pub fn remove_session(sessions: Vec<TrashSession>, id: &str) -> (r: Vec<TrashSession>)
    ensures
        r@ == without_spec(sessions@, id@),
{
    let ghost orig = sessions@;
    let mut rest = sessions;
    let mut out: Vec<TrashSession> = Vec::new();
    let n = rest.len();
    let mut i: usize = 0;
    while i < n
        invariant
            n == orig.len(),
            i <= n,
            rest@ == orig.subrange(i as int, n as int),
            out@ == without_spec(orig.take(i as int), id@),
        decreases n - i,
    {
        let s = rest.remove(0);
        proof {
            assert(orig.take(i + 1) == orig.take(i as int).push(s));
            lemma_filter_push(orig.take(i as int), s, |x: TrashSession| x.id@ != id@);
        }
        if !crate::text::str_eq(s.id.as_str(), id) {
            out.push(s);
        }
        i = i + 1;
    }
    proof {
        assert(orig.take(n as int) == orig);
    }
    out
}


/// The tool's own directory, `~/.gluttony`.
pub open spec fn gluttony_dir_spec(home: Option<Seq<char>>, platform: Platform) -> Option<Seq<char>> {
    match home {
        Some(h) => Some(join_spec(h, ".gluttony"@, platform)),
        None => None,
    }
}

/// The tool's own directory under the home directory; `None` when the home
/// directory is not known.
pub fn gluttony_dir(home: Option<&str>, platform: Platform) -> (r: Option<String>)
    ensures
        r matches Some(d) ==> gluttony_dir_spec(opt_view(home), platform) == Some(d@),
        r is None <==> home is None,
{
    match home {
        Some(h) => Some(join(h, ".gluttony", platform)),
        None => None,
    }
}

/// The file that lists the recorded sessions, `~/.gluttony/sessions.json`.
pub fn sessions_path(home: Option<&str>, platform: Platform) -> (r: Option<String>)
    ensures
        r matches Some(p) ==> home matches Some(h) && p@ == join_spec(
            join_spec(h@, ".gluttony"@, platform),
            "sessions.json"@,
            platform,
        ),
        r is None <==> home is None,
{
    match gluttony_dir(home, platform) {
        Some(d) => Some(join(d.as_str(), "sessions.json", platform)),
        None => None,
    }
}

/// The directory of one session, `~/.gluttony/trash/<id>`.
pub fn session_trash_dir(home: Option<&str>, session_id: &str, platform: Platform) -> (r: Option<String>)
    ensures
        r matches Some(p) ==> home matches Some(h) && p@ == join_spec(
            join_spec(join_spec(h@, ".gluttony"@, platform), "trash"@, platform),
            session_id@,
            platform,
        ),
        r is None <==> home is None,
{
    match gluttony_dir(home, platform) {
        Some(d) => {
            let t = join(d.as_str(), "trash", platform);
            Some(join(t.as_str(), session_id, platform))
        },
        None => None,
    }
}

/// Where entry `index` of a session is kept: the slot named by the index
/// in the session directory. Moving an artefact in and restoring it use
/// this same place.
pub fn slot_path(session_dir: &str, index: usize, platform: Platform) -> (r: String)
    ensures
        r@ == join_spec(session_dir@, decimal(index as nat), platform),
{
    let name = decimal_string(index as u64);
    join(session_dir, name.as_str(), platform)
}

/// The name of a new session: the current time in seconds, in decimal.
pub fn new_session_id() -> (id: String)
    ensures
        exists|now: u64| id@ == decimal(now as nat),
{
    decimal_string(now_secs())
}

/// The word "artefact" with the number's agreement, as the session list
/// shows it: a space after it for one, an `s` otherwise.
pub open spec fn artefacts_word(n: nat) -> Seq<char> {
    if n == 1 {
        " artefact "@
    } else {
        " artefacts"@
    }
}

/// A line of the session list: age, number of artefacts and their bytes,
/// in columns of 16, 3 and 10 characters.
pub open spec fn session_label_text(s: TrashSession, now: u64) -> Seq<char> {
    pad_right_spec(age_text(s.timestamp, now), 16) + "  "@ + pad_left_spec(
        decimal(s.entries@.len()),
        3,
    ) + artefacts_word(s.entries@.len()) + "  "@ + pad_left_spec(
        human_size_text(entries_size(s.entries@)),
        10,
    )
}

/// The line under which a session is offered for restoring, at time `now`.
pub fn session_label_at(s: &TrashSession, now: u64) -> (r: String)
    requires
        entries_size(s.entries@) <= u64::MAX,
    ensures
        r@ == session_label_text(*s, now),
{
    let age = age_label_at(s.timestamp, now);
    let mut r = pad_right(age.as_str(), 16);
    r.append("  ");
    let count = decimal_string(s.entries.len() as u64);
    let count_col = pad_left(count.as_str(), 3);
    r.append(count_col.as_str());
    if s.entries.len() == 1 {
        r.append(" artefact ");
    } else {
        r.append(" artefacts");
    }
    r.append("  ");
    let size = human_size(s.total_size());
    let size_col = pad_left(size.as_str(), 10);
    r.append(size_col.as_str());
    r
}

/// The line under which a session is offered for restoring, by the clock
/// of the machine.
pub fn session_label(s: &TrashSession) -> (r: String)
    requires
        entries_size(s.entries@) <= u64::MAX,
    ensures
        exists|now: u64| r@ == session_label_text(*s, now),
{
    session_label_at(s, now_secs())
}

/// What the tool says after restoring a session: how many artefacts came
/// back, and how many did not.
pub open spec fn restore_message_text(restored: nat, failed: nat) -> Seq<char> {
    if failed == 0 {
        "Restored "@ + decimal(restored) + (if restored == 1 {
            " artefact."@
        } else {
            " artefacts."@
        })
    } else {
        "Restored "@ + decimal(restored) + ". "@ + decimal(failed) + " could not be restored."@
    }
}

/// The message after restoring a session.
pub fn restore_message(restored: u64, failed: u64) -> (r: String)
    ensures
        r@ == restore_message_text(restored as nat, failed as nat),
{
    let mut r = String::from_str("Restored ");
    push_decimal(&mut r, restored);
    if failed == 0 {
        if restored == 1 {
            r.append(" artefact.");
        } else {
            r.append(" artefacts.");
        }
    } else {
        r.append(". ");
        push_decimal(&mut r, failed);
        r.append(" could not be restored.");
    }
    r
}

/// The bytes of all the entries of all the sessions together.
pub open spec fn sessions_size(ss: Seq<TrashSession>) -> nat
    decreases ss.len(),
{
    if ss.len() == 0 {
        0
    } else {
        sessions_size(ss.drop_last()) + entries_size(ss.last().entries@)
    }
}

/// The number of entries of all the sessions together.
pub open spec fn sessions_entries(ss: Seq<TrashSession>) -> nat
    decreases ss.len(),
{
    if ss.len() == 0 {
        0
    } else {
        sessions_entries(ss.drop_last()) + ss.last().entries@.len()
    }
}

proof fn lemma_sessions_prefix(ss: Seq<TrashSession>, i: int)
    requires
        0 <= i <= ss.len(),
    ensures
        sessions_size(ss.take(i)) <= sessions_size(ss),
        sessions_entries(ss.take(i)) <= sessions_entries(ss),
    decreases ss.len() - i,
{
    if i < ss.len() {
        lemma_sessions_prefix(ss, i + 1);
        assert(ss.take(i + 1).drop_last() == ss.take(i));
    } else {
        assert(ss.take(i) == ss);
    }
}

/// What the trash holds: the bytes and the number of its entries.
pub fn trash_totals(sessions: &Vec<TrashSession>) -> (r: (u64, u64))
    requires
        sessions_size(sessions@) <= u64::MAX,
        sessions_entries(sessions@) <= u64::MAX,
    ensures
        r.0 == sessions_size(sessions@),
        r.1 == sessions_entries(sessions@),
{
    let mut size: u64 = 0;
    let mut count: u64 = 0;
    let mut i: usize = 0;
    while i < sessions.len()
        invariant
            i <= sessions@.len(),
            sessions_size(sessions@) <= u64::MAX,
            sessions_entries(sessions@) <= u64::MAX,
            size == sessions_size(sessions@.take(i as int)),
            count == sessions_entries(sessions@.take(i as int)),
        decreases sessions@.len() - i,
    {
        proof {
            lemma_sessions_prefix(sessions@, i + 1);
            assert(sessions@.take(i + 1).drop_last() == sessions@.take(i as int));
        }
        let s = &sessions[i];
        size = size + s.total_size();
        count = count + s.entries.len() as u64;
        i = i + 1;
    }
    assert(sessions@.take(i as int) == sessions@);
    (size, count)
}

/// The bytes freed by emptying the trash: those of each session whose
/// directory was removed (`Some(true)`); a failed removal (`Some(false)`) or
/// a session without a directory (`None`) frees nothing.
pub open spec fn freed_sessions(ss: Seq<TrashSession>, outcomes: Seq<Option<bool>>) -> nat
    decreases ss.len(),
{
    if ss.len() == 0 || outcomes.len() == 0 {
        0
    } else {
        freed_sessions(ss.drop_last(), outcomes.drop_last()) + if outcomes.last() == Some(true) {
            entries_size(ss.last().entries@)
        } else {
            0nat
        }
    }
}

/// How many removals failed.
pub open spec fn failed_removals(outcomes: Seq<Option<bool>>) -> nat
    decreases outcomes.len(),
{
    if outcomes.len() == 0 {
        0
    } else {
        failed_removals(outcomes.drop_last()) + if outcomes.last() == Some(false) {
            1nat
        } else {
            0nat
        }
    }
}

proof fn lemma_freed_bounded(ss: Seq<TrashSession>, outcomes: Seq<Option<bool>>)
    requires
        ss.len() == outcomes.len(),
    ensures
        freed_sessions(ss, outcomes) <= sessions_size(ss),
        failed_removals(outcomes) <= outcomes.len(),
    decreases ss.len(),
{
    if ss.len() > 0 {
        lemma_freed_bounded(ss.drop_last(), outcomes.drop_last());
    }
}

/// Counts the outcome of emptying the trash: for each session, whether its
/// directory was removed. Gives the bytes freed and the number of sessions
/// that could not be removed.
pub fn emptied_tally(sessions: &Vec<TrashSession>, outcomes: &Vec<Option<bool>>) -> (r: (u64, u64))
    requires
        outcomes@.len() == sessions@.len(),
        sessions_size(sessions@) <= u64::MAX,
    ensures
        r.0 == freed_sessions(sessions@, outcomes@),
        r.1 == failed_removals(outcomes@),
{
    let mut freed: u64 = 0;
    let mut failed: u64 = 0;
    let mut i: usize = 0;
    while i < sessions.len()
        invariant
            i <= sessions@.len(),
            outcomes@.len() == sessions@.len(),
            sessions_size(sessions@) <= u64::MAX,
            freed == freed_sessions(sessions@.take(i as int), outcomes@.take(i as int)),
            failed == failed_removals(outcomes@.take(i as int)),
            failed <= i,
        decreases sessions@.len() - i,
    {
        proof {
            let s1 = sessions@.take(i + 1);
            let o1 = outcomes@.take(i + 1);
            assert(s1.drop_last() == sessions@.take(i as int));
            assert(o1.drop_last() == outcomes@.take(i as int));
            lemma_freed_bounded(s1, o1);
            lemma_sessions_prefix(sessions@, i + 1);
        }
        match outcomes[i] {
            Some(true) => {
                freed = freed + sessions[i].total_size();
            },
            Some(false) => {
                failed = failed + 1;
            },
            None => {},
        }
        i = i + 1;
    }
    assert(sessions@.take(i as int) == sessions@);
    assert(outcomes@.take(i as int) == outcomes@);
    (freed, failed)
}

/// How many of the moves succeeded.
pub open spec fn count_ok(results: Seq<bool>) -> nat
    decreases results.len(),
{
    if results.len() == 0 {
        0
    } else {
        count_ok(results.drop_last()) + if results.last() {
            1nat
        } else {
            0nat
        }
    }
}

proof fn lemma_count_ok_bounded(results: Seq<bool>)
    ensures
        count_ok(results) <= results.len(),
    decreases results.len(),
{
    if results.len() > 0 {
        lemma_count_ok_bounded(results.drop_last());
    }
}

/// Counts the outcome of restoring a session: for each entry, whether it
/// was moved back. Gives the number restored, the number that failed, and
/// whether the session's directory is to be removed, which it is only when
/// nothing failed.
pub fn restore_tally(results: &Vec<bool>) -> (r: (u64, u64, bool))
    ensures
        r.0 == count_ok(results@),
        r.0 + r.1 == results@.len(),
        r.2 == (r.1 == 0),
{
    let mut restored: u64 = 0;
    let mut failed: u64 = 0;
    let mut i: usize = 0;
    while i < results.len()
        invariant
            i <= results@.len(),
            restored == count_ok(results@.take(i as int)),
            restored + failed == i,
        decreases results@.len() - i,
    {
        proof {
            assert(results@.take(i + 1).drop_last() == results@.take(i as int));
            lemma_count_ok_bounded(results@.take(i as int));
        }
        if results[i] {
            restored = restored + 1;
        } else {
            failed = failed + 1;
        }
        i = i + 1;
    }
    assert(results@.take(i as int) == results@);
    (restored, failed, failed == 0)
}

/// What the tool says after emptying the trash.
pub open spec fn emptied_message_text(freed: nat, errors: nat) -> Seq<char> {
    if errors == 0 {
        "Trash emptied. "@ + human_size_text(freed) + " permanently freed."@
    } else {
        "Done. "@ + human_size_text(freed) + " freed. "@ + decimal(errors) + (if errors == 1 {
            " session could not be fully removed."@
        } else {
            " sessions could not be fully removed."@
        })
    }
}

/// The message after emptying the trash.
pub fn emptied_message(freed: u64, errors: u64) -> (r: String)
    ensures
        r@ == emptied_message_text(freed as nat, errors as nat),
{
    let size = human_size(freed);
    if errors == 0 {
        let mut r = String::from_str("Trash emptied. ");
        r.append(size.as_str());
        r.append(" permanently freed.");
        r
    } else {
        let mut r = String::from_str("Done. ");
        r.append(size.as_str());
        r.append(" freed. ");
        push_decimal(&mut r, errors);
        if errors == 1 {
            r.append(" session could not be fully removed.");
        } else {
            r.append(" sessions could not be fully removed.");
        }
        r
    }
}

/// The character in lower case, for the letters of "yes"; other characters
/// are kept.
pub open spec fn lower(c: char) -> char {
    if c == 'Y' {
        'y'
    } else if c == 'E' {
        'e'
    } else if c == 'S' {
        's'
    } else {
        c
    }
}

/// A typed answer that agrees: after trimming white space and in lower
/// case, it reads `y` or `yes`.
pub open spec fn is_yes_spec(input: Seq<char>) -> bool {
    exists|start: int, end: int|
        trimmed(input, start, end) && {
            let t = input.subrange(start, end);
            (t.len() == 1 && lower(t[0]) == 'y') || (t.len() == 3 && lower(t[0]) == 'y' && lower(t[1]) == 'e'
                && lower(t[2]) == 's')
        }
}

proof fn lemma_trim_unique(s: Seq<char>, a: int, b: int, c: int, d: int)
    requires
        trimmed(s, a, b),
        trimmed(s, c, d),
    ensures
        s.subrange(a, b) == s.subrange(c, d),
{
    if a < b && c < d {
        if a < c {
            assert(is_ws(s[a]));
        }
        if c < a {
            assert(is_ws(s[c]));
        }
        if b < d {
            assert(is_ws(s[d - 1]));
        }
        if d < b {
            assert(is_ws(s[b - 1]));
        }
    } else if a < b {
        if c <= a {
            assert(is_ws(s[a]));
        } else {
            assert(is_ws(s[b - 1]));
        }
    } else if c < d {
        if a <= c {
            assert(is_ws(s[c]));
        } else {
            assert(is_ws(s[d - 1]));
        }
    }
    assert(s.subrange(a, b) =~= s.subrange(c, d));
}

/// Whether a typed answer agrees to a confirmation question.
pub fn is_yes(input: &str) -> (r: bool)
    ensures
        r == is_yes_spec(input@),
{
    let cs = chars_of(input);
    let (start, end) = trim_bounds(&cs);
    let ghost t = cs@.subrange(start as int, end as int);
    let len = end - start;
    let r = if len == 1 {
        let a = cs[start];
        a == 'y' || a == 'Y'
    } else if len == 3 {
        let a = cs[start];
        let b = cs[start + 1];
        let c = cs[start + 2];
        (a == 'y' || a == 'Y') && (b == 'e' || b == 'E') && (c == 's' || c == 'S')
    } else {
        false
    };
    proof {
        let good = |t: Seq<char>|
            (t.len() == 1 && lower(t[0]) == 'y') || (t.len() == 3 && lower(t[0]) == 'y' && lower(t[1])
                == 'e' && lower(t[2]) == 's');
        assert(r == good(t));
        if r {
            assert(trimmed(input@, start as int, end as int));
        } else {
            assert forall|a: int, b: int| trimmed(input@, a, b) implies !good(input@.subrange(a, b)) by {
                lemma_trim_unique(input@, a, b, start as int, end as int);
            }
        }
    }
    r
}


/// Forgetting a session right after recording it leaves the trash as the
/// recording left the older sessions, provided none of those bears the
/// same name.
pub proof fn law_forget_recorded(
    sessions: Seq<TrashSession>,
    recorded: TrashSession,
    cutoff: u64,
)
    requires
        forall|i: int| 0 <= i < sessions.len() ==> (#[trigger] sessions[i]).id@ != recorded.id@,
    ensures
        without_spec(kept_spec(sessions, cutoff).push(recorded), recorded.id@) == kept_spec(
            sessions,
            cutoff,
        ),
{
    let kept = kept_spec(sessions, cutoff);
    let pred = |s: TrashSession| s.id@ != recorded.id@;
    lemma_filter_push(kept, recorded, pred);
    let keep = |s: TrashSession| is_kept(s, cutoff);
    assert forall|i: int| 0 <= i < kept.len() implies pred(#[trigger] kept[i]) by {
        sessions.lemma_filter_contains_rev(keep, kept[i]);
        let j = choose|j: int| 0 <= j < sessions.len() && sessions[j] == kept[i];
        assert(sessions[j].id@ != recorded.id@);
    }
    lemma_filter_all(kept, pred);
}

proof fn lemma_filter_all<T>(s: Seq<T>, pred: spec_fn(T) -> bool)
    requires
        forall|i: int| 0 <= i < s.len() ==> pred(#[trigger] s[i]),
    ensures
        s.filter(pred) == s,
    decreases s.len(),
{
    reveal(Seq::filter);
    if s.len() > 0 {
        lemma_filter_all(s.drop_last(), pred);
        assert(s.drop_last().push(s.last()) == s);
    } else {
        assert(s.filter(pred) =~= s);
    }
}


proof fn lemma_filter_split<T>(s: Seq<T>, pred: spec_fn(T) -> bool, neg: spec_fn(T) -> bool)
    requires
        forall|x: T| #[trigger] neg(x) == !pred(x),
    ensures
        s.filter(pred).len() + s.filter(neg).len() == s.len(),
    decreases s.len(),
{
    reveal(Seq::filter);
    if s.len() > 0 {
        lemma_filter_split(s.drop_last(), pred, neg);
    }
}

/// Purging loses no session: every session is either kept or named among
/// the expired ones.
pub proof fn law_purge_partitions(sessions: Seq<TrashSession>, cutoff: u64)
    ensures
        kept_spec(sessions, cutoff).len() + expired_ids_spec(sessions, cutoff).len() == sessions.len(),
{
    lemma_filter_split(
        sessions,
        |s: TrashSession| is_kept(s, cutoff),
        |s: TrashSession| !is_kept(s, cutoff),
    );
}

/// The sessions recorded at second `t`, in their order.
pub open spec fn recorded_at(ss: Seq<TrashSession>, t: u64) -> Seq<TrashSession> {
    ss.filter(|x: TrashSession| x.timestamp == t)
}

/// Sessions put in order for undoing are listed by the time they were
/// recorded, newest first; sessions recorded at the same second keep their
/// order; and no session is added or lost.
pub proof fn law_sessions_newest_first(r: Seq<TrashSession>, s: Seq<TrashSession>)
    requires
        stable_desc_of(r, s),
    ensures
        forall|i: int, j: int| 0 <= i < j < r.len() ==> r[i].timestamp >= r[j].timestamp,
        forall|t: u64| #[trigger] recorded_at(r, t) == recorded_at(s, t),
        r.to_multiset() =~= s.to_multiset(),
{
    assert forall|i: int, j: int| 0 <= i < j < r.len() implies r[i].timestamp >= r[j].timestamp by {
        assert(r[i].sort_key() >= r[j].sort_key());
    }
    assert forall|t: u64| #[trigger] recorded_at(r, t) == recorded_at(s, t) by {
        assert(with_key(r, t) == with_key(s, t));
        assert((|x: TrashSession| x.sort_key() == t) =~= (|x: TrashSession| x.timestamp == t));
    }
    law_ordering_is_permutation(r, s);
}

/// A session stays in the trash exactly while it is at most thirty days
/// old: purging at time `now` keeps a session recorded at `t` if and only
/// if `t` plus thirty days is not before `now`.
pub proof fn law_thirty_days(s: TrashSession, now: u64)
    ensures
        is_kept(s, cutoff_spec(now)) <==> s.timestamp + 30 * 24 * 60 * 60 >= now,
{
}

} // verus!
