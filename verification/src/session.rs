//! Per-channel session registry: single-flight turn guards, stage lifecycle,
//! and idle eviction.
//!
//! Each chat channel owns one session. A turn request first tries to acquire
//! the session's guard without blocking: a request that finds the guard held
//! is refused at once and changes nothing. The stage lives inside the
//! session; a turn takes it out, runs, and hands it back together with the
//! outcome — a failure or timeout clears the stage, so the next accepted
//! turn starts a brand-new game. A background sweep evicts sessions idle for
//! a day, skipping any session whose guard is held.

use vstd::prelude::*;

use crate::stage::Stage;
use crate::stage::TurnResult;

verus! {

/// Idle time, in seconds, after which a session is evicted (24 hours).
pub const IDLE_EVICT_SECS: u64 = 86_400;

/// Bound on timestamps, in seconds, so that idle arithmetic cannot overflow.
pub const TIME_LIMIT: u64 = 4_000_000_000_000;

/// One chat channel's game session.
pub struct Session {
    pub channel_id: String,
    /// When the session was created or a turn last completed, in seconds.
    pub last_activity: u64,
    /// Whether a turn currently holds this session's guard.
    pub in_turn: bool,
    /// The running game; `None` before the first turn and after a game ends.
    pub stage: Option<Stage>,
}

/// The registry of all live sessions, keyed by channel id.
pub struct Registry {
    pub sessions: Vec<Session>,
}

impl Registry {
    pub open spec fn key_at(&self, i: int) -> Seq<char> {
        self.sessions@[i].channel_id@
    }

    pub open spec fn contains_channel(&self, ch: Seq<char>) -> bool {
        exists|i: int| 0 <= i < self.sessions@.len() && self.key_at(i) == ch
    }

    pub open spec fn index_of(&self, ch: Seq<char>) -> int {
        choose|i: int| 0 <= i < self.sessions@.len() && self.key_at(i) == ch
    }

    pub open spec fn session_of(&self, ch: Seq<char>) -> Session {
        self.sessions@[self.index_of(ch)]
    }

    pub open spec fn wf(&self) -> bool {
        &&& forall|i: int, j: int|
            0 <= i < j < self.sessions@.len() ==> self.key_at(i) != self.key_at(j)
        &&& forall|i: int| 0 <= i < self.sessions@.len() ==> (#[trigger] self.sessions@[i]).last_activity
            < TIME_LIMIT
    }

    /// An empty registry.
    pub fn new() -> (r: Registry)
        ensures
            r.wf(),
            r.sessions@.len() == 0,
    {
        Registry { sessions: Vec::new() }
    }

    fn find(&self, channel_id: &String) -> (r: Option<usize>)
        requires
            self.wf(),
        ensures
            match r {
                Some(i) => self.contains_channel(channel_id@) && i == self.index_of(channel_id@)
                    && i < self.sessions@.len() && self.key_at(i as int) == channel_id@,
                None => !self.contains_channel(channel_id@),
            },
    {
        let n = self.sessions.len();
        let mut i: usize = 0;
        while i < n
            invariant
                0 <= i <= n,
                n == self.sessions@.len(),
                self.wf(),
                forall|j: int| 0 <= j < i ==> self.key_at(j) != channel_id@,
            decreases n - i,
        {
            let entry = &self.sessions[i];
            if entry.channel_id == *channel_id {
                proof {
                    assert(self.key_at(i as int) == channel_id@);
                    assert(self.contains_channel(channel_id@));
                    let w = self.index_of(channel_id@);
                    assert(0 <= w < n && self.key_at(w) == channel_id@);
                    if w < i as int {
                        assert(self.key_at(w) != channel_id@);
                    }
                    if w > i as int {
                        assert(self.key_at(i as int) != self.key_at(w));
                    }
                    assert(w == i as int);
                }
                return Some(i);
            }
            i = i + 1;
        }
        None
    }

    /// Record that a channel was seen: an unknown channel gets a fresh idle
    /// session stamped with the current time; a known one is untouched.
    pub fn observe(&mut self, channel_id: String, now: u64)
        requires
            old(self).wf(),
            now < TIME_LIMIT,
        ensures
            final(self).wf(),
            final(self).contains_channel(channel_id@),
            old(self).contains_channel(channel_id@) ==> final(self).sessions@ == old(
                self,
            ).sessions@,
            !old(self).contains_channel(channel_id@) ==> final(self).sessions@ == old(
                self,
            ).sessions@.push(
                Session { channel_id, last_activity: now, in_turn: false, stage: None },
            ),
    {
        if self.find(&channel_id).is_none() {
            let ghost n = self.sessions@.len();
            let ghost pre = *self;
            self.sessions.push(
                Session { channel_id, last_activity: now, in_turn: false, stage: None },
            );
            proof {
                assert(self.key_at(n as int) == channel_id@);
                assert(forall|j: int| 0 <= j < n ==> self.key_at(j) == pre.key_at(j));
                assert forall|i: int, j: int|
                    0 <= i < j < self.sessions@.len() implies self.key_at(i) != self.key_at(
                    j,
                ) by {
                    if j < n {
                        assert(pre.key_at(i) != pre.key_at(j));
                    } else {
                        assert(pre.key_at(i) != channel_id@);
                    }
                }
            }
        }
    }

    /// Whether a known channel's session currently holds a stage.
    pub fn has_stage(&self, channel_id: &String) -> (r: bool)
        requires
            self.wf(),
            self.contains_channel(channel_id@),
        ensures
            r == (self.session_of(channel_id@).stage is Some),
    {
        let i = self.find(channel_id).unwrap();
        self.sessions[i].stage.is_some()
    }

    /// Try to acquire a channel's turn guard without blocking: a session
    /// already mid-turn refuses, anything else grants and marks the session
    /// mid-turn.
    pub fn try_begin_turn(&mut self, channel_id: &String) -> (granted: bool)
        requires
            old(self).wf(),
            old(self).contains_channel(channel_id@),
        ensures
            final(self).wf(),
            final(self).contains_channel(channel_id@),
            acquire_transition(*old(self), *final(self), channel_id@, granted),
    {
        let i = self.find(channel_id).unwrap();
        if self.sessions[i].in_turn {
            return false;
        }
        let mut s = self.sessions.remove(i);
        s.in_turn = true;
        let ghost s2 = s;
        self.sessions.insert(i, s);
        proof {
            assert(self.sessions@ =~= old(self).sessions@.update(i as int, s2));
            lemma_update_keeps_keys(*old(self), *self, i as int);
            assert(self.index_of(channel_id@) == i as int) by {
                let w = self.index_of(channel_id@);
                assert(self.contains_channel(channel_id@)) by {
                    assert(self.key_at(i as int) == channel_id@);
                }
                assert(0 <= w < self.sessions@.len() && self.key_at(w) == channel_id@);
            }
        }
        true
    }

    /// Take the stage out of a mid-turn session for the turn's own use; the
    /// session keeps `None` until the turn hands a stage back.
    pub fn take_stage(&mut self, channel_id: &String) -> (st: Option<Stage>)
        requires
            old(self).wf(),
            old(self).contains_channel(channel_id@),
            old(self).session_of(channel_id@).in_turn,
        ensures
            final(self).wf(),
            final(self).contains_channel(channel_id@),
            st == old(self).session_of(channel_id@).stage,
            final(self).sessions@ == old(self).sessions@.update(
                old(self).index_of(channel_id@),
                (Session { stage: None, ..old(self).session_of(channel_id@) }),
            ),
    {
        let i = self.find(channel_id).unwrap();
        let mut s = self.sessions.remove(i);
        let st = s.stage;
        s.stage = None;
        let ghost s2 = s;
        self.sessions.insert(i, s);
        proof {
            assert(self.sessions@ =~= old(self).sessions@.update(i as int, s2));
            lemma_update_keeps_keys(*old(self), *self, i as int);
        }
        st
    }

    /// Complete a turn: release the guard, stamp the activity time, and keep
    /// the stage exactly when the outcome was a success — a failure or
    /// timeout clears it, so the next accepted turn starts a brand-new game.
    pub fn finish_turn(&mut self, channel_id: &String, outcome: TurnResult, stage: Stage, now: u64)
        requires
            old(self).wf(),
            old(self).contains_channel(channel_id@),
            old(self).session_of(channel_id@).in_turn,
            now < TIME_LIMIT,
        ensures
            final(self).wf(),
            final(self).contains_channel(channel_id@),
            finish_transition(*old(self), *final(self), channel_id@, outcome, stage, now),
            final(self).session_of(channel_id@).in_turn == false,
            final(self).session_of(channel_id@).last_activity == now,
            outcome != TurnResult::Success ==> final(self).session_of(channel_id@).stage is None,
            outcome == TurnResult::Success ==> final(self).session_of(channel_id@).stage == Some(
                stage,
            ),
    {
        let i = self.find(channel_id).unwrap();
        let mut s = self.sessions.remove(i);
        s.last_activity = now;
        s.in_turn = false;
        s.stage = if outcome == TurnResult::Success {
            Some(stage)
        } else {
            None
        };
        let ghost s2 = s;
        self.sessions.insert(i, s);
        proof {
            assert(self.sessions@ =~= old(self).sessions@.update(i as int, s2));
            lemma_update_keeps_keys(*old(self), *self, i as int);
            assert(self.index_of(channel_id@) == i as int) by {
                let w = self.index_of(channel_id@);
                assert(self.contains_channel(channel_id@)) by {
                    assert(self.key_at(i as int) == channel_id@);
                }
                assert(0 <= w < self.sessions@.len() && self.key_at(w) == channel_id@);
            }
        }
    }

    /// Abandon a turn without an outcome: release the guard and hand the
    /// stage back unchanged, leaving the activity time untouched. This is
    /// the path for invalid input and for a turn whose snapshot could not be
    /// delivered.
    pub fn cancel_turn(&mut self, channel_id: &String, stage: Option<Stage>)
        requires
            old(self).wf(),
            old(self).contains_channel(channel_id@),
            old(self).session_of(channel_id@).in_turn,
        ensures
            final(self).wf(),
            final(self).contains_channel(channel_id@),
            final(self).sessions@ == old(self).sessions@.update(
                old(self).index_of(channel_id@),
                (Session { in_turn: false, stage, ..old(self).session_of(channel_id@) }),
            ),
    {
        let i = self.find(channel_id).unwrap();
        let mut s = self.sessions.remove(i);
        s.in_turn = false;
        s.stage = stage;
        let ghost s2 = s;
        self.sessions.insert(i, s);
        proof {
            assert(self.sessions@ =~= old(self).sessions@.update(i as int, s2));
            lemma_update_keeps_keys(*old(self), *self, i as int);
        }
    }

    /// Evict every session that has sat idle for `IDLE_EVICT_SECS` and is
    /// not mid-turn; a session whose guard is held is skipped and
    /// reconsidered on a later sweep.
    pub fn reap(&mut self, now: u64)
        requires
            old(self).wf(),
            now < TIME_LIMIT,
        ensures
            final(self).wf(),
            final(self).sessions@ == surviving_prefix(
                old(self).sessions@,
                now,
                old(self).sessions@.len() as int,
            ),
    {
        let ghost orig = self.sessions@;
        let n = self.sessions.len();
        let mut kept: Vec<Session> = Vec::new();
        let mut i: usize = 0;
        while i < n
            invariant
                0 <= i <= n,
                n == orig.len(),
                self.sessions@ == orig.skip(i as int),
                now < TIME_LIMIT,
                forall|a: int| 0 <= a < orig.len() ==> (#[trigger] orig[a]).last_activity
                    < TIME_LIMIT,
                kept@ == surviving_prefix(orig, now, i as int),
            decreases n - i,
        {
            let s = self.sessions.remove(0);
            proof {
                assert(orig.skip(i as int)[0] == orig[i as int]);
                assert(orig.skip(i as int).remove(0) =~= orig.skip(i as int + 1));
            }
            if s.in_turn || now < s.last_activity + IDLE_EVICT_SECS {
                kept.push(s);
            }
            i = i + 1;
        }
        proof {
            assert forall|a: int, b: int| 0 <= a < b < orig.len() implies (
            #[trigger] orig[a]).channel_id@ != (#[trigger] orig[b]).channel_id@ by {
                assert(old(self).key_at(a) != old(self).key_at(b));
            }
            lemma_surviving_wf(orig, now, orig.len() as int);
        }
        self.sessions = kept;
    }
}

/// The sweep's retained sessions are drawn from the original list, so their
/// keys stay pairwise distinct and their timestamps bounded.
proof fn lemma_surviving_wf(sessions: Seq<Session>, now: u64, k: int)
    requires
        0 <= k <= sessions.len(),
        forall|i: int, j: int| 0 <= i < j < sessions.len() ==> (#[trigger] sessions[i]).channel_id@
            != (#[trigger] sessions[j]).channel_id@,
        forall|i: int| 0 <= i < sessions.len() ==> (#[trigger] sessions[i]).last_activity
            < TIME_LIMIT,
    ensures
        forall|a: int| 0 <= a < surviving_prefix(sessions, now, k).len() ==> exists|i: int|
            0 <= i < k && #[trigger] surviving_prefix(sessions, now, k)[a] == sessions[i],
        forall|a: int, b: int|
            0 <= a < b < surviving_prefix(sessions, now, k).len() ==> (#[trigger] surviving_prefix(
                sessions,
                now,
                k,
            )[a]).channel_id@ != (#[trigger] surviving_prefix(sessions, now, k)[b]).channel_id@,
        forall|a: int| 0 <= a < surviving_prefix(sessions, now, k).len() ==> (
        #[trigger] surviving_prefix(sessions, now, k)[a]).last_activity < TIME_LIMIT,
    decreases k,
{
    if k > 0 {
        lemma_surviving_wf(sessions, now, k - 1);
        let rest = surviving_prefix(sessions, now, k - 1);
        let cur = surviving_prefix(sessions, now, k);
        if session_survives(sessions[k - 1], now) {
            assert(cur == rest.push(sessions[k - 1]));
            assert forall|a: int| 0 <= a < cur.len() implies exists|i: int|
                0 <= i < k && #[trigger] cur[a] == sessions[i] by {
                if a < rest.len() {
                    assert(cur[a] == rest[a]);
                    let i = choose|i: int| 0 <= i < k - 1 && rest[a] == sessions[i];
                    assert(0 <= i < k && cur[a] == sessions[i]);
                } else {
                    assert(cur[a] == sessions[k - 1]);
                }
            }
            assert forall|a: int, b: int| 0 <= a < b < cur.len() implies (
            #[trigger] cur[a]).channel_id@ != (#[trigger] cur[b]).channel_id@ by {
                if b < rest.len() {
                    assert(cur[a] == rest[a] && cur[b] == rest[b]);
                } else {
                    assert(cur[a] == rest[a] && cur[b] == sessions[k - 1]);
                    let i = choose|i: int| 0 <= i < k - 1 && rest[a] == sessions[i];
                    assert(sessions[i].channel_id@ != sessions[k - 1].channel_id@);
                }
            }
        } else {
            assert(cur == rest);
        }
    }
}

/// Whether `after` is `before` with one session's turn completed: the guard
/// released, the activity time stamped, and the stage kept exactly when the
/// outcome was a success.
pub open spec fn finish_transition(
    before: Registry,
    after: Registry,
    ch: Seq<char>,
    outcome: TurnResult,
    stage: Stage,
    now: u64,
) -> bool {
    after.sessions@ == before.sessions@.update(
        before.index_of(ch),
        (Session {
            channel_id: before.session_of(ch).channel_id,
            last_activity: now,
            in_turn: false,
            stage: if outcome == TurnResult::Success {
                Some(stage)
            } else {
                None
            },
        }),
    )
}

/// Reset law: a turn that ends in failure or timeout leaves its session
/// without a stage, so what the next accepted turn on that session takes
/// out is `None` — it must start a brand-new game, and no object of the
/// ended game survives into it.
pub proof fn lemma_reset_law(
    before: Registry,
    after: Registry,
    ch: Seq<char>,
    outcome: TurnResult,
    stage: Stage,
    now: u64,
)
    requires
        before.wf(),
        before.contains_channel(ch),
        finish_transition(before, after, ch, outcome, stage, now),
        outcome != TurnResult::Success,
    ensures
        after.session_of(ch).stage is None,
{
    let i = before.index_of(ch);
    assert(0 <= i < before.sessions@.len() && before.key_at(i) == ch);
    assert(after.key_at(i) == ch);
    assert(after.contains_channel(ch));
    let w = after.index_of(ch);
    assert(0 <= w < after.sessions@.len() && after.key_at(w) == ch);
    if w != i {
        assert(after.key_at(w) == before.key_at(w));
        assert(before.key_at(w) != before.key_at(i));
    }
    assert(after.sessions@[i].stage is None);
}

/// Whether one guard acquisition attempt and its result follow the
/// single-flight rule: the attempt is granted exactly when no turn holds the
/// session's guard, a granted attempt marks the guard held, and a refused
/// attempt changes nothing.
pub open spec fn acquire_transition(
    before: Registry,
    after: Registry,
    ch: Seq<char>,
    granted: bool,
) -> bool {
    &&& granted == !before.session_of(ch).in_turn
    &&& granted ==> after.sessions@ == before.sessions@.update(
        before.index_of(ch),
        (Session { in_turn: true, ..before.session_of(ch) }),
    )
    &&& !granted ==> after.sessions@ == before.sessions@
}

/// The sessions among the first `k` that a sweep at time `now` retains, in
/// order: those mid-turn or active within the idle limit.
pub open spec fn surviving_prefix(sessions: Seq<Session>, now: u64, k: int) -> Seq<Session>
    decreases k,
{
    if k <= 0 {
        Seq::empty()
    } else {
        let rest = surviving_prefix(sessions, now, k - 1);
        if session_survives(sessions[k - 1], now) {
            rest.push(sessions[k - 1])
        } else {
            rest
        }
    }
}

/// Whether a sweep at time `now` retains this session.
pub open spec fn session_survives(s: Session, now: u64) -> bool {
    s.in_turn || now < s.last_activity + IDLE_EVICT_SECS
}

/// Updating one session in place leaves every key where it was.
proof fn lemma_update_keeps_keys(before: Registry, after: Registry, i: int)
    requires
        before.wf(),
        0 <= i < before.sessions@.len(),
        after.sessions@.len() == before.sessions@.len(),
        forall|j: int| 0 <= j < before.sessions@.len() && j != i ==> after.sessions@[j] == before.sessions@[j],
        after.key_at(i) == before.key_at(i),
        after.sessions@[i].last_activity < TIME_LIMIT,
    ensures
        after.wf(),
        forall|j: int| 0 <= j < after.sessions@.len() ==> after.key_at(j) == before.key_at(j),
{
    assert forall|j: int| 0 <= j < after.sessions@.len() implies after.key_at(j) == before.key_at(
        j,
    ) by {
        if j != i {
            assert(after.sessions@[j] == before.sessions@[j]);
        }
    }
}

/// Single-flight law: when one turn request acquires a session's guard, any
/// second request on the same session that arrives before the first
/// completes is refused; the two never both run.
pub proof fn lemma_single_flight(
    r0: Registry,
    r1: Registry,
    r2: Registry,
    ch: Seq<char>,
    g1: bool,
    g2: bool,
)
    requires
        r0.wf(),
        r0.contains_channel(ch),
        acquire_transition(r0, r1, ch, g1),
        g1,
        acquire_transition(r1, r2, ch, g2),
    ensures
        !g2,
{
    let i = r0.index_of(ch);
    assert(0 <= i < r0.sessions@.len() && r0.key_at(i) == ch);
    assert(r1.key_at(i) == ch);
    assert(r1.contains_channel(ch));
    let w = r1.index_of(ch);
    assert(0 <= w < r1.sessions@.len() && r1.key_at(w) == ch);
    if w != i {
        assert(r1.key_at(w) == r0.key_at(w));
        assert(r0.key_at(w) != r0.key_at(i));
    }
    assert(r1.sessions@[i].in_turn);
    assert(r1.session_of(ch) == r1.sessions@[i]);
}

} // verus!
