//! The per-guild session: the mutable record of whether the bot is
//! connected, what is playing, and what is queued, together with the
//! orchestrator transitions that the commands drive and the occupancy
//! watchdog's decision rule.
//!
//! Each transition is an executable method whose contract ties the new
//! state to a specification-level transition function, so that the
//! session invariant — at most one playback handle, and none at all
//! when disconnected — is proved preserved by every operation.

use vstd::prelude::*;

use crate::metadata::YtInfo;

verus! {

/// A queued, not yet resolved request: the text a playable source will
/// be built from when its turn comes.
#[derive(Debug, Clone)]
pub struct TrackRequest {
    pub query: String,
}

/// The mutable per-guild record the commands read and write.
#[derive(Debug)]
pub struct StateInfo {
    pub is_joined: bool,
    pub current_song_desc: String,
    pub current_song_link: String,
    pub _yt_utils: YtInfo,
    pub current_song_length: Option<u64>,
    pub is_playing: bool,
}

impl StateInfo {
    pub fn set_is_joined(&mut self, value: bool)
        ensures
            final(self).is_joined == value,
            final(self).current_song_desc == old(self).current_song_desc,
            final(self).current_song_link == old(self).current_song_link,
            final(self)._yt_utils == old(self)._yt_utils,
            final(self).current_song_length == old(self).current_song_length,
            final(self).is_playing == old(self).is_playing,
    {
        self.is_joined = value;
    }

    pub fn set_current_song_desc(&mut self, value: String)
        ensures
            final(self).current_song_desc == value,
            final(self).is_joined == old(self).is_joined,
            final(self).current_song_link == old(self).current_song_link,
            final(self)._yt_utils == old(self)._yt_utils,
            final(self).current_song_length == old(self).current_song_length,
            final(self).is_playing == old(self).is_playing,
    {
        self.current_song_desc = value;
    }

    pub fn set_current_song_link(&mut self, value: String)
        ensures
            final(self).current_song_link == value,
            final(self).is_joined == old(self).is_joined,
            final(self).current_song_desc == old(self).current_song_desc,
            final(self)._yt_utils == old(self)._yt_utils,
            final(self).current_song_length == old(self).current_song_length,
            final(self).is_playing == old(self).is_playing,
    {
        self.current_song_link = value;
    }

    pub fn set_current_song_length(&mut self, value: Option<u64>)
        ensures
            final(self).current_song_length == value,
            final(self).is_joined == old(self).is_joined,
            final(self).current_song_desc == old(self).current_song_desc,
            final(self).current_song_link == old(self).current_song_link,
            final(self)._yt_utils == old(self)._yt_utils,
            final(self).is_playing == old(self).is_playing,
    {
        self.current_song_length = value;
    }

    pub fn set_is_playing(&mut self, value: bool)
        ensures
            final(self).is_playing == value,
            final(self).is_joined == old(self).is_joined,
            final(self).current_song_desc == old(self).current_song_desc,
            final(self).current_song_link == old(self).current_song_link,
            final(self)._yt_utils == old(self)._yt_utils,
            final(self).current_song_length == old(self).current_song_length,
    {
        self.is_playing = value;
    }
}

/// The pending requests of one guild, played first in, first out.
#[derive(Debug)]
pub struct Queue1 {
    pub queue: Vec<TrackRequest>,
}

impl Queue1 {
    /// Drops the request at the head, if there is one.
    pub fn remove_fist(&mut self)
        ensures
            old(self).queue@.len() > 0 ==> final(self).queue@ == old(self).queue@.skip(1),
            old(self).queue@.len() == 0 ==> final(self).queue@ == old(self).queue@,
    {
        if self.queue.len() > 0 {
            self.queue.remove(0);
            proof {
                assert(old(self).queue@.remove(0) =~= old(self).queue@.skip(1));
            }
        }
    }
}

/// One guild's session: the record, the queue, the handle of the track
/// now attached (if any), and the watchdog generation that lets an
/// explicit departure cancel a running watchdog.
#[derive(Debug)]
pub struct GuildSession {
    pub info: StateInfo,
    pub queue: Queue1,
    pub handle: Option<u64>,
    pub watchdog_gen: u64,
}

/// The generation after `g`, wrapping at the top.
pub open spec fn next_gen(g: u64) -> u64 {
    if g == u64::MAX {
        0
    } else {
        (g + 1) as u64
    }
}

/// How many playback handles the session holds.
pub open spec fn active_handles(s: GuildSession) -> nat {
    if s.handle is Some {
        1
    } else {
        0
    }
}

impl GuildSession {
    /// The session invariant: a playing session holds a handle, and a
    /// disconnected session neither plays nor holds one.
    pub open spec fn wf(self) -> bool {
        &&& (self.info.is_playing ==> self.handle is Some)
        &&& (!self.info.is_joined ==> !self.info.is_playing && self.handle is None)
    }

    /// A fresh, disconnected session.
    pub fn new() -> (r: Self)
        ensures
            !r.info.is_joined,
            !r.info.is_playing,
            r.info.current_song_desc@ == Seq::<char>::empty(),
            r.info.current_song_link@ == Seq::<char>::empty(),
            r.info.current_song_length is None,
            r.queue.queue@.len() == 0,
            r.handle is None,
            r.watchdog_gen == 0,
            r.wf(),
    {
        GuildSession {
            info: StateInfo {
                is_joined: false,
                current_song_desc: String::new(),
                current_song_link: String::new(),
                _yt_utils: Default::default(),
                current_song_length: None,
                is_playing: false,
            },
            queue: Queue1 { queue: Vec::new() },
            handle: None,
            watchdog_gen: 0,
        }
    }
}

/// The state after a successful connection: joined, with a fresh
/// watchdog generation; playback state and queue untouched.
pub open spec fn spec_join_ok(s: GuildSession) -> GuildSession {
    GuildSession {
        info: StateInfo {
            is_joined: true,
            current_song_desc: s.info.current_song_desc,
            current_song_link: s.info.current_song_link,
            _yt_utils: s.info._yt_utils,
            current_song_length: s.info.current_song_length,
            is_playing: s.info.is_playing,
        },
        queue: s.queue,
        handle: s.handle,
        watchdog_gen: next_gen(s.watchdog_gen),
    }
}

/// The state after leaving: disconnected, nothing playing, no handle,
/// the watchdog generation advanced so a running watchdog stands down;
/// the queue and the current-track record stay for later queries.
pub open spec fn spec_leave(s: GuildSession) -> GuildSession {
    GuildSession {
        info: StateInfo {
            is_joined: false,
            current_song_desc: s.info.current_song_desc,
            current_song_link: s.info.current_song_link,
            _yt_utils: s.info._yt_utils,
            current_song_length: s.info.current_song_length,
            is_playing: false,
        },
        queue: s.queue,
        handle: None,
        watchdog_gen: next_gen(s.watchdog_gen),
    }
}

/// The state after a new track is attached under `id`: playing, the
/// new handle replacing whatever was there.
pub open spec fn spec_attach(s: GuildSession, id: u64) -> GuildSession {
    GuildSession {
        info: StateInfo {
            is_joined: s.info.is_joined,
            current_song_desc: s.info.current_song_desc,
            current_song_link: s.info.current_song_link,
            _yt_utils: s.info._yt_utils,
            current_song_length: s.info.current_song_length,
            is_playing: true,
        },
        queue: s.queue,
        handle: Some(id),
        watchdog_gen: s.watchdog_gen,
    }
}

/// The state after stopping: no longer playing; the handle stays in
/// place, stopped, and the current-track record is kept for queries.
pub open spec fn spec_stop(s: GuildSession) -> GuildSession {
    GuildSession {
        info: StateInfo {
            is_joined: s.info.is_joined,
            current_song_desc: s.info.current_song_desc,
            current_song_link: s.info.current_song_link,
            _yt_utils: s.info._yt_utils,
            current_song_length: s.info.current_song_length,
            is_playing: false,
        },
        queue: s.queue,
        handle: s.handle,
        watchdog_gen: s.watchdog_gen,
    }
}

/// What the pause toggle can do: nothing to act on, or ask the handle
/// for its play state and toggle it.
#[derive(Clone, Copy, Debug, PartialEq, Eq, Structural)]
pub enum PauseStep {
    /// No handle exists; the reply says there is no track.
    NoTrack,
    /// A handle exists; the caller queries it and applies the toggle.
    Query,
}

/// The pause toggle acts exactly when a handle exists.
pub open spec fn spec_pause_step(s: GuildSession) -> PauseStep {
    if s.handle is None {
        PauseStep::NoTrack
    } else {
        PauseStep::Query
    }
}

/// The transport action a pause toggle resolves to.
#[derive(Clone, Copy, Debug, PartialEq, Eq, Structural)]
pub enum PauseAction {
    /// The track was playing and is paused.
    Pause,
    /// The track was not playing and is resumed.
    Resume,
}

impl GuildSession {
    /// Whether a connection exists; commands that need one consult
    /// this guard first and join implicitly when it fails.
    pub fn ready(&self) -> (r: bool)
        ensures
            r == self.info.is_joined,
    {
        self.info.is_joined
    }

    /// Whether a playback handle is attached, stopped or not.
    pub fn has_active_handle(&self) -> (r: bool)
        ensures
            r == (self.handle is Some),
    {
        match self.handle {
            Some(_) => true,
            None => false,
        }
    }

    /// Records a successful connection and arms a new watchdog
    /// generation, which the caller reads back to start its watchdog.
    pub fn join_succeeded(&mut self)
        requires
            old(self).wf(),
        ensures
            *final(self) == spec_join_ok(*old(self)),
            final(self).wf(),
    {
        self.info.set_is_joined(true);
        self.watchdog_gen = if self.watchdog_gen == u64::MAX {
            0
        } else {
            self.watchdog_gen + 1
        };
    }

    /// Leaves the channel: playback state cleared, watchdog stood
    /// down.  Sound from any state, so leaving twice is harmless.
    pub fn leave(&mut self)
        ensures
            *final(self) == spec_leave(*old(self)),
            final(self).wf(),
            final(self).handle is None,
    {
        self.info.set_is_joined(false);
        self.info.set_is_playing(false);
        self.handle = None;
        self.watchdog_gen = if self.watchdog_gen == u64::MAX {
            0
        } else {
            self.watchdog_gen + 1
        };
    }

    /// The current watchdog generation; a watchdog acts only while its
    /// own generation is still current.
    pub fn watchdog_generation(&self) -> (r: u64)
        ensures
            r == self.watchdog_gen,
    {
        self.watchdog_gen
    }

    /// Picks what to play: the head of the queue takes priority over
    /// the freshly resolved source, and is dequeued.
    pub fn next_source(&mut self, resolved: String) -> (r: String)
        ensures
            old(self).queue.queue@.len() > 0 ==> final(self).queue.queue@ == old(
                self,
            ).queue.queue@.skip(1) && r@ == old(self).queue.queue@[0].query@,
            old(self).queue.queue@.len() == 0 ==> final(self).queue.queue@ == old(
                self,
            ).queue.queue@ && r@ == resolved@,
            final(self).info == old(self).info,
            final(self).handle == old(self).handle,
            final(self).watchdog_gen == old(self).watchdog_gen,
    {
        if self.queue.queue.len() > 0 {
            let head = self.queue.queue[0].query.clone();
            self.queue.remove_fist();
            head
        } else {
            resolved
        }
    }

    /// Attaches a new track under `id` and reports whether an old one
    /// must be stopped first — exactly when one was playing.  The
    /// caller performs the stop before the attach, under the same
    /// session borrow, which keeps the pair atomic for this guild.
    pub fn attach_track(&mut self, id: u64) -> (stop_first: bool)
        requires
            old(self).wf(),
            old(self).info.is_joined,
        ensures
            stop_first == old(self).info.is_playing,
            *final(self) == spec_attach(*old(self), id),
            final(self).wf(),
    {
        let stop_first = self.info.is_playing;
        self.info.set_is_playing(true);
        self.handle = Some(id);
        stop_first
    }

    /// Decides the pause toggle: with no handle there is nothing to
    /// pause or resume.
    pub fn pause_step(&self) -> (r: PauseStep)
        ensures
            r == spec_pause_step(*self),
    {
        match self.handle {
            None => PauseStep::NoTrack,
            Some(_) => PauseStep::Query,
        }
    }

    /// Stops playback.  The stopped handle stays attached, as the
    /// transport leaves it, and the current-track record is kept.
    /// Returns whether the transport must be told — exactly when a
    /// connection exists.
    pub fn stop_playback(&mut self) -> (r: bool)
        ensures
            r == old(self).info.is_joined,
            *final(self) == spec_stop(*old(self)),
            old(self).wf() ==> final(self).wf(),
    {
        let joined = self.info.is_joined;
        self.info.set_is_playing(false);
        joined
    }

    /// Appends a request at the tail of the queue.
    pub fn enqueue(&mut self, req: TrackRequest)
        ensures
            final(self).queue.queue@ == old(self).queue.queue@.push(req),
            final(self).info == old(self).info,
            final(self).handle == old(self).handle,
            final(self).watchdog_gen == old(self).watchdog_gen,
            old(self).wf() ==> final(self).wf(),
    {
        self.queue.queue.push(req);
    }
}

/// What the pause toggle does once the handle's play state is known.
pub fn pause_apply(playing_now: bool) -> (r: PauseAction)
    ensures
        r == (if playing_now {
            PauseAction::Pause
        } else {
            PauseAction::Resume
        }),
{
    if playing_now {
        PauseAction::Pause
    } else {
        PauseAction::Resume
    }
}

/// What one watchdog tick does.
#[derive(Clone, Copy, Debug, PartialEq, Eq, Structural)]
pub enum WatchdogStep {
    /// The generation is no longer current: the watchdog stands down
    /// without touching the session.
    Stale,
    /// Company remains in the channel: nothing to do.
    Keep,
    /// The bot sits alone: the session leaves, and the watchdog ends.
    ForceLeave,
}

/// The watchdog leaves exactly when fewer than two occupants remain
/// and the bot itself is among them.
pub open spec fn spec_should_leave(occupants: Seq<u64>, bot_id: u64) -> bool {
    occupants.len() < 2 && occupants.contains(bot_id)
}

/// What a tick of generation `my_gen` decides on `occupants`.
pub open spec fn spec_watchdog_step(
    s: GuildSession,
    my_gen: u64,
    occupants: Seq<u64>,
    bot_id: u64,
) -> WatchdogStep {
    if my_gen != s.watchdog_gen {
        WatchdogStep::Stale
    } else if spec_should_leave(occupants, bot_id) {
        WatchdogStep::ForceLeave
    } else {
        WatchdogStep::Keep
    }
}

/// Decides whether the occupant list triggers the automatic departure.
pub fn watchdog_should_leave(occupants: &Vec<u64>, bot_id: u64) -> (r: bool)
    ensures
        r == spec_should_leave(occupants@, bot_id),
{
    if occupants.len() >= 2 {
        proof {
            assert(!spec_should_leave(occupants@, bot_id));
        }
        return false;
    }
    let mut i: usize = 0;
    while i < occupants.len()
        invariant
            occupants@.len() < 2,
            i <= occupants@.len(),
            forall|j: int| 0 <= j < i ==> occupants@[j] != bot_id,
        decreases occupants@.len() - i,
    {
        if occupants[i] == bot_id {
            proof {
                assert(0 <= i as int && (i as int) < occupants@.len());
                assert(occupants@[i as int] == bot_id);
                assert(occupants@.contains(bot_id));
            }
            return true;
        }
        i += 1;
    }
    proof {
        assert(!occupants@.contains(bot_id)) by {
            if occupants@.contains(bot_id) {
                let w = choose|j: int| 0 <= j < occupants@.len() && occupants@[j] == bot_id;
                assert(occupants@[w] != bot_id);
            }
        }
    }
    false
}

impl GuildSession {
    /// One tick of the watchdog of generation `my_gen`: a stale
    /// generation stands down, company keeps the session as it is,
    /// and solitude forces the leave transition.
    pub fn watchdog_tick(&mut self, my_gen: u64, occupants: &Vec<u64>, bot_id: u64) -> (r:
        WatchdogStep)
        ensures
            r == spec_watchdog_step(*old(self), my_gen, occupants@, bot_id),
            r == WatchdogStep::ForceLeave ==> *final(self) == spec_leave(*old(self)),
            r != WatchdogStep::ForceLeave ==> *final(self) == *old(self),
            old(self).wf() ==> final(self).wf(),
    {
        if my_gen != self.watchdog_generation() {
            return WatchdogStep::Stale;
        }
        if watchdog_should_leave(occupants, bot_id) {
            self.leave();
            WatchdogStep::ForceLeave
        } else {
            WatchdogStep::Keep
        }
    }
}

// ---------------------------------------------------------------------------
// Laws of the orchestrator.
// ---------------------------------------------------------------------------
/// A well-formed session holds at most one playback handle, and every
/// orchestrator transition preserves well-formedness — so at any
/// instant at most one handle exists per guild, however commands
/// interleave.
pub proof fn lemma_at_most_one_handle(s: GuildSession, id: u64)
    requires
        s.wf(),
    ensures
        active_handles(s) <= 1,
        spec_join_ok(s).wf() && active_handles(spec_join_ok(s)) <= 1,
        spec_leave(s).wf() && active_handles(spec_leave(s)) <= 1,
        s.info.is_joined ==> spec_attach(s, id).wf() && active_handles(spec_attach(s, id)) <= 1,
        spec_stop(s).wf() && active_handles(spec_stop(s)) <= 1,
{
}

/// The attach transition replaces rather than adds: whatever handle a
/// playing session held is gone from the state the moment the new one
/// is attached, and the operation's contract makes the caller stop the
/// old track first.
pub proof fn lemma_attach_replaces(s: GuildSession, id: u64)
    requires
        s.wf(),
        s.info.is_joined,
    ensures
        spec_attach(s, id).handle == Some(id),
        active_handles(spec_attach(s, id)) == 1,
{
}

/// Leaving and then toggling pause finds no track: the leave
/// transition clears the handle, so the toggle reports that there is
/// nothing to pause rather than erring.
pub proof fn lemma_pause_after_leave(s: GuildSession)
    ensures
        spec_pause_step(spec_leave(s)) == PauseStep::NoTrack,
{
}

/// An occupant list holding only the bot forces the leave within the
/// tick that sees it; a list of two or more occupants never does.
pub proof fn lemma_watchdog_solitude(s: GuildSession, occupants: Seq<u64>, bot_id: u64)
    ensures
        occupants =~= seq![bot_id] ==> spec_watchdog_step(s, s.watchdog_gen, occupants, bot_id)
            == WatchdogStep::ForceLeave,
        occupants.len() >= 2 ==> spec_watchdog_step(s, s.watchdog_gen, occupants, bot_id)
            != WatchdogStep::ForceLeave,
{
    if occupants =~= seq![bot_id] {
        assert(occupants[0] == bot_id);
        assert(occupants.contains(bot_id));
    }
}

/// A watchdog whose generation was outrun by an explicit departure or
/// a new connection never acts again: its tick is stale and leaves the
/// session untouched.
pub proof fn lemma_watchdog_cancelled(s: GuildSession, occupants: Seq<u64>, bot_id: u64)
    ensures
        spec_watchdog_step(spec_leave(s), s.watchdog_gen, occupants, bot_id) == WatchdogStep::Stale,
        spec_watchdog_step(spec_join_ok(s), s.watchdog_gen, occupants, bot_id)
            == WatchdogStep::Stale,
{
}

/// Leaving is idempotent in everything a user can observe: a second
/// leave changes neither the record, the queue, nor the handle; only
/// the internal watchdog generation moves on.
pub proof fn lemma_leave_idempotent(s: GuildSession)
    ensures
        spec_leave(spec_leave(s)).info == spec_leave(s).info,
        spec_leave(spec_leave(s)).queue == spec_leave(s).queue,
        spec_leave(spec_leave(s)).handle == spec_leave(s).handle,
{
}

} // verus!
