//! A room of peer connections whose media tracks are muted and unmuted
//! together, each track's state kept in a reactive field.
use crate::field::OnceAndManyReactiveField;
use crate::proto::{Command, Event};
use crate::channels::Waiter;
use crate::subscribers::{
    lemma_bool_is_lawful, registered, Completion, Entry, OnReactiveFieldModification, Subscribers,
};
use vstd::prelude::*;

verus! {

/// The kind of media a track sends.
#[derive(Clone, Copy, Debug, PartialEq, Eq, Structural)]
pub enum SenderKind {
    Video,
    Audio,
}

/// Whether a track of `kind` is among the channels that `audio` and `video`
/// name.
pub open spec fn selects(kind: SenderKind, audio: bool, video: bool) -> bool {
    (kind == SenderKind::Audio && audio) || (kind == SenderKind::Video && video)
}

impl SenderKind {
    /// Whether a track of this kind is among the channels that `audio` and
    /// `video` name.
    pub fn is_selected(&self, audio: bool, video: bool) -> (r: bool)
        ensures
            r == selects(*self, audio, video),
    {
        (*self == SenderKind::Audio && audio) || (*self == SenderKind::Video && video)
    }
}

/// One media track of a peer connection.
pub struct TrackSender {
    kind: SenderKind,
    is_muted: OnceAndManyReactiveField<bool>,
    is_busy: bool,
}

impl TrackSender {
    pub closed spec fn kind(&self) -> SenderKind {
        self.kind
    }

    pub closed spec fn muted(&self) -> bool {
        self.is_muted.value()
    }

    pub closed spec fn busy(&self) -> bool {
        self.is_busy
    }

    /// The subscribers of the track's muted state.
    pub closed spec fn waiters(&self) -> Subscribers<bool> {
        self.is_muted.subscribers()
    }

    /// A track of `kind`, unmuted and idle.
    pub fn new(kind: SenderKind) -> (s: Self)
        ensures
            s.kind() == kind,
            !s.muted(),
            !s.busy(),
            s.waiters().entries() == Seq::<Entry<bool>>::empty(),
            s.waiters().completions() == Seq::<Completion>::empty(),
            s.waiters().next_id() == 0,
    {
        TrackSender { kind, is_muted: OnceAndManyReactiveField::<bool>::new(false), is_busy: false }
    }

    /// Sets the muted state to `muted`; the subscribers hear of it if it
    /// changed.
    fn set_muted(&mut self, muted: bool)
        ensures
            final(self).kind() == old(self).kind(),
            final(self).busy() == old(self).busy(),
            final(self).muted() == muted,
            if old(self).muted() == muted {
                final(self).waiters() == old(self).waiters()
            } else {
                old(self).waiters().notified(muted, final(self).waiters())
            },
    {
        let mut guard = self.is_muted.borrow_mut();
        *guard.data = muted;
        guard.release();
        proof {
            lemma_bool_is_lawful();
        }
    }

    /// Mutes the track.
    pub fn mute(&mut self)
        ensures
            final(self).kind() == old(self).kind(),
            final(self).busy() == old(self).busy(),
            final(self).muted(),
            if old(self).muted() {
                final(self).waiters() == old(self).waiters()
            } else {
                old(self).waiters().notified(true, final(self).waiters())
            },
    {
        self.set_muted(true);
    }

    /// Unmutes the track.
    pub fn unmute(&mut self)
        ensures
            final(self).kind() == old(self).kind(),
            final(self).busy() == old(self).busy(),
            !final(self).muted(),
            if !old(self).muted() {
                final(self).waiters() == old(self).waiters()
            } else {
                old(self).waiters().notified(false, final(self).waiters())
            },
    {
        self.set_muted(false);
    }

    /// A future that completes once a later change leaves the track's muted
    /// state equal to `muted`.
    fn await_muted(&mut self, muted: bool) -> (rx: Waiter)
        ensures
            final(self).kind() == old(self).kind(),
            final(self).busy() == old(self).busy(),
            final(self).muted() == old(self).muted(),
            registered(
                old(self).waiters(),
                Entry::Once { id: old(self).waiters().next_id(), chan: rx.chan(), target: muted },
                final(self).waiters(),
            ),
    {
        self.is_muted.when_eq(muted)
    }

    /// A future that completes once a later change leaves the track muted.
    pub fn on_mute(&mut self) -> (rx: Waiter)
        ensures
            final(self).kind() == old(self).kind(),
            final(self).busy() == old(self).busy(),
            final(self).muted() == old(self).muted(),
            registered(
                old(self).waiters(),
                Entry::Once { id: old(self).waiters().next_id(), chan: rx.chan(), target: true },
                final(self).waiters(),
            ),
    {
        self.await_muted(true)
    }

    /// A future that completes once a later change leaves the track unmuted.
    pub fn on_unmute(&mut self) -> (rx: Waiter)
        ensures
            final(self).kind() == old(self).kind(),
            final(self).busy() == old(self).busy(),
            final(self).muted() == old(self).muted(),
            registered(
                old(self).waiters(),
                Entry::Once { id: old(self).waiters().next_id(), chan: rx.chan(), target: false },
                final(self).waiters(),
            ),
    {
        self.await_muted(false)
    }

    /// Whether the track is busy.
    pub fn is_busy(&self) -> (r: bool)
        ensures
            r == self.busy(),
    {
        self.is_busy
    }

    /// Whether the track is muted.
    pub fn is_muted(&self) -> (r: bool)
        ensures
            r == self.muted(),
    {
        *self.is_muted.read()
    }
}

/// `after` is the track `before` once the channels `audio` and `video` were
/// set to `muted`: a selected track in the other state changes and its
/// subscribers get one pass carrying the new state; any other track stays.
pub open spec fn track_set(
    before: TrackSender,
    after: TrackSender,
    audio: bool,
    video: bool,
    muted: bool,
) -> bool {
    if selects(before.kind(), audio, video) && before.muted() != muted {
        &&& after.kind() == before.kind()
        &&& after.busy() == before.busy()
        &&& after.muted() == muted
        &&& before.waiters().notified(muted, after.waiters())
    } else {
        after == before
    }
}

/// `after` is the track `before` once a wait for the channels `audio` and
/// `video` to become `muted` was set up: a selected track in the other state
/// gains a one-shot waiter for `muted` on the channel `chan`; any other track
/// stays.
pub open spec fn track_awaited(
    before: TrackSender,
    after: TrackSender,
    audio: bool,
    video: bool,
    muted: bool,
    chan: int,
) -> bool {
    if selects(before.kind(), audio, video) && before.muted() != muted {
        &&& after.kind() == before.kind()
        &&& after.busy() == before.busy()
        &&& after.muted() == before.muted()
        &&& registered(
            before.waiters(),
            Entry::Once { id: before.waiters().next_id(), chan, target: muted },
            after.waiters(),
        )
    } else {
        after == before
    }
}

/// A track as [`TrackSender::new`] makes it.
pub open spec fn fresh_track(track: TrackSender, kind: SenderKind) -> bool {
    &&& track.kind() == kind
    &&& !track.muted()
    &&& !track.busy()
    &&& track.waiters().entries() == Seq::<Entry<bool>>::empty()
    &&& track.waiters().completions() == Seq::<Completion>::empty()
    &&& track.waiters().next_id() == 0
}

/// Every track that `audio` and `video` select is muted (true when none is
/// selected).
pub open spec fn all_muted(tracks: Seq<TrackSender>, audio: bool, video: bool) -> bool {
    forall|j: int| 0 <= j < tracks.len() && selects(#[trigger] tracks[j].kind(), audio, video) ==> tracks[j].muted()
}

/// Every track that `audio` and `video` select is busy (true when none is
/// selected).
pub open spec fn all_busy(tracks: Seq<TrackSender>, audio: bool, video: bool) -> bool {
    forall|j: int| 0 <= j < tracks.len() && selects(#[trigger] tracks[j].kind(), audio, video) ==> tracks[j].busy()
}

/// `after` is the peer `before` once its selected tracks were set to `muted`.
pub open spec fn peer_set(
    before: PeerConnection,
    after: PeerConnection,
    audio: bool,
    video: bool,
    muted: bool,
) -> bool {
    &&& after.tracks().len() == before.tracks().len()
    &&& forall|j: int|
        0 <= j < before.tracks().len() ==> track_set(
            #[trigger] before.tracks()[j],
            after.tracks()[j],
            audio,
            video,
            muted,
        )
}

/// Whether a wait for the channels `audio` and `video` to become `muted`
/// covers `track`: it is selected and in the other state.
pub open spec fn to_await(track: TrackSender, audio: bool, video: bool, muted: bool) -> bool {
    selects(track.kind(), audio, video) && track.muted() != muted
}

/// How many of `tracks` a wait for `audio` and `video` to become `muted`
/// covers.
pub open spec fn awaited_count(tracks: Seq<TrackSender>, audio: bool, video: bool, muted: bool) -> nat {
    tracks.filter(covered(audio, video, muted)).len()
}

/// [`to_await`] as a predicate on tracks.
pub open spec fn covered(audio: bool, video: bool, muted: bool) -> spec_fn(TrackSender) -> bool {
    |t: TrackSender| to_await(t, audio, video, muted)
}

/// `after` is the peer `before` once a wait for its selected tracks to become
/// `muted` was set up, with `waits` the futures handed back: one per covered
/// track, in track order, each on the channel of that track's new waiter.
pub open spec fn peer_awaited(
    before: PeerConnection,
    after: PeerConnection,
    audio: bool,
    video: bool,
    muted: bool,
    waits: Seq<Waiter>,
) -> bool {
    &&& after.tracks().len() == before.tracks().len()
    &&& waits.len() == awaited_count(before.tracks(), audio, video, muted)
    &&& forall|j: int|
        0 <= j < before.tracks().len() ==> track_awaited(
            #[trigger] before.tracks()[j],
            after.tracks()[j],
            audio,
            video,
            muted,
            waits[awaited_count(before.tracks().take(j), audio, video, muted) as int].chan(),
        )
}

/// Counting covered tracks along a prefix: a covered track at `j` is counted
/// below the count up to any later `i`.
proof fn lemma_awaited_count_prefix(
    tracks: Seq<TrackSender>,
    j: int,
    i: int,
    audio: bool,
    video: bool,
    muted: bool,
)
    requires
        0 <= j < i <= tracks.len(),
    ensures
        awaited_count(tracks.take(j), audio, video, muted) <= awaited_count(
            tracks.take(i),
            audio,
            video,
            muted,
        ),
        to_await(tracks[j], audio, video, muted) ==> awaited_count(tracks.take(j), audio, video, muted)
            < awaited_count(tracks.take(i), audio, video, muted),
    decreases i - j,
{
    let p = covered(audio, video, muted);
    assert(tracks.take(j + 1) =~= tracks.take(j).push(tracks[j]));
    tracks.take(j).lemma_filter_push(tracks[j], p);
    if j + 1 < i {
        lemma_awaited_count_prefix(tracks, j + 1, i, audio, video, muted);
    }
}

/// A connection to one peer and the media tracks it sends.
pub struct PeerConnection {
    tracks: Vec<TrackSender>,
}

impl PeerConnection {
    pub closed spec fn tracks(&self) -> Seq<TrackSender> {
        self.tracks@
    }

    /// A connection with a video and an audio track, both unmuted and idle.
    pub fn new() -> (p: Self)
        ensures
            p.tracks().len() == 2,
            fresh_track(p.tracks()[0], SenderKind::Video),
            fresh_track(p.tracks()[1], SenderKind::Audio),
    {
        let mut tracks: Vec<TrackSender> = Vec::new();
        tracks.push(TrackSender::new(SenderKind::Video));
        tracks.push(TrackSender::new(SenderKind::Audio));
        PeerConnection { tracks }
    }

    /// Sets the tracks that `audio` and `video` select to `muted`.
    fn set_state(&mut self, audio: bool, video: bool, muted: bool)
        ensures
            peer_set(*old(self), *final(self), audio, video, muted),
    {
        let mut i: usize = 0;
        while i < self.tracks.len()
            invariant
                i <= self.tracks@.len(),
                self.tracks@.len() == old(self).tracks@.len(),
                forall|j: int|
                    0 <= j < i ==> track_set(
                        #[trigger] old(self).tracks@[j],
                        self.tracks@[j],
                        audio,
                        video,
                        muted,
                    ),
                forall|j: int| i <= j < self.tracks@.len() ==> #[trigger] self.tracks@[j] == old(self).tracks@[j],
            decreases self.tracks@.len() - i,
        {
            if self.tracks[i].kind.is_selected(audio, video) && self.tracks[i].is_muted() != muted {
                self.tracks[i].set_muted(muted);
            }
            i = i + 1;
        }
    }

    /// Mutes the tracks that `audio` and `video` select.
    pub fn mute(&mut self, audio: bool, video: bool)
        ensures
            peer_set(*old(self), *final(self), audio, video, true),
    {
        self.set_state(audio, video, true);
    }

    /// Unmutes the tracks that `audio` and `video` select.
    pub fn unmute(&mut self, audio: bool, video: bool)
        ensures
            peer_set(*old(self), *final(self), audio, video, false),
    {
        self.set_state(audio, video, false);
    }

    /// One future per selected track not yet `muted`, each completing when
    /// that track becomes `muted`.
    fn await_state(&mut self, audio: bool, video: bool, muted: bool) -> (rx: Vec<Waiter>)
        ensures
            peer_awaited(*old(self), *final(self), audio, video, muted, rx@),
    {
        let mut waits: Vec<Waiter> = Vec::new();
        let mut i: usize = 0;
        while i < self.tracks.len()
            invariant
                i <= self.tracks@.len(),
                self.tracks@.len() == old(self).tracks@.len(),
                forall|j: int|
                    0 <= j < i ==> track_awaited(
                        #[trigger] old(self).tracks@[j],
                        self.tracks@[j],
                        audio,
                        video,
                        muted,
                        waits@[awaited_count(old(self).tracks@.take(j), audio, video, muted) as int].chan(),
                    ),
                forall|j: int| i <= j < self.tracks@.len() ==> #[trigger] self.tracks@[j] == old(self).tracks@[j],
                waits@.len() == awaited_count(old(self).tracks@.take(i as int), audio, video, muted),
            decreases self.tracks@.len() - i,
        {
            let ghost waits_before = waits@;
            proof {
                let olds = old(self).tracks@;
                assert(olds.take(i + 1) =~= olds.take(i as int).push(olds[i as int]));
                olds.take(i as int).lemma_filter_push(olds[i as int], covered(audio, video, muted));
                assert(self.tracks@[i as int] == olds[i as int]);
            }
            if self.tracks[i].kind.is_selected(audio, video) && self.tracks[i].is_muted() != muted {
                let rx = self.tracks[i].await_muted(muted);
                waits.push(rx);
            }
            proof {
                assert(old(self).tracks@.take(i as int) =~= old(self).tracks@.take(i + 1).take(i as int));
                assert forall|j: int| 0 <= j < i + 1 implies track_awaited(
                    #[trigger] old(self).tracks@[j],
                    self.tracks@[j],
                    audio,
                    video,
                    muted,
                    waits@[awaited_count(old(self).tracks@.take(j), audio, video, muted) as int].chan(),
                ) by {
                    if j < i {
                        let c = awaited_count(old(self).tracks@.take(j), audio, video, muted);
                        lemma_awaited_count_prefix(old(self).tracks@, j, i as int, audio, video, muted);
                        if to_await(old(self).tracks@[j], audio, video, muted) {
                            assert(waits@[c as int] == waits_before[c as int]);
                        }
                    }
                }
            }
            i = i + 1;
        }
        assert(old(self).tracks@.take(i as int) =~= old(self).tracks@);
        waits
    }

    /// One future per selected track not yet muted, each completing when
    /// that track becomes muted.
    pub fn on_mute(&mut self, audio: bool, video: bool) -> (rx: Vec<Waiter>)
        ensures
            peer_awaited(*old(self), *final(self), audio, video, true, rx@),
    {
        self.await_state(audio, video, true)
    }

    /// One future per selected track that is muted, each completing when
    /// that track becomes unmuted.
    pub fn on_unmute(&mut self, audio: bool, video: bool) -> (rx: Vec<Waiter>)
        ensures
            peer_awaited(*old(self), *final(self), audio, video, false, rx@),
    {
        self.await_state(audio, video, false)
    }

    /// Whether every track that `audio` and `video` select is busy.
    pub fn is_busy(&self, audio: bool, video: bool) -> (r: bool)
        ensures
            r == all_busy(self.tracks(), audio, video),
    {
        let mut i: usize = 0;
        while i < self.tracks.len()
            invariant
                i <= self.tracks@.len(),
                all_busy(self.tracks@.take(i as int), audio, video),
            decreases self.tracks@.len() - i,
        {
            if self.tracks[i].kind.is_selected(audio, video) && !self.tracks[i].is_busy() {
                assert(!all_busy(self.tracks@, audio, video)) by {
                    assert(selects(self.tracks@[i as int].kind(), audio, video));
                }
                return false;
            }
            assert forall|j: int|
                0 <= j < i + 1 && selects(
                    #[trigger] self.tracks@.take(i + 1)[j].kind(),
                    audio,
                    video,
                ) implies self.tracks@.take(i + 1)[j].busy() by {
                if j < i {
                    assert(self.tracks@.take(i + 1)[j] == self.tracks@.take(i as int)[j]);
                }
            }
            i = i + 1;
        }
        assert(self.tracks@.take(i as int) =~= self.tracks@);
        true
    }

    /// Whether every track that `audio` and `video` select is muted.
    pub fn is_muted(&self, audio: bool, video: bool) -> (r: bool)
        ensures
            r == all_muted(self.tracks(), audio, video),
    {
        let mut i: usize = 0;
        while i < self.tracks.len()
            invariant
                i <= self.tracks@.len(),
                all_muted(self.tracks@.take(i as int), audio, video),
            decreases self.tracks@.len() - i,
        {
            if self.tracks[i].kind.is_selected(audio, video) && !self.tracks[i].is_muted() {
                assert(!all_muted(self.tracks@, audio, video)) by {
                    assert(selects(self.tracks@[i as int].kind(), audio, video));
                }
                return false;
            }
            assert forall|j: int|
                0 <= j < i + 1 && selects(
                    #[trigger] self.tracks@.take(i + 1)[j].kind(),
                    audio,
                    video,
                ) implies self.tracks@.take(i + 1)[j].muted() by {
                if j < i {
                    assert(self.tracks@.take(i + 1)[j] == self.tracks@.take(i as int)[j]);
                }
            }
            i = i + 1;
        }
        assert(self.tracks@.take(i as int) =~= self.tracks@);
        true
    }
}

/// The command that asks the server to set the channels `audio` and `video`
/// of the room to `muted`.
pub open spec fn request(audio: bool, video: bool, muted: bool) -> Command {
    if muted {
        Command::MuteRoom { video, audio }
    } else {
        Command::UnmuteRoom { video, audio }
    }
}

/// Whether some peer's selected tracks are all busy.
pub open spec fn room_busy(peers: Seq<PeerConnection>, audio: bool, video: bool) -> bool {
    exists|i: int| 0 <= i < peers.len() && all_busy(#[trigger] peers[i].tracks(), audio, video)
}

/// Whether a peer's selected tracks are not all in the state `muted` yet.
pub open spec fn pending(peer: PeerConnection, audio: bool, video: bool, muted: bool) -> bool {
    all_muted(peer.tracks(), audio, video) != muted
}

/// The command to send when a client sets the channels `audio` and `video`
/// of the room to `muted`: none while the room is busy or when no peer is
/// left to change.
pub open spec fn request_for(peers: Seq<PeerConnection>, audio: bool, video: bool, muted: bool) -> Option<
    Command,
> {
    if !room_busy(peers, audio, video) && exists|i: int|
        0 <= i < peers.len() && pending(#[trigger] peers[i], audio, video, muted) {
        Some(request(audio, video, muted))
    } else {
        None
    }
}

/// How many futures setting the channels `audio` and `video` of a room with
/// `peers` to `muted` hands back: one per covered track of each pending peer.
pub open spec fn room_awaited_count(peers: Seq<PeerConnection>, audio: bool, video: bool, muted: bool) -> nat
    decreases peers.len(),
{
    if peers.len() == 0 {
        0
    } else {
        room_awaited_count(peers.drop_last(), audio, video, muted) + if pending(
            peers.last(),
            audio,
            video,
            muted,
        ) {
            awaited_count(peers.last().tracks(), audio, video, muted)
        } else {
            0
        }
    }
}

/// The count along a prefix of peers grows with the prefix.
proof fn lemma_room_count_prefix(
    peers: Seq<PeerConnection>,
    k: int,
    i: int,
    audio: bool,
    video: bool,
    muted: bool,
)
    requires
        0 <= k < i <= peers.len(),
    ensures
        room_awaited_count(peers.take(k), audio, video, muted) <= room_awaited_count(
            peers.take(k + 1),
            audio,
            video,
            muted,
        ) <= room_awaited_count(peers.take(i), audio, video, muted),
    decreases i - k,
{
    assert(peers.take(k + 1).drop_last() =~= peers.take(k));
    if k + 1 < i {
        lemma_room_count_prefix(peers, k + 1, i, audio, video, muted);
    }
}

/// The peers of a room, whose tracks are muted and unmuted together.
pub struct Room {
    peers: Vec<PeerConnection>,
}

impl Room {
    pub closed spec fn peers(&self) -> Seq<PeerConnection> {
        self.peers@
    }

    /// A room with one peer, as [`PeerConnection::new`] makes it.
    pub fn new() -> (r: Self)
        ensures
            r.peers().len() == 1,
            r.peers()[0].tracks().len() == 2,
            fresh_track(r.peers()[0].tracks()[0], SenderKind::Video),
            fresh_track(r.peers()[0].tracks()[1], SenderKind::Audio),
    {
        let mut peers: Vec<PeerConnection> = Vec::new();
        peers.push(PeerConnection::new());
        Room { peers }
    }

    /// Sets the selected tracks of every peer to `muted`.
    fn set_state(&mut self, audio: bool, video: bool, muted: bool)
        ensures
            final(self).peers().len() == old(self).peers().len(),
            forall|i: int|
                0 <= i < old(self).peers().len() ==> peer_set(
                    #[trigger] old(self).peers()[i],
                    final(self).peers()[i],
                    audio,
                    video,
                    muted,
                ),
    {
        let mut i: usize = 0;
        while i < self.peers.len()
            invariant
                i <= self.peers@.len(),
                self.peers@.len() == old(self).peers@.len(),
                forall|k: int|
                    0 <= k < i ==> peer_set(
                        #[trigger] old(self).peers@[k],
                        self.peers@[k],
                        audio,
                        video,
                        muted,
                    ),
                forall|k: int| i <= k < self.peers@.len() ==> #[trigger] self.peers@[k] == old(self).peers@[k],
            decreases self.peers@.len() - i,
        {
            self.peers[i].set_state(audio, video, muted);
            i = i + 1;
        }
    }

    /// Applies an event from the server: a muted room mutes the named
    /// channels of every peer, an unmuted room unmutes them.
    pub fn handle_event(&mut self, event: &Event)
        ensures
            final(self).peers().len() == old(self).peers().len(),
            forall|i: int|
                0 <= i < old(self).peers().len() ==> match *event {
                    Event::RoomMuted { video, audio } => peer_set(
                        #[trigger] old(self).peers()[i],
                        final(self).peers()[i],
                        audio,
                        video,
                        true,
                    ),
                    Event::RoomUnmuted { video, audio } => peer_set(
                        old(self).peers()[i],
                        final(self).peers()[i],
                        audio,
                        video,
                        false,
                    ),
                },
    {
        match *event {
            Event::RoomMuted { video, audio } => self.set_state(audio, video, true),
            Event::RoomUnmuted { video, audio } => self.set_state(audio, video, false),
        }
    }

    /// Whether some peer's selected tracks are all busy.
    pub fn is_busy(&self, audio: bool, video: bool) -> (r: bool)
        ensures
            r == room_busy(self.peers(), audio, video),
    {
        let mut i: usize = 0;
        while i < self.peers.len()
            invariant
                i <= self.peers@.len(),
                forall|k: int| 0 <= k < i ==> !all_busy(#[trigger] self.peers@[k].tracks(), audio, video),
            decreases self.peers@.len() - i,
        {
            if self.peers[i].is_busy(audio, video) {
                return true;
            }
            i = i + 1;
        }
        false
    }

    /// The start of setting the channels `audio` and `video` of the room to
    /// `muted`: every peer not in that state yet gets waiters on its selected
    /// tracks that are not, and the command for the server is returned unless
    /// the room is busy or no peer is left to change. The returned futures
    /// complete as the server's answer reaches the tracks.
    pub fn begin(&mut self, audio: bool, video: bool, muted: bool) -> (r: (
        Option<Command>,
        Vec<Waiter>,
    ))
        ensures
            r.0 == request_for(old(self).peers(), audio, video, muted),
            r.1@.len() == room_awaited_count(old(self).peers(), audio, video, muted),
            final(self).peers().len() == old(self).peers().len(),
            forall|i: int|
                0 <= i < old(self).peers().len() ==> if pending(
                    #[trigger] old(self).peers()[i],
                    audio,
                    video,
                    muted,
                ) {
                    peer_awaited(
                        old(self).peers()[i],
                        final(self).peers()[i],
                        audio,
                        video,
                        muted,
                        r.1@.subrange(
                            room_awaited_count(old(self).peers().take(i), audio, video, muted) as int,
                            room_awaited_count(old(self).peers().take(i + 1), audio, video, muted) as int,
                        ),
                    )
                } else {
                    final(self).peers()[i] == old(self).peers()[i]
                },
    {
        let busy = self.is_busy(audio, video);
        let mut waits: Vec<Waiter> = Vec::new();
        let mut any_pending = false;
        let mut i: usize = 0;
        while i < self.peers.len()
            invariant
                i <= self.peers@.len(),
                self.peers@.len() == old(self).peers@.len(),
                any_pending == exists|k: int|
                    0 <= k < i && pending(#[trigger] old(self).peers@[k], audio, video, muted),
                forall|k: int|
                    0 <= k < i ==> if pending(#[trigger] old(self).peers@[k], audio, video, muted) {
                        peer_awaited(
                            old(self).peers@[k],
                            self.peers@[k],
                            audio,
                            video,
                            muted,
                            waits@.subrange(
                                room_awaited_count(old(self).peers@.take(k), audio, video, muted) as int,
                                room_awaited_count(old(self).peers@.take(k + 1), audio, video, muted) as int,
                            ),
                        )
                    } else {
                        self.peers@[k] == old(self).peers@[k]
                    },
                forall|k: int| i <= k < self.peers@.len() ==> #[trigger] self.peers@[k] == old(self).peers@[k],
                waits@.len() == room_awaited_count(old(self).peers@.take(i as int), audio, video, muted),
            decreases self.peers@.len() - i,
        {
            let ghost waits_before = waits@;
            proof {
                let olds = old(self).peers@;
                assert(olds.take(i + 1).drop_last() =~= olds.take(i as int));
                assert(olds.take(i + 1).last() == olds[i as int]);
            }
            if self.peers[i].is_muted(audio, video) != muted {
                let mut rx = self.peers[i].await_state(audio, video, muted);
                let ghost handed = rx@;
                waits.append(&mut rx);
                any_pending = true;
                proof {
                    assert(waits@.subrange(waits_before.len() as int, waits@.len() as int) =~= handed);
                }
            }
            proof {
                let olds = old(self).peers@;
                assert forall|k: int| 0 <= k < i implies #[trigger] waits@.subrange(
                    room_awaited_count(olds.take(k), audio, video, muted) as int,
                    room_awaited_count(olds.take(k + 1), audio, video, muted) as int,
                ) == waits_before.subrange(
                    room_awaited_count(olds.take(k), audio, video, muted) as int,
                    room_awaited_count(olds.take(k + 1), audio, video, muted) as int,
                ) by {
                    lemma_room_count_prefix(olds, k, i as int, audio, video, muted);
                    assert(waits@.subrange(
                        room_awaited_count(olds.take(k), audio, video, muted) as int,
                        room_awaited_count(olds.take(k + 1), audio, video, muted) as int,
                    ) =~= waits_before.subrange(
                        room_awaited_count(olds.take(k), audio, video, muted) as int,
                        room_awaited_count(olds.take(k + 1), audio, video, muted) as int,
                    ));
                }
            }
            i = i + 1;
        }
        assert(old(self).peers@.take(i as int) =~= old(self).peers@);
        let command = if !busy && any_pending {
            if muted {
                Some(Command::MuteRoom { video, audio })
            } else {
                Some(Command::UnmuteRoom { video, audio })
            }
        } else {
            None
        };
        (command, waits)
    }
}

} // verus!
