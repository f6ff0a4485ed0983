//! Install discovery data and the install watcher's settle logic.
//!
//! The watcher polls installs and reports [`InstallEvent`]s once an update
//! has quiesced: during a patch download the build manifest and `Data.p4k`
//! churn for minutes, so an event fires only after the staleness key AND
//! the p4k signature have been quiet for the settle period.
//!
//! [`WatchCore`] is the decision core — observations in, events out, time
//! injected as milliseconds on a monotonic clock.

use vstd::prelude::*;

use crate::text::str_eq;

verus! {

/// One detected SC installation, flattened to plain data.
#[derive(Debug, Clone)]
pub struct InstallInfo {
    /// Channel label, e.g. `"Live"`, `"Ptu"`, `"TechPreview"`.
    pub channel: String,
    /// Auth/services platform: `"prod"` (Live/Hotfix) or `"ptu"` (rest).
    pub platform: String,
    /// Install root on disk.
    pub directory: String,
    /// Launcher-style version label (`"4.7.2-live.11715810"`).
    pub version: String,
    /// `build_manifest.id` build id — literally `"None"` on some builds.
    pub build_id: String,
}

/// The build identity that drives change detection: the build id, or the
/// version label when the build id is empty or the literal `"None"`.
pub open spec fn staleness_key_spec(info: InstallInfo) -> Seq<char> {
    if info.build_id@.len() == 0 || info.build_id@ == "None"@ {
        info.version@
    } else {
        info.build_id@
    }
}

impl InstallInfo {
    /// The build identity that drives change detection.
    pub fn staleness_key(&self) -> (r: String)
        ensures
            r@ == staleness_key_spec(*self),
    {
        if self.build_id.as_str().is_empty() || str_eq(self.build_id.as_str(), "None") {
            self.version.clone()
        } else {
            self.build_id.clone()
        }
    }

    /// A copy holding the same text in every field.
    pub fn copy(&self) -> (r: InstallInfo)
        ensures
            r == *self,
    {
        InstallInfo {
            channel: self.channel.clone(),
            platform: self.platform.clone(),
            directory: self.directory.clone(),
            version: self.version.clone(),
            build_id: self.build_id.clone(),
        }
    }
}

/// A release channel of the game.
#[derive(Debug, Clone, Copy, PartialEq, Eq, Structural)]
pub enum Channel {
    Live,
    Hotfix,
    Ptu,
    Eptu,
    TechPreview,
}

/// The channel's name as its variant reads (`"TechPreview"`).
pub open spec fn channel_label_spec(c: Channel) -> Seq<char> {
    match c {
        Channel::Live => "Live"@,
        Channel::Hotfix => "Hotfix"@,
        Channel::Ptu => "Ptu"@,
        Channel::Eptu => "Eptu"@,
        Channel::TechPreview => "TechPreview"@,
    }
}

/// The auth platform a channel falls back to when the launcher store gave
/// none: `prod` for Live and Hotfix, `ptu` for the test channels.
pub open spec fn platform_spec(c: Channel) -> Seq<char> {
    match c {
        Channel::Live | Channel::Hotfix => "prod"@,
        _ => "ptu"@,
    }
}

/// The channel's name.
pub fn channel_label(c: Channel) -> (r: &'static str)
    ensures
        r@ == channel_label_spec(c),
{
    match c {
        Channel::Live => "Live",
        Channel::Hotfix => "Hotfix",
        Channel::Ptu => "Ptu",
        Channel::Eptu => "Eptu",
        Channel::TechPreview => "TechPreview",
    }
}

/// The fallback auth platform of a channel.
pub fn platform_for(c: Channel) -> (r: &'static str)
    ensures
        r@ == platform_spec(c),
{
    match c {
        Channel::Live | Channel::Hotfix => "prod",
        Channel::Ptu | Channel::Eptu | Channel::TechPreview => "ptu",
    }
}

/// A discovered installation as the discovery reports it.
pub struct Installation {
    pub channel: Channel,
    /// Platform id from the launcher store, if it had one.
    pub platform_id: Option<String>,
    /// Install root, as displayed.
    pub root: String,
    /// Launcher-style version label, if the launcher store had one.
    pub launcher_version_label: Option<String>,
    /// `build_manifest` version.
    pub manifest_version: String,
    /// `build_manifest` build id.
    pub build_id: String,
}

/// Flatten an installation: the launcher store's platform and version
/// label where present, the channel's fallback platform and the
/// manifest version otherwise.
pub fn flatten(install: &Installation) -> (r: InstallInfo)
    ensures
        r.channel@ == channel_label_spec(install.channel),
        r.platform@ == match install.platform_id {
            Some(p) => p@,
            None => platform_spec(install.channel),
        },
        r.directory@ == install.root@,
        r.version@ == match install.launcher_version_label {
            Some(v) => v@,
            None => install.manifest_version@,
        },
        r.build_id@ == install.build_id@,
{
    InstallInfo {
        channel: channel_label(install.channel).to_owned(),
        platform: match &install.platform_id {
            Some(p) => p.clone(),
            None => platform_for(install.channel).to_owned(),
        },
        directory: install.root.clone(),
        version: match &install.launcher_version_label {
            Some(v) => v.clone(),
            None => install.manifest_version.clone(),
        },
        build_id: install.build_id.clone(),
    }
}

/// Result of one install scan.
#[derive(Debug, Clone)]
pub struct ScScan {
    /// All valid installs, highest-priority channel first.
    pub installs: Vec<InstallInfo>,
    /// RSI handle from the launcher store, if signed in there.
    pub launcher_handle: Option<String>,
}

/// A settled change to the install landscape.
#[derive(Debug, Clone)]
pub enum InstallEvent {
    /// An install settled on a new build — or appeared.
    Changed(InstallInfo),
    /// An install disappeared from the scan for two consecutive polls.
    Removed { channel: String },
}

/// Text-level reading of an [`InstallEvent`].
pub enum EventModel {
    Changed(InstallInfo),
    Removed(Seq<char>),
}

impl View for InstallEvent {
    type V = EventModel;

    open spec fn view(&self) -> EventModel {
        match self {
            InstallEvent::Changed(i) => EventModel::Changed(*i),
            InstallEvent::Removed { channel } => EventModel::Removed(channel@),
        }
    }
}

/// Watcher tuning, in milliseconds.
#[derive(Debug, Clone, Copy)]
pub struct WatchConfig {
    /// How often to rescan.
    pub poll_interval: u64,
    /// How long the staleness key + p4k signature must be quiet before a
    /// change is considered settled.
    pub settle: u64,
}

impl Default for WatchConfig {
    fn default() -> (r: Self)
        ensures
            r.poll_interval == 30_000,
            r.settle == 60_000,
    {
        WatchConfig { poll_interval: 30_000, settle: 60_000 }
    }
}

/// Cheap change signature for `Data.p4k`: its size and modification time
/// (milliseconds since the epoch, when the filesystem reports one).
#[derive(Debug, Clone, Copy, PartialEq, Eq, Structural)]
pub struct P4kSig {
    pub len: u64,
    pub modified: Option<u64>,
}

/// Whether two optional signatures are the same.
pub fn sig_eq(a: &Option<P4kSig>, b: &Option<P4kSig>) -> (r: bool)
    ensures
        r == (*a == *b),
{
    match (a, b) {
        (Some(x), Some(y)) => x.len == y.len && match (x.modified, y.modified) {
            (Some(p), Some(q)) => p == q,
            (None, None) => true,
            _ => false,
        },
        (None, None) => true,
        _ => false,
    }
}

/// One poll's worth of facts about one install.
#[derive(Debug, Clone)]
pub struct Observation {
    pub info: InstallInfo,
    pub sig: Option<P4kSig>,
}

/// Per-channel watcher state.
pub struct ChannelState {
    channel: String,
    /// Staleness key of the last emitted (or seeded) state.
    emitted_key: String,
    /// Most recently observed staleness key.
    last_key: String,
    last_sig: Option<P4kSig>,
    /// When the key or signature last changed — the settle timer's anchor.
    last_activity: u64,
    /// Consecutive polls this channel was absent from the scan.
    missing_polls: u32,
    /// Latest observed info, carried into the `Changed` event.
    info: InstallInfo,
}

/// Text-level reading of a [`ChannelState`].
pub struct ChannelModel {
    pub channel: Seq<char>,
    pub emitted: Seq<char>,
    pub last: Seq<char>,
    pub sig: Option<P4kSig>,
    pub activity: u64,
    pub missing: u32,
    pub info: InstallInfo,
}

impl View for ChannelState {
    type V = ChannelModel;

    closed spec fn view(&self) -> ChannelModel {
        ChannelModel {
            channel: self.channel@,
            emitted: self.emitted_key@,
            last: self.last_key@,
            sig: self.last_sig,
            activity: self.last_activity,
            missing: self.missing_polls,
            info: self.info,
        }
    }
}

/// Milliseconds from `since` to `now`, zero when `now` is earlier.
pub open spec fn elapsed(now: u64, since: u64) -> int {
    if now >= since {
        now - since
    } else {
        0
    }
}

/// First index of the channel named `c`.
pub open spec fn find_channel(chs: Seq<ChannelModel>, c: Seq<char>) -> Option<int>
    decreases chs.len(),
{
    if chs.len() == 0 {
        None
    } else {
        match find_channel(chs.drop_last(), c) {
            Some(i) => Some(i),
            None => if chs.last().channel == c {
                Some(chs.len() - 1)
            } else {
                None
            },
        }
    }
}

/// The state a never-seen channel starts in: a change pending from
/// nothing, anchored now.
pub open spec fn fresh_channel(o: Observation, now: u64) -> ChannelModel {
    ChannelModel {
        channel: o.info.channel@,
        emitted: Seq::empty(),
        last: staleness_key_spec(o.info),
        sig: o.sig,
        activity: now,
        missing: 0,
        info: o.info,
    }
}

/// The state a seeded channel starts in: nothing pending.
pub open spec fn seeded_channel(o: Observation, now: u64) -> ChannelModel {
    ChannelModel {
        channel: o.info.channel@,
        emitted: staleness_key_spec(o.info),
        last: staleness_key_spec(o.info),
        sig: o.sig,
        activity: now,
        missing: 0,
        info: o.info,
    }
}

/// Where observation `o` lands in `chs` (a new slot at the end when its
/// channel is new).
pub open spec fn slot_of(chs: Seq<ChannelModel>, o: Observation) -> int {
    match find_channel(chs, o.info.channel@) {
        Some(i) => i,
        None => chs.len() as int,
    }
}

/// The table with a fresh state appended when `o`'s channel is new.
pub open spec fn table_for(chs: Seq<ChannelModel>, o: Observation, now: u64) -> Seq<ChannelModel> {
    match find_channel(chs, o.info.channel@) {
        Some(_) => chs,
        None => chs.push(fresh_channel(o, now)),
    }
}

/// A channel state after taking in observation `o`: present again, and
/// re-anchored when the key or signature moved.
pub open spec fn absorb(st: ChannelModel, o: Observation, now: u64) -> ChannelModel {
    let key = staleness_key_spec(o.info);
    if key != st.last || o.sig != st.sig {
        ChannelModel {
            channel: st.channel,
            emitted: st.emitted,
            last: key,
            sig: o.sig,
            activity: now,
            missing: 0,
            info: o.info,
        }
    } else {
        ChannelModel {
            channel: st.channel,
            emitted: st.emitted,
            last: st.last,
            sig: st.sig,
            activity: st.activity,
            missing: 0,
            info: st.info,
        }
    }
}

/// A pending change (last key differs from the emitted one) that has been
/// quiet for `settle`.
pub open spec fn settled(st: ChannelModel, settle: u64, now: u64) -> bool {
    st.last != st.emitted && elapsed(now, st.activity) >= settle
}

/// `st` with its pending change marked emitted.
pub open spec fn mark_emitted(st: ChannelModel) -> ChannelModel {
    ChannelModel {
        channel: st.channel,
        emitted: st.last,
        last: st.last,
        sig: st.sig,
        activity: st.activity,
        missing: st.missing,
        info: st.info,
    }
}

/// One observation folded into the table, with the event it makes due.
pub open spec fn observe_one(chs: Seq<ChannelModel>, settle: u64, now: u64, o: Observation) -> (
    Seq<ChannelModel>,
    Option<EventModel>,
) {
    let t = table_for(chs, o, now);
    let i = slot_of(chs, o);
    let st = absorb(t[i], o, now);
    if settled(st, settle, now) {
        (t.update(i, mark_emitted(st)), Some(EventModel::Changed(st.info)))
    } else {
        (t.update(i, st), None)
    }
}

/// All observations folded in order, with the events they make due.
pub open spec fn observe_all(chs: Seq<ChannelModel>, settle: u64, now: u64, obs: Seq<Observation>) -> (
    Seq<ChannelModel>,
    Seq<EventModel>,
)
    decreases obs.len(),
{
    if obs.len() == 0 {
        (chs, Seq::empty())
    } else {
        let prev = observe_all(chs, settle, now, obs.drop_last());
        let step = observe_one(prev.0, settle, now, obs.last());
        (
            step.0,
            match step.1 {
                Some(e) => prev.1.push(e),
                None => prev.1,
            },
        )
    }
}

/// `st` absent from one more poll.
pub open spec fn missed(st: ChannelModel) -> ChannelModel {
    ChannelModel {
        channel: st.channel,
        emitted: st.emitted,
        last: st.last,
        sig: st.sig,
        activity: st.activity,
        missing: (st.missing + 1) as u32,
        info: st.info,
    }
}

/// The absent-channel sweep: channels not in `seen` count one more missing
/// poll and are dropped (with a `Removed` event) at two.
pub open spec fn sweep(chs: Seq<ChannelModel>, seen: Seq<Seq<char>>) -> (Seq<ChannelModel>, Seq<EventModel>)
    decreases chs.len(),
{
    if chs.len() == 0 {
        (Seq::empty(), Seq::empty())
    } else {
        let prev = sweep(chs.drop_last(), seen);
        let c = chs.last();
        if seen.contains(c.channel) {
            (prev.0.push(c), prev.1)
        } else if c.missing + 1 >= 2 {
            (prev.0, prev.1.push(EventModel::Removed(c.channel)))
        } else {
            (prev.0.push(missed(c)), prev.1)
        }
    }
}

/// The channels named by a batch of observations.
pub open spec fn seen_channels(obs: Seq<Observation>) -> Seq<Seq<char>> {
    obs.map_values(|o: Observation| o.info.channel@)
}

/// One poll: observations folded in, then the absent-channel sweep; the
/// `Changed` events come first, in observation order, then the `Removed`
/// ones in table order.
pub open spec fn poll(chs: Seq<ChannelModel>, settle: u64, now: u64, obs: Seq<Observation>) -> (
    Seq<ChannelModel>,
    Seq<EventModel>,
) {
    let a = observe_all(chs, settle, now, obs);
    let b = sweep(a.0, seen_channels(obs));
    (b.0, a.1 + b.1)
}

/// Seeding folded in order: each observation's channel adopts its state.
pub open spec fn seed_all(chs: Seq<ChannelModel>, now: u64, obs: Seq<Observation>) -> Seq<ChannelModel>
    decreases obs.len(),
{
    if obs.len() == 0 {
        chs
    } else {
        let prev = seed_all(chs, now, obs.drop_last());
        let o = obs.last();
        match find_channel(prev, o.info.channel@) {
            Some(i) => prev.update(i, seeded_channel(o, now)),
            None => prev.push(seeded_channel(o, now)),
        }
    }
}

/// Every channel has been absent for at most one poll.
pub open spec fn table_ok(chs: Seq<ChannelModel>) -> bool {
    forall|i: int| 0 <= i < chs.len() ==> #[trigger] chs[i].missing <= 1
}

/// The settle state machine: feed it one observation batch per poll; it
/// returns the events that became due.
pub struct WatchCore {
    settle: u64,
    channels: Vec<ChannelState>,
}

impl View for WatchCore {
    type V = Seq<ChannelModel>;

    closed spec fn view(&self) -> Seq<ChannelModel> {
        self.channels@.map_values(|c: ChannelState| c@)
    }
}

impl WatchCore {
    /// The settle period in milliseconds.
    pub closed spec fn settle_ms(&self) -> u64 {
        self.settle
    }

    /// Every channel has been absent for at most one poll.
    pub closed spec fn wf(&self) -> bool {
        table_ok(self@)
    }

    /// An empty core with the given settle period.
    pub fn new(settle: u64) -> (r: WatchCore)
        ensures
            r.wf(),
            r@.len() == 0,
            r.settle_ms() == settle,
            table_sound(r@),
    {
        let r = WatchCore { settle, channels: Vec::new() };
        assert(r@ =~= Seq::<ChannelModel>::empty());
        r
    }

    /// Index of the channel named `c`.
    fn find(&self, c: &str) -> (r: Option<usize>)
        ensures
            match r {
                Some(i) => find_channel(self@, c@) == Some(i as int) && i < self@.len(),
                None => find_channel(self@, c@) is None,
            },
    {
        let mut j: usize = 0;
        while j < self.channels.len()
            invariant
                j <= self@.len(),
                self@.len() == self.channels@.len(),
                find_channel(self@.take(j as int), c@) is None,
            decreases self@.len() - j,
        {
            assert(self@.take(j + 1).drop_last() =~= self@.take(j as int));
            if str_eq(self.channels[j].channel.as_str(), c) {
                assert(self@[j as int].channel == c@);
                proof {
                    lemma_find_prefix(self@, c@, j + 1);
                }
                return Some(j);
            }
            j = j + 1;
        }
        assert(self@.take(j as int) =~= self@);
        None
    }

    /// Adopt the current state without emitting — the state present at
    /// watcher start was already handled.
    pub fn seed(&mut self, now: u64, observations: Vec<Observation>)
        requires
            old(self).wf(),
        ensures
            final(self).wf(),
            final(self).settle_ms() == old(self).settle_ms(),
            final(self)@ == seed_all(old(self)@, now, observations@),
            table_sound(old(self)@) ==> table_sound(final(self)@),
    {
        proof {
            if table_sound(old(self)@) {
                lemma_seed_keeps_sound(old(self)@, now, observations@);
            }
        }
        let mut k: usize = 0;
        while k < observations.len()
            invariant
                self.wf(),
                self.settle_ms() == old(self).settle_ms(),
                k <= observations@.len(),
                self@ == seed_all(old(self)@, now, observations@.take(k as int)),
            decreases observations@.len() - k,
        {
            let o = &observations[k];
            assert(observations@.take(k + 1).drop_last() =~= observations@.take(k as int));
            let key = o.info.staleness_key();
            let st = ChannelState {
                channel: o.info.channel.clone(),
                emitted_key: key.clone(),
                last_key: key,
                last_sig: o.sig,
                last_activity: now,
                missing_polls: 0,
                info: o.info.copy(),
            };
            assert(st@ == seeded_channel(*o, now));
            let ghost before = self@;
            match self.find(o.info.channel.as_str()) {
                Some(i) => {
                    self.channels.set(i, st);
                    assert(self@ =~= before.update(i as int, seeded_channel(*o, now)));
                },
                None => {
                    self.channels.push(st);
                    assert(self@ =~= before.push(seeded_channel(*o, now)));
                },
            }
            k = k + 1;
        }
        assert(observations@.take(observations@.len() as int) =~= observations@);
    }

    /// Process one poll at time `now`: emits `Changed` for every channel
    /// whose pending change has settled, `Removed` for channels gone two
    /// polls in a row.
    pub fn observe(&mut self, now: u64, observations: Vec<Observation>) -> (events: Vec<InstallEvent>)
        requires
            old(self).wf(),
        ensures
            final(self).wf(),
            final(self).settle_ms() == old(self).settle_ms(),
            (final(self)@, events@.map_values(|e: InstallEvent| e@)) == poll(
                old(self)@,
                old(self).settle_ms(),
                now,
                observations@,
            ),
            table_sound(old(self)@) ==> table_sound(final(self)@),
            table_sound(old(self)@) && batch_distinct(observations@) ==> events_distinct(
                events@.map_values(|e: InstallEvent| e@),
            ),
    {
        let mut events: Vec<InstallEvent> = Vec::new();
        let mut k: usize = 0;
        while k < observations.len()
            invariant
                self.wf(),
                self.settle_ms() == old(self).settle_ms(),
                k <= observations@.len(),
                (self@, events@.map_values(|e: InstallEvent| e@)) == observe_all(
                    old(self)@,
                    self.settle_ms(),
                    now,
                    observations@.take(k as int),
                ),
            decreases observations@.len() - k,
        {
            let o = &observations[k];
            assert(observations@.take(k + 1).drop_last() =~= observations@.take(k as int));
            let ev = self.observe_one_exec(now, o);
            let ghost before = events@.map_values(|e: InstallEvent| e@);
            match ev {
                Some(e) => {
                    events.push(e);
                    assert(events@.map_values(|e: InstallEvent| e@) =~= before.push(e@));
                },
                None => {},
            }
            k = k + 1;
        }
        assert(observations@.take(observations@.len() as int) =~= observations@);
        let ghost mid_events = events@.map_values(|e: InstallEvent| e@);
        let mut seen: Vec<String> = Vec::new();
        let mut s: usize = 0;
        while s < observations.len()
            invariant
                s <= observations@.len(),
                seen@.len() == s,
                forall|t: int| 0 <= t < s ==> (#[trigger] seen@[t])@ == observations@[t].info.channel@,
            decreases observations@.len() - s,
        {
            seen.push(observations[s].info.channel.clone());
            s = s + 1;
        }
        let ghost seen_view = seen_channels(observations@);
        assert(seen@.map_values(|x: String| x@) =~= seen_view);
        let removed = self.sweep_exec(&seen);
        proof {
            assert(seen@.map_values(|x: String| x@) == seen_view);
        }
        let ghost before = events@.map_values(|e: InstallEvent| e@);
        let mut removed = removed;
        let ghost rem_view = removed@.map_values(|e: InstallEvent| e@);
        events.append(&mut removed);
        assert(events@.map_values(|e: InstallEvent| e@) =~= before + rem_view);
        proof {
            if table_sound(old(self)@) {
                lemma_observe_all_sound(old(self)@, old(self).settle_ms(), now, observations@);
                lemma_sweep_sound(
                    observe_all(old(self)@, old(self).settle_ms(), now, observations@).0,
                    seen_channels(observations@),
                );
                if batch_distinct(observations@) {
                    lemma_one_event_per_channel(old(self)@, old(self).settle_ms(), now, observations@);
                }
            }
        }
        events
    }

    /// Fold one observation into the table; the event it makes due.
    fn observe_one_exec(&mut self, now: u64, o: &Observation) -> (ev: Option<InstallEvent>)
        requires
            old(self).wf(),
        ensures
            final(self).wf(),
            final(self).settle_ms() == old(self).settle_ms(),
            (final(self)@, match ev {
                Some(e) => Some(e@),
                None => None,
            }) == observe_one(old(self)@, old(self).settle_ms(), now, *o),
    {
        let key = o.info.staleness_key();
        let ghost t = table_for(old(self)@, *o, now);
        let idx = match self.find(o.info.channel.as_str()) {
            Some(i) => i,
            None => {
                let st = ChannelState {
                    channel: o.info.channel.clone(),
                    emitted_key: String::new(),
                    last_key: key.clone(),
                    last_sig: o.sig,
                    last_activity: now,
                    missing_polls: 0,
                    info: o.info.copy(),
                };
                assert(st@ =~= fresh_channel(*o, now));
                let ghost before = self@;
                self.channels.push(st);
                assert(self@ =~= before.push(fresh_channel(*o, now)));
                self.channels.len() - 1
            },
        };
        assert(self@ == t);
        assert(idx == slot_of(old(self)@, *o));
        let cur = &self.channels[idx];
        let changed = !str_eq(key.as_str(), cur.last_key.as_str()) || !sig_eq(&o.sig, &cur.last_sig);
        let mut st = if changed {
            ChannelState {
                channel: cur.channel.clone(),
                emitted_key: cur.emitted_key.clone(),
                last_key: key,
                last_sig: o.sig,
                last_activity: now,
                missing_polls: 0,
                info: o.info.copy(),
            }
        } else {
            ChannelState {
                channel: cur.channel.clone(),
                emitted_key: cur.emitted_key.clone(),
                last_key: cur.last_key.clone(),
                last_sig: cur.last_sig,
                last_activity: cur.last_activity,
                missing_polls: 0,
                info: cur.info.copy(),
            }
        };
        assert(st@ == absorb(t[idx as int], *o, now));
        let quiet = if now >= st.last_activity {
            now - st.last_activity >= self.settle
        } else {
            0 >= self.settle
        };
        let ghost before = self@;
        if !str_eq(st.last_key.as_str(), st.emitted_key.as_str()) && quiet {
            st.emitted_key = st.last_key.clone();
            let ev = InstallEvent::Changed(st.info.copy());
            self.channels.set(idx, st);
            assert(self@ =~= before.update(idx as int, mark_emitted(absorb(t[idx as int], *o, now))));
            Some(ev)
        } else {
            self.channels.set(idx, st);
            assert(self@ =~= before.update(idx as int, absorb(t[idx as int], *o, now)));
            None
        }
    }

    /// The absent-channel sweep over the table (see [`sweep`]).
    fn sweep_exec(&mut self, seen: &Vec<String>) -> (events: Vec<InstallEvent>)
        requires
            old(self).wf(),
        ensures
            final(self).wf(),
            final(self).settle_ms() == old(self).settle_ms(),
            (final(self)@, events@.map_values(|e: InstallEvent| e@)) == sweep(
                old(self)@,
                seen@.map_values(|x: String| x@),
            ),
    {
        let ghost seen_view = seen@.map_values(|x: String| x@);
        let mut kept: Vec<ChannelState> = Vec::new();
        let mut events: Vec<InstallEvent> = Vec::new();
        let mut i: usize = 0;
        while i < self.channels.len()
            invariant
                table_ok(self@),
                self@.len() == self.channels@.len(),
                seen_view == seen@.map_values(|x: String| x@),
                i <= self@.len(),
                table_ok(kept@.map_values(|c: ChannelState| c@)),
                (kept@.map_values(|c: ChannelState| c@), events@.map_values(|e: InstallEvent| e@))
                    == sweep(self@.take(i as int), seen_view),
            decreases self@.len() - i,
        {
            let ghost kv = kept@.map_values(|c: ChannelState| c@);
            let ghost ev0 = events@.map_values(|e: InstallEvent| e@);
            assert(self@.take(i + 1).drop_last() =~= self@.take(i as int));
            assert(self@.take(i + 1).last() == self@[i as int]);
            let c = &self.channels[i];
            let mut present = false;
            let mut j: usize = 0;
            while j < seen.len()
                invariant
                    j <= seen@.len(),
                    seen_view == seen@.map_values(|x: String| x@),
                    present <==> exists|t: int| 0 <= t < j && seen_view[t] == c.channel@,
                decreases seen@.len() - j,
            {
                assert(seen_view[j as int] == seen@[j as int]@);
                if str_eq(seen[j].as_str(), c.channel.as_str()) {
                    present = true;
                }
                j = j + 1;
            }
            assert(present <==> seen_view.contains(c.channel@));
            assert(c@ == self@[i as int]);
            if present {
                kept.push(self.channels[i].clone_state());
                assert(kept@.map_values(|c: ChannelState| c@) =~= kv.push(self@[i as int]));
            } else if c.missing_polls >= 1 {
                events.push(InstallEvent::Removed { channel: c.channel.clone() });
                assert(events@.map_values(|e: InstallEvent| e@) =~= ev0.push(
                    EventModel::Removed(self@[i as int].channel),
                ));
            } else {
                let mut n = self.channels[i].clone_state();
                n.missing_polls = c.missing_polls + 1;
                kept.push(n);
                assert(kept@.map_values(|c: ChannelState| c@) =~= kv.push(missed(self@[i as int])));
            }
            i = i + 1;
        }
        assert(self@.take(self@.len() as int) =~= self@);
        self.channels = kept;
        events
    }
}

impl ChannelState {
    /// A copy of this state.
    fn clone_state(&self) -> (r: ChannelState)
        ensures
            r@ == self@,
    {
        ChannelState {
            channel: self.channel.clone(),
            emitted_key: self.emitted_key.clone(),
            last_key: self.last_key.clone(),
            last_sig: self.last_sig,
            last_activity: self.last_activity,
            missing_polls: self.missing_polls,
            info: self.info.copy(),
        }
    }
}

/// `find_channel` on a prefix that ends in a match.
proof fn lemma_find_prefix(chs: Seq<ChannelModel>, c: Seq<char>, n: int)
    requires
        0 < n <= chs.len(),
        find_channel(chs.take(n - 1), c) is None,
        chs[n - 1].channel == c,
    ensures
        find_channel(chs, c) == Some(n - 1),
{
    assert(chs.take(n).drop_last() =~= chs.take(n - 1));
    assert(find_channel(chs.take(n), c) == Some(n - 1));
    if n < chs.len() {
        assert(chs.take(n + 1).drop_last() =~= chs.take(n));
        lemma_find_extend(chs, c, n);
    } else {
        assert(chs.take(n) =~= chs);
    }
}

/// A match found in a prefix is the match of the whole table.
proof fn lemma_find_extend(chs: Seq<ChannelModel>, c: Seq<char>, n: int)
    requires
        0 < n <= chs.len(),
        find_channel(chs.take(n), c) is Some,
    ensures
        find_channel(chs, c) == find_channel(chs.take(n), c),
    decreases chs.len() - n,
{
    if n < chs.len() {
        assert(chs.take(n + 1).drop_last() =~= chs.take(n));
        lemma_find_extend(chs, c, n + 1);
    } else {
        assert(chs.take(n) =~= chs);
    }
}


// ── Laws of the settle state machine ────────────────────────────────────────

/// A match reported by `find_channel` is an index of the table.
pub proof fn lemma_find_in_range(chs: Seq<ChannelModel>, c: Seq<char>)
    ensures
        find_channel(chs, c) matches Some(i) ==> 0 <= i < chs.len() && chs[i].channel == c,
    decreases chs.len(),
{
    if chs.len() > 0 {
        lemma_find_in_range(chs.drop_last(), c);
    }
}

/// Churn defers: with a non-zero settle period, an observation that moves
/// its channel's staleness key or p4k signature — or names a channel never
/// seen — makes no event due.
pub proof fn lemma_churn_defers(chs: Seq<ChannelModel>, settle: u64, now: u64, o: Observation)
    requires
        settle > 0,
        match find_channel(chs, o.info.channel@) {
            Some(i) => staleness_key_spec(o.info) != chs[i].last || o.sig != chs[i].sig,
            None => true,
        },
    ensures
        observe_one(chs, settle, now, o).1 is None,
{
    lemma_find_in_range(chs, o.info.channel@);
}

/// A pending change that stays quiet (same key, same signature) for the
/// settle period is reported once, carrying the latest install info; the
/// channel then has nothing pending.
pub proof fn lemma_settled_change_reported(chs: Seq<ChannelModel>, settle: u64, now: u64, o: Observation)
    requires
        find_channel(chs, o.info.channel@) matches Some(i) && chs[i].last != chs[i].emitted
            && staleness_key_spec(o.info) == chs[i].last && o.sig == chs[i].sig
            && elapsed(now, chs[i].activity) >= settle,
    ensures
        ({
            let i = find_channel(chs, o.info.channel@)->0;
            let r = observe_one(chs, settle, now, o);
            &&& r.1 == Some(EventModel::Changed(chs[i].info))
            &&& r.0[i].emitted == r.0[i].last
            &&& r.0[i].last == chs[i].last
        }),
{
    lemma_find_in_range(chs, o.info.channel@);
}

/// Once reported, a build is not reported again: observing a channel
/// whose emitted key is its current key, with the same key and signature,
/// makes no event due and only marks the channel present.
pub proof fn lemma_reported_once(chs: Seq<ChannelModel>, settle: u64, now: u64, o: Observation)
    requires
        find_channel(chs, o.info.channel@) matches Some(i) && chs[i].last == chs[i].emitted
            && staleness_key_spec(o.info) == chs[i].last && o.sig == chs[i].sig,
    ensures
        ({
            let i = find_channel(chs, o.info.channel@)->0;
            let r = observe_one(chs, settle, now, o);
            &&& r.1 is None
            &&& r.0.len() == chs.len()
            &&& r.0[i].last == chs[i].last
            &&& r.0[i].emitted == chs[i].emitted
            &&& r.0[i].missing == 0
            &&& forall|j: int| 0 <= j < chs.len() && j != i ==> r.0[j] == chs[j]
        }),
{
    lemma_find_in_range(chs, o.info.channel@);
}

/// A rollback clears the pending change: observing a channel's emitted
/// key again makes no event due.
pub proof fn lemma_rollback_clears_pending(chs: Seq<ChannelModel>, settle: u64, now: u64, o: Observation)
    requires
        find_channel(chs, o.info.channel@) matches Some(i) && staleness_key_spec(o.info)
            == chs[i].emitted,
    ensures
        observe_one(chs, settle, now, o).1 is None,
        ({
            let i = find_channel(chs, o.info.channel@)->0;
            observe_one(chs, settle, now, o).0[i].last == chs[i].emitted
        }),
{
    lemma_find_in_range(chs, o.info.channel@);
}

/// The sweep of a poll that saw nothing.
proof fn lemma_sweep_unseen(chs: Seq<ChannelModel>)
    requires
        forall|i: int| 0 <= i < chs.len() ==> #[trigger] chs[i].missing == 0 || chs[i].missing == 1,
    ensures
        (forall|i: int| 0 <= i < chs.len() ==> #[trigger] chs[i].missing == 0) ==> sweep(
            chs,
            Seq::empty(),
        ) == (chs.map_values(|c: ChannelModel| missed(c)), Seq::<EventModel>::empty()),
        (forall|i: int| 0 <= i < chs.len() ==> #[trigger] chs[i].missing == 1) ==> sweep(
            chs,
            Seq::empty(),
        ) == (Seq::<ChannelModel>::empty(), chs.map_values(|c: ChannelModel| EventModel::Removed(c.channel))),
    decreases chs.len(),
{
    if chs.len() > 0 {
        lemma_sweep_unseen(chs.drop_last());
        assert(!Seq::<Seq<char>>::empty().contains(chs.last().channel));
        if forall|i: int| 0 <= i < chs.len() ==> #[trigger] chs[i].missing == 0 {
            assert(forall|i: int| 0 <= i < chs.drop_last().len() ==> #[trigger] chs.drop_last()[i].missing == 0);
            assert(chs.map_values(|c: ChannelModel| missed(c)) =~= chs.drop_last().map_values(
                |c: ChannelModel| missed(c),
            ).push(missed(chs.last())));
        }
        if forall|i: int| 0 <= i < chs.len() ==> #[trigger] chs[i].missing == 1 {
            assert(forall|i: int| 0 <= i < chs.drop_last().len() ==> #[trigger] chs.drop_last()[i].missing == 1);
            assert(chs.map_values(|c: ChannelModel| EventModel::Removed(c.channel)) =~= chs.drop_last().map_values(
                |c: ChannelModel| EventModel::Removed(c.channel),
            ).push(EventModel::Removed(chs.last().channel)));
        }
    }
}

/// An install is removed only after two consecutive polls without it: the
/// first empty poll reports nothing and keeps every channel; the second
/// drops every channel with one `Removed` event each, in table order.
pub proof fn lemma_removed_after_two_missing_polls(chs: Seq<ChannelModel>, settle: u64, t1: u64, t2: u64)
    requires
        forall|i: int| 0 <= i < chs.len() ==> #[trigger] chs[i].missing == 0,
    ensures
        poll(chs, settle, t1, Seq::empty()).1.len() == 0,
        poll(chs, settle, t1, Seq::empty()).0.len() == chs.len(),
        poll(poll(chs, settle, t1, Seq::empty()).0, settle, t2, Seq::empty()).0.len() == 0,
        poll(poll(chs, settle, t1, Seq::empty()).0, settle, t2, Seq::empty()).1 == chs.map_values(
            |c: ChannelModel| EventModel::Removed(c.channel),
        ),
{
    assert(seen_channels(Seq::<Observation>::empty()) =~= Seq::<Seq<char>>::empty());
    lemma_sweep_unseen(chs);
    let c1 = chs.map_values(|c: ChannelModel| missed(c));
    assert(forall|i: int| 0 <= i < c1.len() ==> #[trigger] c1[i].missing == 1);
    lemma_sweep_unseen(c1);
    assert(Seq::<EventModel>::empty() + Seq::<EventModel>::empty() =~= Seq::<EventModel>::empty());
    assert(c1.map_values(|c: ChannelModel| EventModel::Removed(c.channel)) =~= chs.map_values(
        |c: ChannelModel| EventModel::Removed(c.channel),
    ));
    assert(Seq::<EventModel>::empty() + chs.map_values(|c: ChannelModel| EventModel::Removed(c.channel))
        =~= chs.map_values(|c: ChannelModel| EventModel::Removed(c.channel)));
}

} // verus!

verus! {

// ── One event per channel per poll ──────────────────────────────────────────

/// The table names each channel once, and each state's install info is
/// of its channel.
pub open spec fn table_sound(chs: Seq<ChannelModel>) -> bool {
    &&& forall|i: int, j: int| 0 <= i < j < chs.len() ==> (#[trigger] chs[i]).channel != (#[trigger] chs[j]).channel
    &&& forall|i: int| 0 <= i < chs.len() ==> (#[trigger] chs[i]).info.channel@ == chs[i].channel
}

/// The channel an event is about.
pub open spec fn event_channel(e: EventModel) -> Seq<char> {
    match e {
        EventModel::Changed(i) => i.channel@,
        EventModel::Removed(c) => c,
    }
}

/// A batch names each channel at most once.
pub open spec fn batch_distinct(obs: Seq<Observation>) -> bool {
    forall|i: int, j: int| 0 <= i < j < obs.len() ==> (#[trigger] obs[i]).info.channel@ != (#[trigger] obs[j]).info.channel@
}

/// Events about pairwise different channels.
pub open spec fn events_distinct(es: Seq<EventModel>) -> bool {
    forall|i: int, j: int| 0 <= i < j < es.len() ==> event_channel(#[trigger] es[i]) != event_channel(#[trigger] es[j])
}

/// Some state of the table is of channel `c`.
pub open spec fn has_channel(chs: Seq<ChannelModel>, c: Seq<char>) -> bool {
    exists|i: int| 0 <= i < chs.len() && (#[trigger] chs[i]).channel == c
}

proof fn lemma_find_none(chs: Seq<ChannelModel>, c: Seq<char>)
    ensures
        find_channel(chs, c) is None ==> !has_channel(chs, c),
    decreases chs.len(),
{
    if chs.len() > 0 {
        lemma_find_none(chs.drop_last(), c);
        if find_channel(chs, c) is None && has_channel(chs, c) {
            let i = choose|i: int| 0 <= i < chs.len() && (#[trigger] chs[i]).channel == c;
            if i < chs.len() - 1 {
                assert(chs.drop_last()[i] == chs[i]);
            }
        }
    }
}

/// One observation keeps the table sound; its event, if any, is about the
/// observed channel; the channels named are the old ones plus that one.
proof fn lemma_observe_one_sound(chs: Seq<ChannelModel>, settle: u64, now: u64, o: Observation)
    requires
        table_sound(chs),
    ensures
        table_sound(observe_one(chs, settle, now, o).0),
        observe_one(chs, settle, now, o).1 matches Some(e) ==> event_channel(e) == o.info.channel@,
        forall|c: Seq<char>|
            #[trigger] has_channel(observe_one(chs, settle, now, o).0, c) ==> has_channel(chs, c) || c
                == o.info.channel@,
{
    lemma_find_in_range(chs, o.info.channel@);
    lemma_find_none(chs, o.info.channel@);
    let t = table_for(chs, o, now);
    let i = slot_of(chs, o);
    let r = observe_one(chs, settle, now, o);
    assert(table_sound(t)) by {
        if find_channel(chs, o.info.channel@) is None {
            assert forall|a: int, b: int| 0 <= a < b < t.len() implies (#[trigger] t[a]).channel != (#[trigger] t[b]).channel by {
                if b == chs.len() {
                    assert(t[a] == chs[a]);
                }
            }
        }
    }
    assert(t[i].channel == o.info.channel@);
    assert(r.0.len() == t.len());
    assert forall|a: int| 0 <= a < r.0.len() implies (#[trigger] r.0[a]).channel == t[a].channel
        && r.0[a].info.channel@ == r.0[a].channel by {
        if a != i {
            assert(r.0[a] == t[a]);
        }
    }
    assert forall|c: Seq<char>| #[trigger] has_channel(r.0, c) implies has_channel(chs, c) || c == o.info.channel@ by {
        let a = choose|a: int| 0 <= a < r.0.len() && (#[trigger] r.0[a]).channel == c;
        if a < chs.len() && find_channel(chs, o.info.channel@) is None {
            assert(t[a] == chs[a]);
        } else if a < chs.len() {
            assert(t[a] == chs[a]);
        }
    }
}

/// Folding a batch keeps the table sound; every event is about a channel
/// of the batch, and with a batch of distinct channels the events are too.
proof fn lemma_observe_all_sound(chs: Seq<ChannelModel>, settle: u64, now: u64, obs: Seq<Observation>)
    requires
        table_sound(chs),
    ensures
        table_sound(observe_all(chs, settle, now, obs).0),
        forall|k: int|
            0 <= k < observe_all(chs, settle, now, obs).1.len() ==> seen_channels(obs).contains(
                event_channel(#[trigger] observe_all(chs, settle, now, obs).1[k]),
            ),
        batch_distinct(obs) ==> events_distinct(observe_all(chs, settle, now, obs).1),
    decreases obs.len(),
{
    if obs.len() > 0 {
        let d = obs.drop_last();
        lemma_observe_all_sound(chs, settle, now, d);
        let prev = observe_all(chs, settle, now, d);
        let o = obs.last();
        lemma_observe_one_sound(prev.0, settle, now, o);
        let es = observe_all(chs, settle, now, obs).1;
        assert forall|k: int| 0 <= k < es.len() implies seen_channels(obs).contains(event_channel(#[trigger] es[k])) by {
            if k < prev.1.len() {
                assert(es[k] == prev.1[k]);
                let m = choose|m: int| 0 <= m < seen_channels(d).len() && seen_channels(d)[m] == event_channel(prev.1[k]);
                assert(seen_channels(obs)[m] == seen_channels(d)[m]);
            } else {
                assert(seen_channels(obs)[obs.len() - 1] == o.info.channel@);
            }
        }
        if batch_distinct(obs) {
            assert(batch_distinct(d)) by {
                assert forall|a: int, b: int| 0 <= a < b < d.len() implies (#[trigger] d[a]).info.channel@
                    != (#[trigger] d[b]).info.channel@ by {
                    assert(d[a] == obs[a] && d[b] == obs[b]);
                }
            }
            assert forall|a: int, b: int| 0 <= a < b < es.len() implies event_channel(#[trigger] es[a])
                != event_channel(#[trigger] es[b]) by {
                if b >= prev.1.len() {
                    assert(es[a] == prev.1[a]);
                    let m = choose|m: int| 0 <= m < seen_channels(d).len() && seen_channels(d)[m] == event_channel(prev.1[a]);
                    assert(d[m] == obs[m]);
                    assert(obs[m].info.channel@ != obs[obs.len() - 1].info.channel@);
                } else {
                    assert(es[a] == prev.1[a] && es[b] == prev.1[b]);
                }
            }
        }
    }
}

/// The sweep keeps the table sound; its events are about channels of the
/// table that were not seen, pairwise different.
proof fn lemma_sweep_sound(chs: Seq<ChannelModel>, seen: Seq<Seq<char>>)
    requires
        table_sound(chs),
    ensures
        table_sound(sweep(chs, seen).0),
        forall|c: Seq<char>| #[trigger] has_channel(sweep(chs, seen).0, c) ==> has_channel(chs, c),
        forall|k: int|
            0 <= k < sweep(chs, seen).1.len() ==> !seen.contains(event_channel(#[trigger] sweep(chs, seen).1[k]))
                && has_channel(chs, event_channel(sweep(chs, seen).1[k])),
        events_distinct(sweep(chs, seen).1),
    decreases chs.len(),
{
    if chs.len() > 0 {
        let d = chs.drop_last();
        let c = chs.last();
        assert(table_sound(d)) by {
            assert forall|a: int, b: int| 0 <= a < b < d.len() implies (#[trigger] d[a]).channel != (#[trigger] d[b]).channel by {
                assert(d[a] == chs[a] && d[b] == chs[b]);
            }
            assert forall|a: int| 0 <= a < d.len() implies (#[trigger] d[a]).info.channel@ == d[a].channel by {
                assert(d[a] == chs[a]);
            }
        }
        lemma_sweep_sound(d, seen);
        let prev = sweep(d, seen);
        let r = sweep(chs, seen);
        assert(!has_channel(d, c.channel)) by {
            if has_channel(d, c.channel) {
                let a = choose|a: int| 0 <= a < d.len() && (#[trigger] d[a]).channel == c.channel;
                assert(chs[a] == d[a]);
            }
        }
        assert forall|x: Seq<char>| #[trigger] has_channel(r.0, x) implies has_channel(chs, x) by {
            let a = choose|a: int| 0 <= a < r.0.len() && (#[trigger] r.0[a]).channel == x;
            if a < prev.0.len() {
                assert(r.0[a] == prev.0[a]);
                assert(has_channel(prev.0, x));
                let b = choose|b: int| 0 <= b < d.len() && (#[trigger] d[b]).channel == x;
                assert(chs[b] == d[b]);
            } else {
                assert(chs[chs.len() - 1] == c);
            }
        }
        assert(table_sound(r.0)) by {
            assert forall|a: int, b: int| 0 <= a < b < r.0.len() implies (#[trigger] r.0[a]).channel != (#[trigger] r.0[b]).channel by {
                if b >= prev.0.len() {
                    assert(r.0[a] == prev.0[a]);
                    assert(has_channel(prev.0, prev.0[a].channel));
                } else {
                    assert(r.0[a] == prev.0[a] && r.0[b] == prev.0[b]);
                }
            }
            assert forall|a: int| 0 <= a < r.0.len() implies (#[trigger] r.0[a]).info.channel@ == r.0[a].channel by {
                if a < prev.0.len() {
                    assert(r.0[a] == prev.0[a]);
                }
            }
        }
        assert forall|k: int| 0 <= k < r.1.len() implies !seen.contains(event_channel(#[trigger] r.1[k]))
            && has_channel(chs, event_channel(r.1[k])) by {
            if k < prev.1.len() {
                assert(r.1[k] == prev.1[k]);
                let b = choose|b: int| 0 <= b < d.len() && (#[trigger] d[b]).channel == event_channel(prev.1[k]);
                assert(chs[b] == d[b]);
            } else {
                assert(chs[chs.len() - 1] == c);
            }
        }
        assert forall|a: int, b: int| 0 <= a < b < r.1.len() implies event_channel(#[trigger] r.1[a]) != event_channel(
            #[trigger] r.1[b],
        ) by {
            if b >= prev.1.len() {
                assert(r.1[a] == prev.1[a]);
            } else {
                assert(r.1[a] == prev.1[a] && r.1[b] == prev.1[b]);
            }
        }
    }
}

/// A poll reports each channel at most once: given a sound table (as
/// [`WatchCore::new`], [`WatchCore::seed`] and [`WatchCore::observe`] keep
/// it, see [`lemma_seed_keeps_sound`]) and a batch naming each channel
/// once, no two of its events are about the same channel — a `Changed`
/// is about an observed channel, a `Removed` about one not observed — and
/// the table stays sound.
pub proof fn lemma_one_event_per_channel(chs: Seq<ChannelModel>, settle: u64, now: u64, obs: Seq<Observation>)
    requires
        table_sound(chs),
        batch_distinct(obs),
    ensures
        events_distinct(poll(chs, settle, now, obs).1),
        table_sound(poll(chs, settle, now, obs).0),
{
    let a = observe_all(chs, settle, now, obs);
    lemma_observe_all_sound(chs, settle, now, obs);
    lemma_sweep_sound(a.0, seen_channels(obs));
    let b = sweep(a.0, seen_channels(obs));
    let es = a.1 + b.1;
    assert forall|x: int, y: int| 0 <= x < y < es.len() implies event_channel(#[trigger] es[x]) != event_channel(
        #[trigger] es[y],
    ) by {
        if y < a.1.len() {
            assert(es[x] == a.1[x] && es[y] == a.1[y]);
        } else if x >= a.1.len() {
            assert(es[x] == b.1[x - a.1.len()] && es[y] == b.1[y - a.1.len()]);
        } else {
            assert(es[x] == a.1[x]);
            assert(es[y] == b.1[y - a.1.len()]);
        }
    }
}

/// Seeding keeps the table sound; so does the empty table a new core
/// starts with.
pub proof fn lemma_seed_keeps_sound(chs: Seq<ChannelModel>, now: u64, obs: Seq<Observation>)
    requires
        table_sound(chs),
    ensures
        table_sound(seed_all(chs, now, obs)),
        table_sound(Seq::<ChannelModel>::empty()),
    decreases obs.len(),
{
    if obs.len() > 0 {
        lemma_seed_keeps_sound(chs, now, obs.drop_last());
        let prev = seed_all(chs, now, obs.drop_last());
        let o = obs.last();
        lemma_find_in_range(prev, o.info.channel@);
        lemma_find_none(prev, o.info.channel@);
        let r = seed_all(chs, now, obs);
        match find_channel(prev, o.info.channel@) {
            Some(i) => {
                assert forall|a: int, b: int| 0 <= a < b < r.len() implies (#[trigger] r[a]).channel != (#[trigger] r[b]).channel by {
                    assert(r[a].channel == prev[a].channel && r[b].channel == prev[b].channel);
                }
                assert forall|a: int| 0 <= a < r.len() implies (#[trigger] r[a]).info.channel@ == r[a].channel by {
                    if a != i {
                        assert(r[a] == prev[a]);
                    }
                }
            },
            None => {
                assert forall|a: int, b: int| 0 <= a < b < r.len() implies (#[trigger] r[a]).channel != (#[trigger] r[b]).channel by {
                    if b == prev.len() {
                        assert(r[a] == prev[a]);
                    } else {
                        assert(r[a] == prev[a] && r[b] == prev[b]);
                    }
                }
                assert forall|a: int| 0 <= a < r.len() implies (#[trigger] r[a]).info.channel@ == r[a].channel by {
                    if a < prev.len() {
                        assert(r[a] == prev[a]);
                    }
                }
            },
        }
    }
}

} // verus!
