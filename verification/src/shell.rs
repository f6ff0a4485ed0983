//! Desktop-shell shapes and rules: notifications, app settings and the
//! online policy gates, the feature-module registry, auth status, bus
//! events, and the install/social views the UI receives.

use vstd::prelude::*;

use crate::text::str_eq;
use crate::watch::{InstallEvent, InstallInfo};

verus! {

// ── Notifications ───────────────────────────────────────────────────────────

/// Severity of a notification: `Info` / `Success` fade, `Warning` /
/// `Error` persist until dismissed.
#[derive(Debug, Clone, Copy, PartialEq, Eq, Structural)]
pub enum NotifLevel {
    Info,
    Success,
    Warning,
    Error,
}

/// A labelled link the frontend turns into a "View →" affordance that
/// navigates to `href` (an in-app route).
#[derive(Debug, Clone)]
pub struct NotifAction {
    pub label: String,
    pub href: String,
}

/// A user-facing notification.
#[derive(Debug, Clone)]
pub struct Notification {
    pub level: NotifLevel,
    pub title: String,
    pub body: Option<String>,
    pub action: Option<NotifAction>,
    /// Module/service id that raised this ("auth", "langpatch", …).
    pub source: Option<String>,
}

impl Notification {
    /// A notification with only a level and a title.
    pub fn new(level: NotifLevel, title: &str) -> (r: Notification)
        ensures
            r.level == level,
            r.title@ == title@,
            r.body is None,
            r.action is None,
            r.source is None,
    {
        Notification { level, title: title.to_owned(), body: None, action: None, source: None }
    }

    pub fn info(title: &str) -> (r: Notification)
        ensures
            r.level == NotifLevel::Info,
            r.title@ == title@,
            r.body is None && r.action is None && r.source is None,
    {
        Notification::new(NotifLevel::Info, title)
    }

    pub fn success(title: &str) -> (r: Notification)
        ensures
            r.level == NotifLevel::Success,
            r.title@ == title@,
            r.body is None && r.action is None && r.source is None,
    {
        Notification::new(NotifLevel::Success, title)
    }

    pub fn warning(title: &str) -> (r: Notification)
        ensures
            r.level == NotifLevel::Warning,
            r.title@ == title@,
            r.body is None && r.action is None && r.source is None,
    {
        Notification::new(NotifLevel::Warning, title)
    }

    pub fn error(title: &str) -> (r: Notification)
        ensures
            r.level == NotifLevel::Error,
            r.title@ == title@,
            r.body is None && r.action is None && r.source is None,
    {
        Notification::new(NotifLevel::Error, title)
    }

    /// Attach a secondary detail line.
    pub fn with_body(self, body: &str) -> (r: Notification)
        ensures
            r.level == self.level,
            r.title == self.title,
            r.body matches Some(b) && b@ == body@,
            r.action == self.action,
            r.source == self.source,
    {
        let mut n = self;
        n.body = Some(body.to_owned());
        n
    }

    /// Attach a "View →"-style action that navigates to an in-app route.
    pub fn with_action(self, label: &str, href: &str) -> (r: Notification)
        ensures
            r.level == self.level,
            r.title == self.title,
            r.body == self.body,
            r.action matches Some(a) && a.label@ == label@ && a.href@ == href@,
            r.source == self.source,
    {
        let mut n = self;
        n.action = Some(NotifAction { label: label.to_owned(), href: href.to_owned() });
        n
    }

    /// Name the module/service raising this notification.
    pub fn with_source(self, source: &str) -> (r: Notification)
        ensures
            r.level == self.level,
            r.title == self.title,
            r.body == self.body,
            r.action == self.action,
            r.source matches Some(s) && s@ == source@,
    {
        let mut n = self;
        n.source = Some(source.to_owned());
        n
    }
}

// ── Settings and the online policy ──────────────────────────────────────────

/// App-global preferences.
#[derive(Debug, Clone)]
pub struct AppSettings {
    /// Whether the first-launch onboarding has been completed/skipped.
    pub onboarding_completed: bool,
    /// Launch hidden to tray (companion mode).
    pub start_minimized: bool,
    /// Closing the main window hides to tray instead of quitting.
    pub close_to_tray: bool,
    /// Run at login.
    pub autostart: bool,
    /// Starlume server base URL. `None` → all online features disabled.
    pub server_url: Option<String>,
    /// Feature modules the user enabled.
    pub enabled_modules: Vec<String>,
    /// Master online switch (default on). Off → no network calls at all.
    pub online_enabled: bool,
    /// Master switch for game-services (gRPC) calls (default off, opt-in).
    pub grpc_enabled: bool,
    /// One-time terms acknowledgement, set the first time `grpc_enabled`
    /// flips on.
    pub grpc_consented: bool,
    /// Per-sub-feature allow-list for gRPC calls.
    pub grpc_features: Vec<String>,
}

impl Default for AppSettings {
    fn default() -> (r: Self)
        ensures
            !r.onboarding_completed,
            !r.start_minimized,
            r.close_to_tray,
            !r.autostart,
            r.server_url is None,
            r.enabled_modules@.len() == 0,
            r.online_enabled,
            !r.grpc_enabled,
            !r.grpc_consented,
            r.grpc_features@.len() == 0,
    {
        AppSettings {
            onboarding_completed: false,
            start_minimized: false,
            close_to_tray: true,
            autostart: false,
            server_url: None,
            enabled_modules: Vec::new(),
            online_enabled: true,
            grpc_enabled: false,
            grpc_consented: false,
            grpc_features: Vec::new(),
        }
    }
}

/// `list` holds an entry reading `x`.
pub open spec fn lists(list: Seq<String>, x: Seq<char>) -> bool {
    exists|i: int| 0 <= i < list.len() && #[trigger] list[i]@ == x
}

/// Whether `list` holds an entry reading `x`.
pub fn list_contains(list: &Vec<String>, x: &str) -> (b: bool)
    ensures
        b == lists(list@, x@),
{
    let mut i: usize = 0;
    while i < list.len()
        invariant
            i <= list@.len(),
            forall|j: int| 0 <= j < i ==> list@[j]@ != x@,
        decreases list@.len() - i,
    {
        if str_eq(list[i].as_str(), x) {
            return true;
        }
        i = i + 1;
    }
    false
}

impl AppSettings {
    /// The online master-switch gate: every outbound network call passes
    /// it first. `Err` carries the message shown to the user.
    pub fn require_online(&self) -> (r: Result<(), String>)
        ensures
            r is Ok <==> self.online_enabled,
            r matches Err(m) ==> m@ == "online features are disabled (Settings → Online)"@,
    {
        if self.online_enabled {
            Ok(())
        } else {
            Err("online features are disabled (Settings → Online)".to_owned())
        }
    }

    /// The game-services gate: the online master switch, the gRPC master
    /// switch, and the sub-feature's own allow-list entry, checked in that
    /// order.
    pub fn require_grpc(&self, feature: &str) -> (r: Result<(), String>)
        ensures
            r is Ok <==> self.online_enabled && self.grpc_enabled && lists(self.grpc_features@, feature@),
            r matches Err(m) ==> m@ == if !self.online_enabled {
                "online features are disabled (Settings → Online)"@
            } else if !self.grpc_enabled {
                "game-services (gRPC) calls are disabled (Settings → Online)"@
            } else {
                "gRPC feature '"@ + feature@ + "' is not enabled (Settings → Online)"@
            },
    {
        if !self.online_enabled {
            return Err("online features are disabled (Settings → Online)".to_owned());
        }
        if !self.grpc_enabled {
            return Err("game-services (gRPC) calls are disabled (Settings → Online)".to_owned());
        }
        if !list_contains(&self.grpc_features, feature) {
            let mut m = "gRPC feature '".to_owned();
            m.append(feature);
            m.append("' is not enabled (Settings → Online)");
            return Err(m);
        }
        Ok(())
    }

    /// The snapshot an update stores: the first enable of the gRPC master
    /// records the one-time consent.
    pub fn with_consent_recorded(self, old_grpc_enabled: bool) -> (r: AppSettings)
        ensures
            r.grpc_consented == (self.grpc_consented || (self.grpc_enabled && !old_grpc_enabled)),
            r.grpc_enabled == self.grpc_enabled,
            r.online_enabled == self.online_enabled,
            r.autostart == self.autostart,
            r.grpc_features == self.grpc_features,
    {
        let mut s = self;
        if s.grpc_enabled && !old_grpc_enabled {
            s.grpc_consented = true;
        }
        s
    }
}

/// A gRPC sub-feature users can individually allow.
#[derive(Debug, Clone)]
pub struct GrpcFeatureInfo {
    pub id: String,
    pub name: String,
    pub description: String,
}

// ── Feature modules ─────────────────────────────────────────────────────────

/// A Starlume feature module (langpatch, tracker, cargo, fleet, …).
pub trait Module {
    /// Stable id — used in `AppSettings::enabled_modules` and routes.
    fn id(&self) -> &'static str;
    /// Human-facing name for onboarding / settings.
    fn name(&self) -> &'static str;
    /// One-liner shown in the onboarding module picker.
    fn description(&self) -> &'static str;
}

/// A compiled-in module with its enabled state.
#[derive(Debug, Clone)]
pub struct ModuleInfo {
    pub id: String,
    pub name: String,
    pub description: String,
    pub enabled: bool,
}

// ── Auth ────────────────────────────────────────────────────────────────────

#[derive(Debug, Clone)]
pub struct AuthStatus {
    /// A device token is present in the credential store.
    pub logged_in: bool,
    /// A server URL is configured — login is possible at all.
    pub server_configured: bool,
}

#[derive(Debug, Clone)]
pub struct Profile {
    pub username: String,
    pub avatar_url: Option<String>,
}

// ── Bus ─────────────────────────────────────────────────────────────────────

/// Events on the in-process bus.
#[derive(Debug, Clone)]
pub enum BusEvent {
    /// An SC install settled on a new build (or a new install appeared).
    InstallChanged(InstallInfo),
    /// An SC install disappeared.
    InstallRemoved { channel: String },
}

impl BusEvent {
    /// The bus event a settled watcher event becomes.
    pub fn from_install_event(e: InstallEvent) -> (r: BusEvent)
        ensures
            match e {
                InstallEvent::Changed(i) => r == BusEvent::InstallChanged(i),
                InstallEvent::Removed { channel } => r == BusEvent::InstallRemoved { channel },
            },
    {
        match e {
            InstallEvent::Changed(i) => BusEvent::InstallChanged(i),
            InstallEvent::Removed { channel } => BusEvent::InstallRemoved { channel },
        }
    }
}

// ── Installs and social views ───────────────────────────────────────────────

/// One detected install as the UI shows it.
#[derive(Debug, Clone)]
pub struct InstallView {
    pub channel: String,
    pub platform: String,
    pub directory: String,
    pub version: String,
    pub build_id: String,
}

impl InstallView {
    /// The view of a detected install: every field carried over.
    pub fn of(info: &InstallInfo) -> (r: InstallView)
        ensures
            r.channel == info.channel,
            r.platform == info.platform,
            r.directory == info.directory,
            r.version == info.version,
            r.build_id == info.build_id,
    {
        InstallView {
            channel: info.channel.clone(),
            platform: info.platform.clone(),
            directory: info.directory.clone(),
            version: info.version.clone(),
            build_id: info.build_id.clone(),
        }
    }
}

#[derive(Debug, Clone)]
pub struct FriendUser {
    pub user_id: String,
    pub username: String,
}

#[derive(Debug, Clone)]
pub struct GroupMember {
    pub username: String,
    pub is_owner: bool,
}

#[derive(Debug, Clone)]
pub struct FriendGroup {
    pub id: String,
    pub name: String,
    pub is_owner: bool,
    pub members: Vec<GroupMember>,
}

} // verus!

verus! {

// ── The session notification log ────────────────────────────────────────────

/// The log keeps at most this many records (the frontend store's cap).
pub const MAX_NOTIFICATIONS: usize = 100;

impl Notification {
    /// A copy holding the same level, texts, action and source.
    pub fn copy(&self) -> (r: Notification)
        ensures
            r == *self,
    {
        Notification {
            level: self.level,
            title: self.title.clone(),
            body: match &self.body {
                Some(b) => Some(b.clone()),
                None => None,
            },
            action: match &self.action {
                Some(a) => Some(NotifAction { label: a.label.clone(), href: a.href.clone() }),
                None => None,
            },
            source: match &self.source {
                Some(s) => Some(s.clone()),
                None => None,
            },
        }
    }
}

/// A notification as logged: its session id and when it was raised
/// (milliseconds since the Unix epoch).
pub struct NotificationRecord {
    pub id: u32,
    pub ts_ms: u64,
    pub payload: Notification,
}

impl NotificationRecord {
    pub fn copy(&self) -> (r: NotificationRecord)
        ensures
            r == *self,
    {
        NotificationRecord { id: self.id, ts_ms: self.ts_ms, payload: self.payload.copy() }
    }
}

/// Bounded session ring buffer of notifications, oldest first.
pub struct NotifLog {
    items: Vec<NotificationRecord>,
    next_id: u32,
}

impl View for NotifLog {
    type V = Seq<NotificationRecord>;

    closed spec fn view(&self) -> Seq<NotificationRecord> {
        self.items@
    }
}

impl NotifLog {
    /// At most [`MAX_NOTIFICATIONS`] records.
    pub closed spec fn wf(&self) -> bool {
        self.items@.len() <= MAX_NOTIFICATIONS
    }

    /// The id the next record gets.
    pub closed spec fn next_id(&self) -> u32 {
        self.next_id
    }

    /// An empty log; ids start at 0.
    pub fn new() -> (r: NotifLog)
        ensures
            r.wf(),
            r@.len() == 0,
            r.next_id() == 0,
    {
        NotifLog { items: Vec::new(), next_id: 0 }
    }

    /// Record `n` raised at `ts_ms`: it gets the next id, and the oldest
    /// record goes when the log is full.
    pub fn push(&mut self, n: Notification, ts_ms: u64) -> (r: NotificationRecord)
        requires
            old(self).wf(),
            old(self).next_id() < u32::MAX,
        ensures
            final(self).wf(),
            r == (NotificationRecord { id: old(self).next_id(), ts_ms, payload: n }),
            final(self).next_id() == old(self).next_id() + 1,
            final(self)@ == (if old(self)@.len() == MAX_NOTIFICATIONS {
                old(self)@.drop_first()
            } else {
                old(self)@
            }).push(r),
    {
        let record = NotificationRecord { id: self.next_id, ts_ms, payload: n };
        self.next_id = self.next_id + 1;
        if self.items.len() == MAX_NOTIFICATIONS {
            self.items.remove(0);
        }
        self.items.push(record.copy());
        record
    }

    /// The backlog, newest first.
    pub fn recent(&self) -> (r: Vec<NotificationRecord>)
        ensures
            r@ == self@.reverse(),
    {
        let mut r: Vec<NotificationRecord> = Vec::new();
        let mut i: usize = self.items.len();
        while i > 0
            invariant
                i <= self.items@.len(),
                r@ == self.items@.skip(i as int).reverse(),
            decreases i,
        {
            i = i - 1;
            r.push(self.items[i].copy());
            assert(r@ =~= self.items@.skip(i as int).reverse());
        }
        assert(self.items@.skip(0) =~= self.items@);
        r
    }
}

} // verus!
