//! Starlume's verified core: the localization-patch engine (derive, apply,
//! maintained patch state), the install watcher's settle logic, and the
//! small pure helpers the desktop shell and the sign-in server share.
//!
//! The localization engine is a two-stage pipeline:
//!
//! - **Derive** ([`derive`]): patchers turn [`cooked::CookedData`] into
//!   [`ops::OpSet`]s — once per (build, patcher, options), cached.
//! - **Apply** ([`merge`]): base `global.ini` + language-pack overlay +
//!   enabled op-sets + user overrides (always last, always win) → the
//!   loose-file override in the install dir.
//!
//! [`state`] holds the per-install fingerprint and plans reconciliation.

pub mod text;
pub mod format;
pub mod strmap;
pub mod ops;
pub mod merge;
pub mod state;
pub mod cooked;
pub mod patchers;
pub mod watch;
pub mod hashing;
pub mod derive;
pub mod server;
pub mod catalog;
pub mod shell;
pub mod views;
pub mod accounts;
pub mod profile;
pub mod toml_patcher;
pub mod compose;
pub mod reconcile;
pub mod sorting;
pub mod queries;

use vstd::prelude::*;

verus! {

/// One enrichment patcher: derives INI patch operations from the cooked
/// game data. Pure — no I/O; everything a patcher reads is in
/// [`cooked::CookedData`].
pub trait Patcher {
    /// The id [`Patcher::id`] returns.
    spec fn spec_id(&self) -> Seq<char>;

    /// What [`Patcher::default_enabled`] returns.
    spec fn spec_default_enabled(&self) -> bool;

    /// What [`Patcher::priority`] returns.
    spec fn spec_priority(&self) -> u32;

    /// What [`Patcher::name`] returns.
    spec fn spec_name(&self) -> Seq<char>;

    /// What [`Patcher::description`] returns.
    spec fn spec_description(&self) -> Seq<char>;

    /// What [`Patcher::uses_replace_ops`] returns.
    spec fn spec_uses_replace_ops(&self) -> bool;

    /// The texts of the options [`Patcher::options`] returns.
    spec fn spec_options(&self) -> Seq<ops::OptionText>;

    /// What [`Patcher::derive`] may return for `cooked` under `config`:
    /// the op-set as plain values, or the error message.
    spec fn spec_derive_ok(
        &self,
        cooked: cooked::CookedData,
        config: ops::PatcherConfig,
        r: Result<ops::OpSetView, Seq<char>>,
    ) -> bool;

    /// Stable id (config key, cache key, UI key).
    fn id(&self) -> (r: &str)
        ensures
            r@ == self.spec_id(),
    ;

    /// Display name.
    fn name(&self) -> (r: &str)
        ensures
            r@ == self.spec_name(),
    ;

    /// One-line description for the UI.
    fn description(&self) -> (r: &str)
        ensures
            r@ == self.spec_description(),
    ;

    /// Enabled when the user never chose.
    fn default_enabled(&self) -> (b: bool)
        ensures
            b == self.spec_default_enabled(),
    ;

    /// Emits `PatchOp::Replace` — overwrites community-pack text for those
    /// keys; the UI badges this for translation-pack users.
    fn uses_replace_ops(&self) -> (b: bool)
        ensures
            b == self.spec_uses_replace_ops(),
    ;

    /// Lower runs first when op-sets are combined at apply time. Key-fix
    /// style patchers use 0; enrichment uses 100.
    fn priority(&self) -> (p: u32)
        ensures
            p == self.spec_priority(),
    ;

    /// The options the user can set, in display order.
    fn options(&self) -> (r: Vec<ops::PatcherOption>)
        ensures
            ops::options_text(r@) == self.spec_options(),
    ;

    /// Derive this patcher's op-set. Key-existence checks go against
    /// `cooked.locale` (parsed from the same base `global.ini` the ops are
    /// later applied to).
    fn derive(&self, cooked: &cooked::CookedData, config: &ops::PatcherConfig) -> (r: Result<
        ops::OpSet,
        String,
    >)
        requires
            cooked.wf(),
            config.options.wf(),
        ensures
            self.spec_derive_ok(*cooked, *config, ops::derive_view(r)),
    ;
}

} // verus!
