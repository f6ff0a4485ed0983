//! Patch-operation model and patcher configuration — the vocabulary shared
//! by derive (patchers → ops), the op-set cache, and apply (ops → patched
//! `global.ini`).

use vstd::prelude::*;

use crate::strmap::{StrMap, lookup, lookup_text};
use crate::text::str_eq;

verus! {

// ── Patch operations ────────────────────────────────────────────────────────

/// How a single INI key's value is modified.
#[derive(Debug, Clone, PartialEq)]
pub enum PatchOp {
    /// Completely replace the original value. Discards community-pack text
    /// for that key — patchers emitting these declare
    /// [`crate::Patcher::uses_replace_ops`] so the UI can badge them.
    Replace(String),
    /// Prepend to the current value.
    Prefix(String),
    /// Append to the current value.
    Suffix(String),
}

/// One op applied to a value.
pub open spec fn apply_op(value: Seq<char>, op: PatchOp) -> Seq<char> {
    match op {
        PatchOp::Replace(v) => v@,
        PatchOp::Prefix(p) => p@ + value,
        PatchOp::Suffix(s) => value + s@,
    }
}

/// A stack of ops applied to a value, first to last.
pub open spec fn apply_ops_spec(value: Seq<char>, ops: Seq<PatchOp>) -> Seq<char>
    decreases ops.len(),
{
    if ops.len() == 0 {
        value
    } else {
        apply_op(apply_ops_spec(value, ops.drop_last()), ops.last())
    }
}

/// The text-level reading of a [`PatchOp`].
pub enum OpView {
    Replace(Seq<char>),
    Prefix(Seq<char>),
    Suffix(Seq<char>),
}

impl View for PatchOp {
    type V = OpView;

    open spec fn view(&self) -> OpView {
        match self {
            PatchOp::Replace(v) => OpView::Replace(v@),
            PatchOp::Prefix(v) => OpView::Prefix(v@),
            PatchOp::Suffix(v) => OpView::Suffix(v@),
        }
    }
}

/// The `(key, op)` list read at text level.
pub open spec fn patches_view(p: Seq<(String, PatchOp)>) -> Seq<(Seq<char>, OpView)> {
    p.map_values(|x: (String, PatchOp)| (x.0@, x.1@))
}

impl PatchOp {
    /// A copy of this op holding the same text.
    pub fn copy_op(&self) -> (r: PatchOp)
        ensures
            r == *self,
    {
        match self {
            PatchOp::Replace(v) => PatchOp::Replace(v.clone()),
            PatchOp::Prefix(v) => PatchOp::Prefix(v.clone()),
            PatchOp::Suffix(v) => PatchOp::Suffix(v.clone()),
        }
    }
}

/// Rename an INI key (keeping its value). Applied before value patches, so
/// later phases see corrected keys.
#[derive(Debug, Clone, PartialEq)]
pub struct KeyRename {
    pub from: String,
    pub to: String,
}

/// One patcher's derive result — the cacheable artifact.
#[derive(Debug, Clone, PartialEq)]
pub struct OpSet {
    pub renames: Vec<KeyRename>,
    /// `(ini_key, op)` pairs. Keys are the stripped form (no `@`).
    pub patches: Vec<(String, PatchOp)>,
}

/// The text-level reading of an op-set: its renames and its patches.
pub open spec fn ops_view(o: OpSet) -> (Seq<(Seq<char>, Seq<char>)>, Seq<(Seq<char>, OpView)>) {
    (o.renames@.map_values(|r: KeyRename| (r.from@, r.to@)), patches_view(o.patches@))
}

/// An op-set as plain values: its renames, then its patches.
pub type OpSetView = (Seq<(Seq<char>, Seq<char>)>, Seq<(Seq<char>, OpView)>);

/// A derive result as plain values.
pub open spec fn derive_view(r: Result<OpSet, String>) -> Result<OpSetView, Seq<char>> {
    match r {
        Ok(o) => Ok(ops_view(o)),
        Err(m) => Err(m@),
    }
}

impl OpSet {
    /// A copy holding the same renames and patches.
    pub fn copy_set(&self) -> (r: OpSet)
        ensures
            ops_view(r) == ops_view(*self),
    {
        let mut renames: Vec<KeyRename> = Vec::new();
        let mut i: usize = 0;
        while i < self.renames.len()
            invariant
                i <= self.renames@.len(),
                renames@.len() == i,
                forall|j: int| 0 <= j < i ==> (#[trigger] renames@[j]).from@ == self.renames@[j].from@
                    && renames@[j].to@ == self.renames@[j].to@,
            decreases self.renames@.len() - i,
        {
            renames.push(KeyRename { from: self.renames[i].from.clone(), to: self.renames[i].to.clone() });
            i = i + 1;
        }
        let mut patches: Vec<(String, PatchOp)> = Vec::new();
        let mut k: usize = 0;
        while k < self.patches.len()
            invariant
                k <= self.patches@.len(),
                patches@.len() == k,
                forall|j: int| 0 <= j < k ==> (#[trigger] patches@[j]).0@ == self.patches@[j].0@
                    && patches@[j].1@ == self.patches@[j].1@,
            decreases self.patches@.len() - k,
        {
            patches.push((self.patches[k].0.clone(), self.patches[k].1.copy_op()));
            k = k + 1;
        }
        let r = OpSet { renames, patches };
        assert(ops_view(r).0 =~= ops_view(*self).0);
        assert(ops_view(r).1 =~= ops_view(*self).1);
        r
    }

    /// The empty op-set.
    pub fn empty() -> (r: OpSet)
        ensures
            r.renames@.len() == 0,
            r.patches@.len() == 0,
    {
        OpSet { renames: Vec::new(), patches: Vec::new() }
    }

    pub fn is_empty(&self) -> (b: bool)
        ensures
            b == (self.renames@.len() == 0 && self.patches@.len() == 0),
    {
        self.renames.len() == 0 && self.patches.len() == 0
    }
}

// ── Patcher options ─────────────────────────────────────────────────────────

/// A configurable option a patcher exposes (rendered by the UI).
#[derive(Debug, Clone)]
pub struct PatcherOption {
    /// Machine-readable identifier (config key).
    pub id: String,
    pub label: String,
    pub description: String,
    pub kind: OptionKind,
    /// Default value, stringly: bools are `"true"`/`"false"`, choices are
    /// the choice value.
    pub default: String,
}

#[derive(Debug, Clone)]
pub enum OptionKind {
    Bool,
    Choice { choices: Vec<ChoiceOption> },
}

#[derive(Debug, Clone)]
pub struct ChoiceOption {
    pub value: String,
    pub label: String,
}

impl ChoiceOption {
    /// A copy of this choice.
    pub fn copy_choice(&self) -> (r: ChoiceOption)
        ensures
            r == *self,
    {
        ChoiceOption { value: self.value.clone(), label: self.label.clone() }
    }
}

/// An option read as text: id, label, description, default, and the
/// `(value, label)` choices (`None` for a toggle).
pub type OptionText = (Seq<char>, Seq<char>, Seq<char>, Seq<char>, Option<Seq<(Seq<char>, Seq<char>)>>);

/// The text of an option.
pub open spec fn option_text(o: PatcherOption) -> OptionText {
    (
        o.id@,
        o.label@,
        o.description@,
        o.default@,
        match o.kind {
            OptionKind::Bool => None,
            OptionKind::Choice { choices } => Some(choices@.map_values(|c: ChoiceOption| (c.value@, c.label@))),
        },
    )
}

/// The texts of a list of options, in order.
pub open spec fn options_text(v: Seq<PatcherOption>) -> Seq<OptionText> {
    v.map_values(|o: PatcherOption| option_text(o))
}

/// Two option kinds hold the same choices.
pub open spec fn kind_same(a: OptionKind, b: OptionKind) -> bool {
    match (a, b) {
        (OptionKind::Bool, OptionKind::Bool) => true,
        (OptionKind::Choice { choices: x }, OptionKind::Choice { choices: y }) => x@ == y@,
        _ => false,
    }
}

/// Two options agree field by field.
pub open spec fn option_same(a: PatcherOption, b: PatcherOption) -> bool {
    &&& a.id == b.id
    &&& a.label == b.label
    &&& a.description == b.description
    &&& a.default == b.default
    &&& kind_same(a.kind, b.kind)
}

impl PatcherOption {
    /// A copy of this option.
    pub fn copy_option(&self) -> (r: PatcherOption)
        ensures
            option_same(r, *self),
    {
        let kind = match &self.kind {
            OptionKind::Bool => OptionKind::Bool,
            OptionKind::Choice { choices } => {
                let mut copied: Vec<ChoiceOption> = Vec::new();
                let mut i: usize = 0;
                while i < choices.len()
                    invariant
                        i <= choices@.len(),
                        copied@ =~= choices@.take(i as int),
                    decreases choices@.len() - i,
                {
                    copied.push(choices[i].copy_choice());
                    proof {
                        assert(choices@.take(i + 1) =~= choices@.take(i as int).push(choices@[i as int]));
                    }
                    i = i + 1;
                }
                assert(choices@.take(choices@.len() as int) =~= choices@);
                OptionKind::Choice { choices: copied }
            },
        };
        PatcherOption {
            id: self.id.clone(),
            label: self.label.clone(),
            description: self.description.clone(),
            kind,
            default: self.default.clone(),
        }
    }
}

/// A copy of a list of options.
pub fn copy_options(v: &Vec<PatcherOption>) -> (r: Vec<PatcherOption>)
    ensures
        r@.len() == v@.len(),
        forall|i: int| 0 <= i < v@.len() ==> option_same(#[trigger] r@[i], v@[i]),
{
    let mut r: Vec<PatcherOption> = Vec::new();
    let mut i: usize = 0;
    while i < v.len()
        invariant
            i <= v@.len(),
            r@.len() == i,
            forall|j: int| 0 <= j < i ==> option_same(#[trigger] r@[j], v@[j]),
        decreases v@.len() - i,
    {
        r.push(v[i].copy_option());
        i = i + 1;
    }
    r
}

/// Per-patcher configuration: enabled + chosen option values.
pub struct PatcherConfig {
    /// `None` → the patcher's `default_enabled` decides.
    pub enabled: Option<bool>,
    /// Option values by option id, in id order. Missing ids fall back to the
    /// option's declared default.
    pub options: StrMap<String>,
}

/// The effective string value of option `id`.
pub open spec fn option_str(config: PatcherConfig, id: Seq<char>, default: Seq<char>) -> Seq<char> {
    match lookup(config.options@, id) {
        Some(v) => v@,
        None => default,
    }
}

/// The effective bool value of option `id`: a stored value is `true` exactly
/// when it reads `"true"`.
pub open spec fn option_bool(config: PatcherConfig, id: Seq<char>, default: bool) -> bool {
    match lookup(config.options@, id) {
        Some(v) => v@ == "true"@,
        None => default,
    }
}

impl PatcherConfig {
    /// No override of enabled, no option values.
    pub fn new() -> (r: PatcherConfig)
        ensures
            r.enabled is None,
            r.options.wf(),
            r.options@.len() == 0,
    {
        PatcherConfig { enabled: None, options: StrMap::new() }
    }

    /// String value of an option, or the given default.
    pub fn get_str<'a>(&'a self, id: &str, default: &'a str) -> (r: &'a str)
        requires
            self.options.wf(),
        ensures
            r@ == option_str(*self, id@, default@),
    {
        match self.options.get(id) {
            Some(v) => v.as_str(),
            None => default,
        }
    }

    /// Bool value of an option, or the given default.
    pub fn get_bool(&self, id: &str, default: bool) -> (r: bool)
        requires
            self.options.wf(),
        ensures
            r == option_bool(*self, id@, default),
    {
        match self.options.get(id) {
            Some(v) => str_eq(v.as_str(), "true"),
            None => default,
        }
    }
}

impl PatcherConfig {
    /// A copy holding the same enabled flag and option values.
    pub fn duplicate(&self) -> (r: PatcherConfig)
        requires
            self.options.wf(),
        ensures
            r.options.wf(),
            r.enabled == self.enabled,
            r.options@ == self.options@,
    {
        PatcherConfig { enabled: self.enabled, options: self.options.clone_map() }
    }
}

// ── Module configuration ────────────────────────────────────────────────────

/// The langpatch module's whole durable configuration.
pub struct LangpatchConfig {
    /// The maintained-state switch: re-patch automatically on install
    /// changes / startup staleness. Default on.
    pub auto_patch: bool,
    /// Channel keys (lowercase) the user wants patched. Installs not listed
    /// are left untouched.
    pub channels: Vec<String>,
    /// Community language pack: a local file path or an `https://` URL.
    pub language_pack: Option<String>,
    /// Per-patcher enable/options, keyed by patcher id.
    pub patchers: StrMap<PatcherConfig>,
}

/// The effective enabled state of a patcher.
pub open spec fn enabled_spec(config: LangpatchConfig, id: Seq<char>, default_enabled: bool) -> bool {
    match lookup(config.patchers@, id) {
        Some(c) => match c.enabled {
            Some(b) => b,
            None => default_enabled,
        },
        None => default_enabled,
    }
}

impl LangpatchConfig {
    /// Internal consistency: the patcher map and every option map are
    /// well-formed.
    pub open spec fn wf(&self) -> bool {
        &&& self.patchers.wf()
        &&& forall|i: int| 0 <= i < self.patchers@.len() ==> (#[trigger] self.patchers@[i]).1.options.wf()
    }

    /// Auto-patch on, the `live` channel, no pack, no patcher settings.
    pub fn new() -> (r: LangpatchConfig)
        ensures
            r.auto_patch,
            r.channels@.len() == 1,
            r.channels@[0]@ == "live"@,
            r.language_pack is None,
            r.patchers.wf(),
            r.patchers@.len() == 0,
    {
        let mut channels: Vec<String> = Vec::new();
        channels.push("live".to_owned());
        LangpatchConfig { auto_patch: true, channels, language_pack: None, patchers: StrMap::new() }
    }

    /// Effective enabled state for one patcher.
    pub fn patcher_enabled(&self, patcher: &dyn crate::Patcher) -> (b: bool)
        requires
            self.patchers.wf(),
        ensures
            b == enabled_spec(*self, patcher.spec_id(), patcher.spec_default_enabled()),
    {
        match self.patchers.get(patcher.id()) {
            Some(c) => match c.enabled {
                Some(b) => b,
                None => patcher.default_enabled(),
            },
            None => patcher.default_enabled(),
        }
    }

    /// The patcher's config (the default when the user never touched it).
    pub fn patcher_config(&self, id: &str) -> (r: PatcherConfig)
        requires
            self.patchers.wf(),
            forall|i: int| 0 <= i < self.patchers@.len() ==> (#[trigger] self.patchers@[i]).1.options.wf(),
        ensures
            r.options.wf(),
            match lookup(self.patchers@, id@) {
                Some(c) => r.enabled == c.enabled && r.options@ == c.options@,
                None => r.enabled is None && r.options@.len() == 0,
            },
    {
        let k = crate::text::chars_of(id);
        match self.patchers.index_of(&k) {
            Some(i) => {
                proof {
                    self.patchers.lemma_wf_sorted();
                    crate::strmap::lemma_lookup_at(self.patchers@, i as int);
                }
                self.patchers.value_at(i).duplicate()
            },
            None => PatcherConfig::new(),
        }
    }
}

} // verus!
