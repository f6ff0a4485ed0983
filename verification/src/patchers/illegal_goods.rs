//! Illegal-goods markers — `[!]` prefix on commodity names + an "Illegal
//! in: …" block on descriptions, rendered from the cooked legality rows.

use vstd::prelude::*;

use crate::cooked::{CookedData, JurisdictionRef, LegalityEntry, LegalityKind, LocaleMap, resolved_text, strip_at, strip_at_spec};
use crate::format::{Color, apply_color, colored};
use crate::ops::{ChoiceOption, OpSet, OpView, OptionKind, PatchOp, PatcherConfig, PatcherOption, option_str, patches_view, OpSetView, ops_view};
use crate::strmap::lookup_text;
use crate::text::{contains_seq, join_strings, join_with, str_contains, str_eq, texts_of};

verus! {

/// Drugs render underlined, contraband highlighted.
pub open spec fn category_color_spec(kind: LegalityKind) -> Color {
    match kind {
        LegalityKind::Drug => Color::Underline,
        LegalityKind::Contraband => Color::Highlight,
    }
}

/// The color a legality category is marked with.
pub fn category_color(kind: LegalityKind) -> (c: Color)
    ensures
        c == category_color_spec(kind),
{
    match kind {
        LegalityKind::Drug => Color::Underline,
        LegalityKind::Contraband => Color::Highlight,
    }
}

/// The player-facing name of a legality category.
pub open spec fn category_label(kind: LegalityKind) -> Seq<char> {
    match kind {
        LegalityKind::Drug => "Controlled Substance"@,
        LegalityKind::Contraband => "Prohibited Good"@,
    }
}

/// The name-prefix marker in the chosen display style.
pub open spec fn marker_prefix(display: Seq<char>, kind: LegalityKind) -> Seq<char> {
    if display == "simple"@ {
        "[!] "@
    } else {
        colored(category_color_spec(kind), "[!]"@) + " "@
    }
}

/// A jurisdiction's shown name: its localized name when present and
/// non-empty, else its record name.
pub open spec fn jurisdiction_label(locale: LocaleMap, j: JurisdictionRef) -> Seq<char> {
    match j.name_key {
        Some(k) => match resolved_text(locale, k@) {
            Some(n) => n,
            None => j.record_name@,
        },
        None => j.record_name@,
    }
}

/// Where a good is outlawed, comma-separated; "All jurisdictions" when
/// the list is empty.
pub open spec fn jurisdictions_text(locale: LocaleMap, js: Seq<JurisdictionRef>) -> Seq<char> {
    if js.len() == 0 {
        "All jurisdictions"@
    } else {
        join_with(js.map_values(|j: JurisdictionRef| jurisdiction_label(locale, j)), ", "@)
    }
}

/// The description text exists, is non-empty and is no `LOC_EMPTY` stub.
pub open spec fn desc_usable(locale: LocaleMap, desc_key: Seq<char>) -> bool {
    match lookup_text(locale.entries@, strip_at_spec(desc_key)) {
        Some(v) => v.len() > 0 && !contains_seq(v, "LOC_EMPTY"@),
        None => false,
    }
}

/// The description block appended for one good.
pub open spec fn legality_block(locale: LocaleMap, good: LegalityEntry) -> Seq<char> {
    "\\n\\n"@ + colored(category_color_spec(good.kind), category_label(good.kind)) + "\\nIllegal in: "@
        + jurisdictions_text(locale, good.jurisdictions@)
}

/// The patches one good contributes: the name prefix when its name has
/// text, then the description block when the description is usable.
pub open spec fn good_patches(locale: LocaleMap, good: LegalityEntry, display: Seq<char>) -> Seq<
    (Seq<char>, OpView),
> {
    let key = strip_at_spec(good.name_key@);
    if resolved_text(locale, key) is None {
        Seq::empty()
    } else {
        let name_patch = seq![(key, OpView::Prefix(marker_prefix(display, good.kind)))];
        let desc_key = key + "_desc"@;
        if desc_usable(locale, desc_key) {
            name_patch.push((desc_key, OpView::Suffix(legality_block(locale, good))))
        } else {
            name_patch
        }
    }
}

/// All patches over the goods, in the cooked order.
pub open spec fn illegal_patches(locale: LocaleMap, goods: Seq<LegalityEntry>, display: Seq<char>) -> Seq<
    (Seq<char>, OpView),
>
    decreases goods.len(),
{
    if goods.len() == 0 {
        Seq::empty()
    } else {
        illegal_patches(locale, goods.drop_last(), display) + good_patches(locale, goods.last(), display)
    }
}

/// Every description block names the good's category: a drug's reads
/// `Controlled Substance` (underlined), contraband's `Prohibited Good`
/// (highlighted), then where the good is illegal; it is appended to the
/// `_desc` key of that good's name key.
pub proof fn lemma_desc_block_names_category(locale: LocaleMap, goods: Seq<LegalityEntry>, display: Seq<char>)
    ensures
        forall|p: int|
            0 <= p < illegal_patches(locale, goods, display).len() && (#[trigger] illegal_patches(
                locale,
                goods,
                display,
            )[p]).1 is Suffix ==> exists|g: int|
                0 <= g < goods.len() && illegal_patches(locale, goods, display)[p] == (
                    strip_at_spec((#[trigger] goods[g]).name_key@) + "_desc"@,
                    OpView::Suffix(
                        "\\n\\n"@ + match goods[g].kind {
                            LegalityKind::Drug => colored(Color::Underline, "Controlled Substance"@),
                            LegalityKind::Contraband => colored(Color::Highlight, "Prohibited Good"@),
                        } + "\\nIllegal in: "@ + jurisdictions_text(locale, goods[g].jurisdictions@),
                    ),
                ),
    decreases goods.len(),
{
    if goods.len() > 0 {
        let t = goods.drop_last();
        lemma_desc_block_names_category(locale, t, display);
        let a = illegal_patches(locale, t, display);
        let b = good_patches(locale, goods.last(), display);
        let all = illegal_patches(locale, goods, display);
        assert(all == a + b);
        assert forall|p: int| 0 <= p < all.len() && (#[trigger] all[p]).1 is Suffix implies exists|g: int|
            0 <= g < goods.len() && all[p] == (
                strip_at_spec((#[trigger] goods[g]).name_key@) + "_desc"@,
                OpView::Suffix(
                    "\\n\\n"@ + match goods[g].kind {
                        LegalityKind::Drug => colored(Color::Underline, "Controlled Substance"@),
                        LegalityKind::Contraband => colored(Color::Highlight, "Prohibited Good"@),
                    } + "\\nIllegal in: "@ + jurisdictions_text(locale, goods[g].jurisdictions@),
                ),
            ) by {
            if p < a.len() {
                assert(all[p] == a[p]);
                let g = choose|g: int|
                    0 <= g < t.len() && a[p] == (
                        strip_at_spec((#[trigger] t[g]).name_key@) + "_desc"@,
                        OpView::Suffix(
                            "\\n\\n"@ + match t[g].kind {
                                LegalityKind::Drug => colored(Color::Underline, "Controlled Substance"@),
                                LegalityKind::Contraband => colored(Color::Highlight, "Prohibited Good"@),
                            } + "\\nIllegal in: "@ + jurisdictions_text(locale, t[g].jurisdictions@),
                        ),
                    );
                assert(goods[g] == t[g]);
            } else {
                assert(all[p] == b[p - a.len()]);
                assert(p - a.len() == 1);
                let g = goods.len() - 1;
                assert(goods[g] == goods.last());
            }
        }
    }
}

/// The `[!]` marker a good's name gets: plain `[!] ` in the simple style,
/// else `[!]` underlined for a drug or highlighted for contraband, then a
/// space.
pub open spec fn expected_marker(display: Seq<char>, kind: LegalityKind) -> Seq<char> {
    if display == "simple"@ {
        "[!] "@
    } else {
        let mark = match kind {
            LegalityKind::Drug => colored(Color::Underline, "[!]"@),
            LegalityKind::Contraband => colored(Color::Highlight, "[!]"@),
        };
        mark + " "@
    }
}

/// Every name patch prefixes a good's (stripped) name key with the marker
/// of its category in the chosen style.
pub proof fn lemma_name_marker(locale: LocaleMap, goods: Seq<LegalityEntry>, display: Seq<char>)
    ensures
        forall|p: int|
            0 <= p < illegal_patches(locale, goods, display).len() && (#[trigger] illegal_patches(
                locale,
                goods,
                display,
            )[p]).1 is Prefix ==> exists|g: int|
                0 <= g < goods.len() && illegal_patches(locale, goods, display)[p] == (
                    strip_at_spec((#[trigger] goods[g]).name_key@),
                    OpView::Prefix(expected_marker(display, goods[g].kind)),
                ),
    decreases goods.len(),
{
    if goods.len() > 0 {
        let t = goods.drop_last();
        lemma_name_marker(locale, t, display);
        let a = illegal_patches(locale, t, display);
        let b = good_patches(locale, goods.last(), display);
        let all = illegal_patches(locale, goods, display);
        assert(all == a + b);
        assert forall|p: int| 0 <= p < all.len() && (#[trigger] all[p]).1 is Prefix implies exists|g: int|
            0 <= g < goods.len() && all[p] == (
                strip_at_spec((#[trigger] goods[g]).name_key@),
                OpView::Prefix(expected_marker(display, goods[g].kind)),
            ) by {
            if p < a.len() {
                assert(all[p] == a[p]);
                let g = choose|g: int|
                    0 <= g < t.len() && a[p] == (
                        strip_at_spec((#[trigger] t[g]).name_key@),
                        OpView::Prefix(expected_marker(display, t[g].kind)),
                    );
                assert(goods[g] == t[g]);
            } else {
                assert(all[p] == b[p - a.len()]);
                assert(p - a.len() == 0);
                let g = goods.len() - 1;
                assert(goods[g] == goods.last());
            }
        }
    }
}

fn jurisdiction_name(locale: &LocaleMap, j: &JurisdictionRef) -> (r: String)
    requires
        locale.entries.wf(),
    ensures
        r@ == jurisdiction_label(*locale, *j),
{
    match &j.name_key {
        Some(k) => match locale.resolve(k.as_str()) {
            Some(n) => if n.as_str().is_empty() {
                j.record_name.clone()
            } else {
                n.clone()
            },
            None => j.record_name.clone(),
        },
        None => j.record_name.clone(),
    }
}

fn jurisdictions_line(locale: &LocaleMap, js: &Vec<JurisdictionRef>) -> (r: String)
    requires
        locale.entries.wf(),
    ensures
        r@ == jurisdictions_text(*locale, js@),
{
    if js.len() == 0 {
        return "All jurisdictions".to_owned();
    }
    let mut names: Vec<String> = Vec::new();
    let mut i: usize = 0;
    while i < js.len()
        invariant
            locale.entries.wf(),
            i <= js@.len(),
            names@.len() == i,
            forall|t: int| 0 <= t < i ==> (#[trigger] names@[t])@ == jurisdiction_label(*locale, js@[t]),
        decreases js@.len() - i,
    {
        names.push(jurisdiction_name(locale, &js[i]));
        i = i + 1;
    }
    assert(texts_of(names@) =~= js@.map_values(|j: JurisdictionRef| jurisdiction_label(*locale, j)));
    join_strings(&names, ", ")
}

fn desc_is_usable(locale: &LocaleMap, desc_key: &str) -> (b: bool)
    requires
        locale.entries.wf(),
    ensures
        b == desc_usable(*locale, desc_key@),
{
    match locale.resolve(desc_key) {
        Some(v) => !v.as_str().is_empty() && !str_contains(v.as_str(), "LOC_EMPTY"),
        None => false,
    }
}

/// Mark illegal commodities with a `[!]` prefix and list where they're
/// outlawed.
pub struct IllegalGoods;

impl IllegalGoods {
    /// The op-set for the given cooked data and display style.
    pub fn legality_ops(cooked: &CookedData, display: &str) -> (r: OpSet)
        requires
            cooked.locale.entries.wf(),
        ensures
            r.renames@.len() == 0,
            patches_view(r.patches@) == illegal_patches(cooked.locale, cooked.legality@, display@),
    {
        let mut patches: Vec<(String, PatchOp)> = Vec::new();
        let mut i: usize = 0;
        while i < cooked.legality.len()
            invariant
                cooked.locale.entries.wf(),
                i <= cooked.legality@.len(),
                patches_view(patches@) == illegal_patches(
                    cooked.locale,
                    cooked.legality@.take(i as int),
                    display@,
                ),
            decreases cooked.legality@.len() - i,
        {
            let good = &cooked.legality[i];
            let ghost before = patches_view(patches@);
            assert(cooked.legality@.take(i + 1).drop_last() =~= cooked.legality@.take(i as int));
            let key = strip_at(good.name_key.as_str());
            let named = match cooked.locale.resolve(key.as_str()) {
                Some(v) => !v.as_str().is_empty(),
                None => false,
            };
            if named {
                let prefix = if str_eq(display, "simple") {
                    "[!] ".to_owned()
                } else {
                    let mut p = apply_color(category_color(good.kind), "[!]");
                    p.append(" ");
                    p
                };
                patches.push((key.clone(), PatchOp::Prefix(prefix)));
                let mut desc_key = key.clone();
                desc_key.append("_desc");
                if desc_is_usable(&cooked.locale, desc_key.as_str()) {
                    let label = match good.kind {
                        LegalityKind::Drug => "Controlled Substance",
                        LegalityKind::Contraband => "Prohibited Good",
                    };
                    let mut suffix = "\\n\\n".to_owned();
                    suffix.append(apply_color(category_color(good.kind), label).as_str());
                    suffix.append("\\nIllegal in: ");
                    suffix.append(jurisdictions_line(&cooked.locale, &good.jurisdictions).as_str());
                    patches.push((desc_key, PatchOp::Suffix(suffix)));
                }
            }
            assert(patches_view(patches@) =~= before + good_patches(cooked.locale, *good, display@));
            i = i + 1;
        }
        assert(cooked.legality@.take(cooked.legality@.len() as int) =~= cooked.legality@);
        OpSet { renames: Vec::new(), patches }
    }
}

impl crate::Patcher for IllegalGoods {
    open spec fn spec_derive_ok(&self, cooked: CookedData, config: PatcherConfig, r: Result<OpSetView, Seq<char>>) -> bool {
        match r {
            Ok(v) => exists|ops: OpSet| #[trigger] ops_view(ops) == v && ops.renames@.len() == 0 && patches_view(ops.patches@) == illegal_patches(
                cooked.locale,
                cooked.legality@,
                option_str(config, "display"@, "color_coded"@),
            ),
            Err(_) => false,
        }
    }

    open spec fn spec_id(&self) -> Seq<char> {
        "illegal_goods"@
    }

    open spec fn spec_default_enabled(&self) -> bool {
        true
    }

    open spec fn spec_priority(&self) -> u32 {
        100
    }

    open spec fn spec_name(&self) -> Seq<char> {
        "Illegal Goods Markers"@
    }

    open spec fn spec_description(&self) -> Seq<char> {
        "Mark illegal commodities (drugs, contraband) with a [!] prefix and list where they're outlawed"@
    }

    open spec fn spec_uses_replace_ops(&self) -> bool {
        false
    }

    open spec fn spec_options(&self) -> Seq<crate::ops::OptionText> {
        seq![
            (
                "display"@,
                "Display style"@,
                "How to mark illegal goods in the commodity name"@,
                "color_coded"@,
                Some(
                    seq![
                        ("color_coded"@, "Emphasised (distinct style for drugs vs contraband)"@),
                        ("simple"@, "Plain [!] prefix"@),
                    ],
                ),
            ),
        ]
    }

    fn id(&self) -> (r: &str) {
        "illegal_goods"
    }

    fn name(&self) -> (r: &str)
        ensures
            r@ == "Illegal Goods Markers"@,
    {
        "Illegal Goods Markers"
    }

    fn description(&self) -> (r: &str)
        ensures
            r@ == "Mark illegal commodities (drugs, contraband) with a [!] prefix and list where they're outlawed"@,
    {
        "Mark illegal commodities (drugs, contraband) with a [!] prefix and list where they're outlawed"
    }

    fn default_enabled(&self) -> (b: bool) {
        true
    }

    fn uses_replace_ops(&self) -> (b: bool)
        ensures
            b == false,
    {
        false
    }

    fn priority(&self) -> (p: u32) {
        100
    }

    /// One choice option, `display`: `color_coded` (default) or `simple`.
    fn options(&self) -> (r: Vec<PatcherOption>)
        ensures
            r@.len() == 1,
            r@[0].id@ == "display"@,
            r@[0].default@ == "color_coded"@,
            r@[0].kind matches OptionKind::Choice { choices } && choices@.map_values(|c: ChoiceOption| c.value@)
                == seq!["color_coded"@, "simple"@],
    {
        let mut choices: Vec<ChoiceOption> = Vec::new();
        choices.push(
            ChoiceOption {
                value: "color_coded".to_owned(),
                label: "Emphasised (distinct style for drugs vs contraband)".to_owned(),
            },
        );
        choices.push(
            ChoiceOption { value: "simple".to_owned(), label: "Plain [!] prefix".to_owned() },
        );
        assert(choices@.map_values(|c: ChoiceOption| c.value@) =~= seq!["color_coded"@, "simple"@]);
        let ghost cv = choices@;
        assert(cv.map_values(|c: ChoiceOption| (c.value@, c.label@)) =~= seq![
            ("color_coded"@, "Emphasised (distinct style for drugs vs contraband)"@),
            ("simple"@, "Plain [!] prefix"@),
        ]);
        let mut opts: Vec<PatcherOption> = Vec::new();
        opts.push(
            PatcherOption {
                id: "display".to_owned(),
                label: "Display style".to_owned(),
                description: "How to mark illegal goods in the commodity name".to_owned(),
                kind: OptionKind::Choice { choices },
                default: "color_coded".to_owned(),
            },
        );
        assert(crate::ops::options_text(opts@) =~= self.spec_options());
        opts
    }

    fn derive(&self, cooked: &CookedData, config: &PatcherConfig) -> (r: Result<OpSet, String>)
        ensures
            r matches Ok(ops) && ops.renames@.len() == 0 && patches_view(ops.patches@) == illegal_patches(
                cooked.locale,
                cooked.legality@,
                option_str(*config, "display"@, "color_coded"@),
            ),
    {
        let display = config.get_str("display", "color_coded");
        Ok(IllegalGoods::legality_ops(cooked, display))
    }
}

} // verus!
