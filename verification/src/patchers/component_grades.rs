//! Component grades — label ship components with class + grade
//! (`"Bracer Military C"` / `"M1C Bracer"` / `"MIL1C Bracer"`).
//!
//! Grade/size/type come straight off the cooked item index; the class
//! parses out of the description text.

use vstd::prelude::*;

use crate::cooked::{CookedData, ItemRecord, LocaleMap, resolved_text, strip_at, strip_at_spec};
use crate::ops::{ChoiceOption, OpSet, OptionKind, PatchOp, PatcherConfig, PatcherOption, option_str, OpSetView, ops_view};
use crate::patchers::{replace_patches, replace_patches_of};
use crate::strmap::{StrMap, lookup_text};
use crate::text::{
    chars_of, dec_int, find_seq_from, find_seq_spec, has_prefix, push_i64, str_eq,
    string_of_range, strip_prefix_str, trim_spec, trim_str,
};

verus! {

/// The two characters `\` `n` that separate description lines.
pub open spec fn escaped_newline() -> Seq<char> {
    seq!['\\', 'n']
}

/// The label that introduces a component's class on its own line.
pub open spec fn class_label() -> Seq<char> {
    seq!['C', 'l', 'a', 's', 's', ':', ' ']
}

/// The class named on the first `\n`-separated line of `s` that reads
/// `Class: …` (both the line and the name trimmed).
pub open spec fn class_of(s: Seq<char>) -> Option<Seq<char>>
    decreases s.len(),
{
    let found = find_seq_spec(s, escaped_newline());
    let seg = match found {
        Some(i) => s.take(i),
        None => s,
    };
    let t = trim_spec(seg);
    if has_prefix(t, class_label()) {
        Some(trim_spec(t.skip(7)))
    } else {
        match found {
            Some(i) => if 0 <= i && i + 2 <= s.len() {
                class_of(s.skip(i + 2))
            } else {
                None
            },
            None => None,
        }
    }
}

/// The letter of a numeric grade.
pub open spec fn grade_letter_spec(grade: i32) -> Seq<char> {
    if grade == 1 {
        "A"@
    } else if grade == 2 {
        "B"@
    } else if grade == 3 {
        "C"@
    } else {
        "D"@
    }
}

/// Item types that get grade/class labels.
pub open spec fn is_component_type_spec(t: Seq<char>) -> bool {
    t == "Cooler"@ || t == "PowerPlant"@ || t == "Radar"@ || t == "Shield"@ || t == "QuantumDrive"@
}

/// One-letter class code of the compact format.
pub open spec fn class_code(class: Seq<char>) -> Seq<char> {
    if class == "Military"@ {
        "M"@
    } else if class == "Civilian"@ {
        "C"@
    } else if class == "Industrial"@ {
        "I"@
    } else if class == "Stealth"@ {
        "S"@
    } else if class == "Competition"@ {
        "X"@
    } else {
        "?"@
    }
}

/// Three-letter class abbreviation of the short format.
pub open spec fn class_abbr(class: Seq<char>) -> Seq<char> {
    if class == "Military"@ {
        "MIL"@
    } else if class == "Civilian"@ {
        "CIV"@
    } else if class == "Industrial"@ {
        "IND"@
    } else if class == "Stealth"@ {
        "STL"@
    } else if class == "Competition"@ {
        "CMP"@
    } else {
        "???"@
    }
}

/// The class an item's description names, `"Unknown"` when none.
pub open spec fn item_class(locale: LocaleMap, item: ItemRecord) -> Seq<char> {
    match item.desc_key {
        Some(dk) => match lookup_text(locale.entries@, strip_at_spec(dk@)) {
            Some(t) => match class_of(t) {
                Some(c) => c,
                None => "Unknown"@,
            },
            None => "Unknown"@,
        },
        None => "Unknown"@,
    }
}

/// The new display name in the chosen format.
pub open spec fn grade_label(
    format: Seq<char>,
    display: Seq<char>,
    class: Seq<char>,
    size: i32,
    grade: i32,
) -> Seq<char> {
    if format == "compact_prefix"@ {
        class_code(class) + dec_int(size as int) + grade_letter_spec(grade) + " "@ + display
    } else if format == "short_prefix"@ {
        class_abbr(class) + dec_int(size as int) + grade_letter_spec(grade) + " "@ + display
    } else {
        display + " "@ + class + " "@ + grade_letter_spec(grade)
    }
}

/// The `(key, new name)` one item contributes, if any: component types
/// whose (stripped) name key has non-empty text in the base INI.
pub open spec fn grade_patch(locale: LocaleMap, item: ItemRecord, format: Seq<char>) -> Option<
    (Seq<char>, Seq<char>),
> {
    if !is_component_type_spec(item.item_type@) {
        None
    } else {
        match item.name_key {
            None => None,
            Some(nk) => {
                let key = strip_at_spec(nk@);
                match resolved_text(locale, key) {
                    None => None,
                    Some(d) => Some(
                        (key, grade_label(format, d, item_class(locale, item), item.size, item.grade)),
                    ),
                }
            },
        }
    }
}

/// Key → new name over the items in order; a later item sharing a key wins.
pub open spec fn grade_map(locale: LocaleMap, items: Seq<ItemRecord>, format: Seq<char>) -> Map<
    Seq<char>,
    Seq<char>,
>
    decreases items.len(),
{
    if items.len() == 0 {
        Map::empty()
    } else {
        let m = grade_map(locale, items.drop_last(), format);
        match grade_patch(locale, items.last(), format) {
            Some(p) => m.insert(p.0, p.1),
            None => m,
        }
    }
}

/// The letter a grade reads as: `A` for 1, `B` for 2, `C` for 3, `D`
/// for any other.
pub open spec fn letter_of_grade(grade: i32) -> char {
    if grade == 1 {
        'A'
    } else if grade == 2 {
        'B'
    } else if grade == 3 {
        'C'
    } else {
        'D'
    }
}

/// In the default format a component's new name is its display name, a
/// space, its class, a space, then its grade letter (`Bracer`, `Military`
/// and grade 3 give `Bracer Military C`).
pub proof fn lemma_default_label(format: Seq<char>, display: Seq<char>, class: Seq<char>, size: i32, grade: i32)
    requires
        format != "compact_prefix"@,
        format != "short_prefix"@,
    ensures
        grade_label(format, display, class, size, grade) == display + seq![' '] + class + seq![' '] + seq![
            letter_of_grade(grade),
        ],
{
    reveal_strlit(" ");
    reveal_strlit("A");
    reveal_strlit("B");
    reveal_strlit("C");
    reveal_strlit("D");
    assert(grade_letter_spec(grade) =~= seq![letter_of_grade(grade)]);
    assert(" "@ =~= seq![' ']);
}

/// The one-letter code and three-letter abbreviation of a class name:
/// Military `M`/`MIL`, Civilian `C`/`CIV`, Industrial `I`/`IND`, Stealth
/// `S`/`STL`, Competition `X`/`CMP`, anything else `?`/`???`.
pub open spec fn class_codes(class: Seq<char>) -> (Seq<char>, Seq<char>) {
    if class == seq!['M', 'i', 'l', 'i', 't', 'a', 'r', 'y'] {
        (seq!['M'], seq!['M', 'I', 'L'])
    } else if class == seq!['C', 'i', 'v', 'i', 'l', 'i', 'a', 'n'] {
        (seq!['C'], seq!['C', 'I', 'V'])
    } else if class == seq!['I', 'n', 'd', 'u', 's', 't', 'r', 'i', 'a', 'l'] {
        (seq!['I'], seq!['I', 'N', 'D'])
    } else if class == seq!['S', 't', 'e', 'a', 'l', 't', 'h'] {
        (seq!['S'], seq!['S', 'T', 'L'])
    } else if class == seq!['C', 'o', 'm', 'p', 'e', 't', 'i', 't', 'i', 'o', 'n'] {
        (seq!['X'], seq!['C', 'M', 'P'])
    } else {
        (seq!['?'], seq!['?', '?', '?'])
    }
}

/// The prefix formats put the class code (`compact_prefix`: one letter,
/// `short_prefix`: three), the size, the grade letter and a space before
/// the display name (`Military`, size 1, grade 3: `M1C Bracer` and
/// `MIL1C Bracer`).
pub proof fn lemma_prefix_labels(display: Seq<char>, class: Seq<char>, size: i32, grade: i32)
    ensures
        grade_label("compact_prefix"@, display, class, size, grade) == class_codes(class).0 + dec_int(size as int)
            + seq![letter_of_grade(grade)] + seq![' '] + display,
        grade_label("short_prefix"@, display, class, size, grade) == class_codes(class).1 + dec_int(size as int)
            + seq![letter_of_grade(grade)] + seq![' '] + display,
{
    reveal_strlit(" ");
    reveal_strlit("A");
    reveal_strlit("B");
    reveal_strlit("C");
    reveal_strlit("D");
    reveal_strlit("compact_prefix");
    reveal_strlit("short_prefix");
    reveal_strlit("Military");
    reveal_strlit("Civilian");
    reveal_strlit("Industrial");
    reveal_strlit("Stealth");
    reveal_strlit("Competition");
    reveal_strlit("M");
    reveal_strlit("I");
    reveal_strlit("S");
    reveal_strlit("X");
    reveal_strlit("?");
    reveal_strlit("MIL");
    reveal_strlit("CIV");
    reveal_strlit("IND");
    reveal_strlit("STL");
    reveal_strlit("CMP");
    reveal_strlit("???");
    assert(grade_letter_spec(grade) =~= seq![letter_of_grade(grade)]);
    assert("compact_prefix"@ != "short_prefix"@) by {
        assert("compact_prefix"@[0] != "short_prefix"@[0]);
    }
    assert("Military"@ =~= seq!['M', 'i', 'l', 'i', 't', 'a', 'r', 'y']);
    assert("Civilian"@ =~= seq!['C', 'i', 'v', 'i', 'l', 'i', 'a', 'n']);
    assert("Industrial"@ =~= seq!['I', 'n', 'd', 'u', 's', 't', 'r', 'i', 'a', 'l']);
    assert("Stealth"@ =~= seq!['S', 't', 'e', 'a', 'l', 't', 'h']);
    assert("Competition"@ =~= seq!['C', 'o', 'm', 'p', 'e', 't', 'i', 't', 'i', 'o', 'n']);
    assert("MIL"@ =~= seq!['M', 'I', 'L']);
    assert("CIV"@ =~= seq!['C', 'I', 'V']);
    assert("IND"@ =~= seq!['I', 'N', 'D']);
    assert("STL"@ =~= seq!['S', 'T', 'L']);
    assert("CMP"@ =~= seq!['C', 'M', 'P']);
    assert("???"@ =~= seq!['?', '?', '?']);
    assert("M"@ =~= seq!['M']);
    assert("C"@ =~= seq!['C']);
    assert("I"@ =~= seq!['I']);
    assert("S"@ =~= seq!['S']);
    assert("X"@ =~= seq!['X']);
    assert("?"@ =~= seq!['?']);
    assert(class_code(class) =~= class_codes(class).0);
    assert(class_abbr(class) =~= class_codes(class).1);
}

/// `item` is a component whose name key is `k`, and `v` is `k`'s display
/// text, a space, the item's class, a space and its grade letter.
pub open spec fn default_name_of(locale: LocaleMap, item: ItemRecord, k: Seq<char>, v: Seq<char>) -> bool {
    &&& is_component_type_spec(item.item_type@)
    &&& item.name_key is Some
    &&& strip_at_spec(item.name_key->0@) == k
    &&& resolved_text(locale, k) is Some
    &&& v == resolved_text(locale, k)->0 + seq![' '] + item_class(locale, item) + seq![' '] + seq![
        letter_of_grade(item.grade),
    ]
}

/// In the default format every renamed key carries, for some component
/// item with that name key, the key's display text, a space, the item's
/// class, a space and the item's grade letter.
pub proof fn lemma_default_names(locale: LocaleMap, items: Seq<ItemRecord>, format: Seq<char>)
    requires
        format != "compact_prefix"@,
        format != "short_prefix"@,
    ensures
        forall|k: Seq<char>|
            #[trigger] grade_map(locale, items, format).dom().contains(k) ==> exists|i: int|
                0 <= i < items.len() && default_name_of(locale, #[trigger] items[i], k, grade_map(locale, items, format)[k]),
    decreases items.len(),
{
    if items.len() > 0 {
        let t = items.drop_last();
        lemma_default_names(locale, t, format);
        let m = grade_map(locale, items, format);
        let mt = grade_map(locale, t, format);
        let n = items.len() - 1;
        assert(items.last() == items[n]);
        assert forall|k: Seq<char>| #[trigger] m.dom().contains(k) implies exists|i: int|
            0 <= i < items.len() && default_name_of(locale, #[trigger] items[i], k, m[k]) by {
            let last_hit = match grade_patch(locale, items[n], format) {
                Some(pk) => pk.0 == k,
                None => false,
            };
            if last_hit {
                let d = resolved_text(locale, k)->0;
                lemma_default_label(format, d, item_class(locale, items[n]), items[n].size, items[n].grade);
                assert(default_name_of(locale, items[n], k, m[k]));
            } else {
                assert(mt.dom().contains(k));
                assert(m[k] == mt[k]);
                let i = choose|i: int| 0 <= i < t.len() && default_name_of(locale, #[trigger] t[i], k, mt[k]);
                assert(items[i] == t[i]);
            }
        }
    }
}

/// Map numeric grade (from the game data) to its letter.
pub fn grade_letter(grade: i32) -> (r: &'static str)
    ensures
        r@ == grade_letter_spec(grade),
{
    if grade == 1 {
        "A"
    } else if grade == 2 {
        "B"
    } else if grade == 3 {
        "C"
    } else {
        "D"
    }
}

/// Parse the class from the item description (`"Class: Military"` on one
/// of its `\n`-separated lines).
pub fn parse_class(description: &str) -> (r: Option<String>)
    ensures
        match r {
            Some(c) => class_of(description@) == Some(c@),
            None => class_of(description@) is None,
        },
{
    proof {
        reveal_strlit("Class: ");
    }
    let v = chars_of(description);
    let mut sep: Vec<char> = Vec::new();
    sep.push('\\');
    sep.push('n');
    assert(sep@ =~= escaped_newline());
    assert("Class: "@ =~= class_label());
    let mut lo: usize = 0;
    let n = v.len();
    assert(v@.skip(0) =~= v@);
    loop
        invariant
            n == v@.len(),
            v@ == description@,
            sep@ == escaped_newline(),
            "Class: "@ == class_label(),
            lo <= v@.len(),
            class_of(v@) == class_of(v@.skip(lo as int)),
        decreases v@.len() - lo,
    {
        let ghost s = v@.skip(lo as int);
        let found = find_seq_from(&v, lo, &sep);
        proof {
            if let Some(i) = found {
                assert(crate::text::is_first_at(s, sep@, i as int));
            }
        }
        let hi = match found {
            Some(i) => lo + i,
            None => v.len(),
        };
        let seg = string_of_range(&v, lo, hi);
        assert(seg@ =~= match find_seq_spec(s, escaped_newline()) {
            Some(i) => s.take(i),
            None => s,
        });
        let t = trim_str(seg.as_str());
        match strip_prefix_str(t.as_str(), "Class: ") {
            Some(rest) => {
                return Some(trim_str(rest.as_str()));
            },
            None => {},
        }
        match found {
            Some(i) => {
                assert(s.skip(i + 2) =~= v@.skip(lo + i + 2));
                lo = lo + i + 2;
            },
            None => {
                return None;
            },
        }
    }
}

/// Whether `t` names a component item type.
pub fn is_component_type(t: &str) -> (b: bool)
    ensures
        b == is_component_type_spec(t@),
{
    str_eq(t, "Cooler") || str_eq(t, "PowerPlant") || str_eq(t, "Radar") || str_eq(t, "Shield")
        || str_eq(t, "QuantumDrive")
}

fn class_code_of(class: &str) -> (r: &'static str)
    ensures
        r@ == class_code(class@),
{
    if str_eq(class, "Military") {
        "M"
    } else if str_eq(class, "Civilian") {
        "C"
    } else if str_eq(class, "Industrial") {
        "I"
    } else if str_eq(class, "Stealth") {
        "S"
    } else if str_eq(class, "Competition") {
        "X"
    } else {
        "?"
    }
}

fn class_abbr_of(class: &str) -> (r: &'static str)
    ensures
        r@ == class_abbr(class@),
{
    if str_eq(class, "Military") {
        "MIL"
    } else if str_eq(class, "Civilian") {
        "CIV"
    } else if str_eq(class, "Industrial") {
        "IND"
    } else if str_eq(class, "Stealth") {
        "STL"
    } else if str_eq(class, "Competition") {
        "CMP"
    } else {
        "???"
    }
}

/// Render the new display name in the chosen format.
fn render_grade_label(format: &str, display: &str, class: &str, size: i32, grade: i32) -> (r: String)
    ensures
        r@ == grade_label(format@, display@, class@, size, grade),
{
    let mut out = String::new();
    if str_eq(format, "compact_prefix") || str_eq(format, "short_prefix") {
        if str_eq(format, "compact_prefix") {
            out.append(class_code_of(class));
        } else {
            out.append(class_abbr_of(class));
        }
        push_i64(&mut out, size as i64);
        out.append(grade_letter(grade));
        out.append(" ");
        out.append(display);
    } else {
        out.append(display);
        out.append(" ");
        out.append(class);
        out.append(" ");
        out.append(grade_letter(grade));
    }
    out
}

/// The class an item's description names, `"Unknown"` when none.
fn class_for(locale: &LocaleMap, item: &ItemRecord) -> (r: String)
    requires
        locale.entries.wf(),
    ensures
        r@ == item_class(*locale, *item),
{
    match &item.desc_key {
        Some(dk) => match locale.resolve(dk.as_str()) {
            Some(t) => match parse_class(t.as_str()) {
                Some(c) => c,
                None => "Unknown".to_owned(),
            },
            None => "Unknown".to_owned(),
        },
        None => "Unknown".to_owned(),
    }
}

/// The `(key, new name)` one item contributes, if any.
fn grade_patch_of(locale: &LocaleMap, item: &ItemRecord, format: &str) -> (r: Option<(String, String)>)
    requires
        locale.entries.wf(),
    ensures
        match r {
            Some(p) => grade_patch(*locale, *item, format@) == Some((p.0@, p.1@)),
            None => grade_patch(*locale, *item, format@) is None,
        },
{
    if !is_component_type(item.item_type.as_str()) {
        return None;
    }
    let name_key = match &item.name_key {
        Some(k) => k,
        None => {
            return None;
        },
    };
    let key = strip_at(name_key.as_str());
    let display = match locale.resolve(key.as_str()) {
        Some(d) => d,
        None => {
            return None;
        },
    };
    if display.as_str().is_empty() {
        return None;
    }
    let class = class_for(locale, item);
    let label = render_grade_label(format, display.as_str(), class.as_str(), item.size, item.grade);
    Some((key, label))
}

/// Labels ship components with class and grade.
pub struct ComponentGrades;

impl ComponentGrades {
    /// The op-set for the given cooked data and chosen name format: one
    /// `Replace` per distinct name key, in key order.
    pub fn grade_ops(cooked: &CookedData, format: &str) -> (r: OpSet)
        requires
            cooked.locale.entries.wf(),
        ensures
            r.renames@.len() == 0,
            match cooked.items {
                Some(items) => replace_patches_of(r.patches@, grade_map(cooked.locale, items@, format@)),
                None => r.patches@.len() == 0,
            },
    {
        let items = match &cooked.items {
            Some(items) => items,
            None => {
                return OpSet::empty();
            },
        };
        let mut by_key: StrMap<String> = StrMap::new();
        let mut i: usize = 0;
        while i < items.len()
            invariant
                cooked.locale.entries.wf(),
                cooked.items == Some(*items),
                by_key.wf(),
                i <= items@.len(),
                forall|k: Seq<char>|
                    #[trigger] lookup_text(by_key@, k) == grade_map(
                        cooked.locale,
                        items@.take(i as int),
                        format@,
                    ).get(k),
            decreases items@.len() - i,
        {
            let ghost prev = by_key@;
            assert(items@.take(i + 1).drop_last() =~= items@.take(i as int));
            match grade_patch_of(&cooked.locale, &items[i], format) {
                Some(p) => {
                    by_key.insert(p.0.as_str(), p.1);
                    proof {
                        assert forall|k: Seq<char>| #[trigger]
                            lookup_text(by_key@, k) == grade_map(
                                cooked.locale,
                                items@.take(i + 1),
                                format@,
                            ).get(k) by {
                            if k != p.0@ {
                                assert(lookup_text(by_key@, k) == lookup_text(prev, k));
                            }
                        }
                    }
                },
                None => {},
            }
            i = i + 1;
        }
        assert(items@.take(items@.len() as int) =~= items@);
        OpSet { renames: Vec::new(), patches: replace_patches(&by_key) }
    }
}

impl crate::Patcher for ComponentGrades {
    open spec fn spec_derive_ok(&self, cooked: CookedData, config: PatcherConfig, r: Result<OpSetView, Seq<char>>) -> bool {
        match r {
            Ok(v) => exists|ops: OpSet| #[trigger] ops_view(ops) == v && ops.renames@.len() == 0 && match cooked.items {
                Some(items) => replace_patches_of(
                    ops.patches@,
                    grade_map(cooked.locale, items@, option_str(config, "format"@, "name_class_grade"@)),
                ),
                None => ops.patches@.len() == 0,
            },
            Err(_) => false,
        }
    }

    open spec fn spec_id(&self) -> Seq<char> {
        "component_grades"@
    }

    open spec fn spec_default_enabled(&self) -> bool {
        true
    }

    open spec fn spec_priority(&self) -> u32 {
        100
    }

    open spec fn spec_name(&self) -> Seq<char> {
        "Component Grades"@
    }

    open spec fn spec_description(&self) -> Seq<char> {
        "Label ship components with class and grade (e.g. 'Bracer Military C')"@
    }

    open spec fn spec_uses_replace_ops(&self) -> bool {
        true
    }

    open spec fn spec_options(&self) -> Seq<crate::ops::OptionText> {
        seq![
            (
                "format"@,
                "Name format"@,
                "How to format the component name"@,
                "name_class_grade"@,
                Some(
                    seq![
                        ("name_class_grade"@, "Name Class Grade (Bracer Military C)"@),
                        ("compact_prefix"@, "Compact prefix (M1C Bracer)"@),
                        ("short_prefix"@, "Short prefix (MIL1C Bracer)"@),
                    ],
                ),
            ),
        ]
    }

    fn id(&self) -> (r: &str) {
        "component_grades"
    }

    fn name(&self) -> (r: &str)
        ensures
            r@ == "Component Grades"@,
    {
        "Component Grades"
    }

    fn description(&self) -> (r: &str)
        ensures
            r@ == "Label ship components with class and grade (e.g. 'Bracer Military C')"@,
    {
        "Label ship components with class and grade (e.g. 'Bracer Military C')"
    }

    fn default_enabled(&self) -> (b: bool) {
        true
    }

    fn uses_replace_ops(&self) -> (b: bool)
        ensures
            b == true,
    {
        true
    }

    fn priority(&self) -> (p: u32) {
        100
    }

    /// One choice option, `format`: `name_class_grade` (default),
    /// `compact_prefix` or `short_prefix`.
    fn options(&self) -> (r: Vec<PatcherOption>)
        ensures
            r@.len() == 1,
            r@[0].id@ == "format"@,
            r@[0].default@ == "name_class_grade"@,
            r@[0].kind matches OptionKind::Choice { choices } && choices@.map_values(|c: ChoiceOption| c.value@)
                == seq!["name_class_grade"@, "compact_prefix"@, "short_prefix"@],
    {
        let mut choices: Vec<ChoiceOption> = Vec::new();
        choices.push(
            ChoiceOption {
                value: "name_class_grade".to_owned(),
                label: "Name Class Grade (Bracer Military C)".to_owned(),
            },
        );
        choices.push(
            ChoiceOption {
                value: "compact_prefix".to_owned(),
                label: "Compact prefix (M1C Bracer)".to_owned(),
            },
        );
        choices.push(
            ChoiceOption {
                value: "short_prefix".to_owned(),
                label: "Short prefix (MIL1C Bracer)".to_owned(),
            },
        );
        assert(choices@.map_values(|c: ChoiceOption| c.value@) =~= seq![
                "name_class_grade"@,
                "compact_prefix"@,
                "short_prefix"@,
            ]);
        let ghost cv = choices@;
        assert(cv.map_values(|c: ChoiceOption| (c.value@, c.label@)) =~= seq![
            ("name_class_grade"@, "Name Class Grade (Bracer Military C)"@),
            ("compact_prefix"@, "Compact prefix (M1C Bracer)"@),
            ("short_prefix"@, "Short prefix (MIL1C Bracer)"@),
        ]);
        let mut opts: Vec<PatcherOption> = Vec::new();
        opts.push(
            PatcherOption {
                id: "format".to_owned(),
                label: "Name format".to_owned(),
                description: "How to format the component name".to_owned(),
                kind: OptionKind::Choice { choices },
                default: "name_class_grade".to_owned(),
            },
        );
        assert(crate::ops::options_text(opts@) =~= self.spec_options());
        opts
    }

    fn derive(&self, cooked: &CookedData, config: &PatcherConfig) -> (r: Result<OpSet, String>)
        ensures
            r matches Ok(ops) && ops.renames@.len() == 0 && match cooked.items {
                Some(items) => replace_patches_of(
                    ops.patches@,
                    grade_map(
                        cooked.locale,
                        items@,
                        option_str(*config, "format"@, "name_class_grade"@),
                    ),
                ),
                None => ops.patches@.len() == 0,
            },
    {
        let format = config.get_str("format", "name_class_grade");
        Ok(ComponentGrades::grade_ops(cooked, format))
    }
}

} // verus!
