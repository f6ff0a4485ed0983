//! Mission enhancer — title tags and description blocks for the contracts
//! panel: the option set and the text-shaping rules its renderer uses
//! (region lines, encounter rendering, headings and ship pools, identifier
//! prettifying, debug-name hints, crimestat tags), the mission-info lines
//! (reputation, scrip, payout) and the lines that tell a pool's variants
//! apart.

use vstd::prelude::*;

use crate::catalog::CrimestatRisk;
use crate::patchers::mission_titles::{BlueprintState, TriState};
use crate::queries::opt_view;
use crate::format::{Color, apply_color, bracket, colored};
use crate::ops::{ChoiceOption, OptionKind, PatcherOption};
use crate::strmap::StrMap;
use crate::text::{
    chars_of, dec_int, is_ws, join_strings, join_with, push_i64, push_u64, str_eq, texts_of,
};

verus! {

// ── Options ─────────────────────────────────────────────────────────────────

/// Enrich mission titles and descriptions with blueprint rewards,
/// cooldowns, and more.
pub struct MissionEnhancer;

/// The option ids the mission enhancer exposes, in order.
pub open spec fn mission_option_ids() -> Seq<Seq<char>> {
    seq![
        "blueprint_tag"@,
        "blueprint_list"@,
        "solo_tag"@,
        "once_tag"@,
        "illegal_tag"@,
        "mission_info"@,
        "crimestat_tag"@,
        "ship_encounters"@,
        "cargo_info"@,
        "region_info"@,
    ]
}

/// The options' labels and descriptions, in order.
pub open spec fn mission_option_texts() -> Seq<(Seq<char>, Seq<char>)> {
    seq![
        ("Blueprint Tag"@, "Add [BP] to titles of missions that reward blueprints"@),
        ("Blueprint List"@, "Append blueprint item list to mission descriptions"@),
        ("Solo Tag"@, "Add [Solo] to titles of solo-only missions"@),
        ("One-Time Tag"@, "Add [Uniq] to titles of one-time-only missions"@),
        ("Illegal Tag"@, "Add [Illegal] to titles of illegal missions"@),
        ("Mission Info"@, "Append cooldown, rep reward, scrip, and payout to descriptions"@),
        ("Crimestat Risk Tag"@, "Mark missions where killing friendly NPCs gives crimestat"@),
        ("Ship Encounters"@, "Show hostile and allied ship types in mission descriptions"@),
        ("Cargo Info"@, "Show cargo descriptors (Full/Half/Scraps, HighValue/LowValue) on encounter ships"@),
        ("Region Info"@, "Append the region / body where the mission is offered"@),
    ]
}

fn toggle(id: &str, label: &str, description: &str) -> (r: PatcherOption)
    ensures
        r.id@ == id@,
        r.label@ == label@,
        r.description@ == description@,
        r.kind is Bool,
        r.default@ == "true"@,
{
    PatcherOption {
        id: id.to_owned(),
        label: label.to_owned(),
        description: description.to_owned(),
        kind: OptionKind::Bool,
        default: "true".to_owned(),
    }
}

impl MissionEnhancer {
    pub fn id(&self) -> (r: &'static str)
        ensures
            r@ == "mission_enhancer"@,
    {
        "mission_enhancer"
    }

    pub fn name(&self) -> (r: &'static str)
        ensures
            r@ == "Mission Enhancer"@,
    {
        "Mission Enhancer"
    }

    pub fn description(&self) -> (r: &'static str)
        ensures
            r@ == "Enrich mission titles and descriptions with blueprint rewards, cooldowns, and more"@,
    {
        "Enrich mission titles and descriptions with blueprint rewards, cooldowns, and more"
    }

    /// The options: nine on-by-default toggles and the crimestat tag style
    /// (`off` / `simple` / `colored`, default `colored`).
    pub fn options(&self) -> (r: Vec<PatcherOption>)
        ensures
            r@.map_values(|o: PatcherOption| o.id@) == mission_option_ids(),
            r@.map_values(|o: PatcherOption| (o.label@, o.description@)) == mission_option_texts(),
            forall|i: int| 0 <= i < r@.len() && i != 6 ==> (#[trigger] r@[i]).kind is Bool && r@[i].default@ == "true"@,
            r@[6].default@ == "colored"@,
            r@[6].kind matches OptionKind::Choice { choices } && choices@.map_values(
                |c: ChoiceOption| (c.value@, c.label@),
            ) == seq![
                ("off"@, "Off"@),
                ("simple"@, "Simple [CS Risk]"@),
                ("colored"@, "Emphasised (underline / highlight)"@),
            ],
    {
        let mut v: Vec<PatcherOption> = Vec::new();
        v.push(toggle("blueprint_tag", "Blueprint Tag", "Add [BP] to titles of missions that reward blueprints"));
        v.push(toggle("blueprint_list", "Blueprint List", "Append blueprint item list to mission descriptions"));
        v.push(toggle("solo_tag", "Solo Tag", "Add [Solo] to titles of solo-only missions"));
        v.push(toggle("once_tag", "One-Time Tag", "Add [Uniq] to titles of one-time-only missions"));
        v.push(toggle("illegal_tag", "Illegal Tag", "Add [Illegal] to titles of illegal missions"));
        v.push(
            toggle(
                "mission_info",
                "Mission Info",
                "Append cooldown, rep reward, scrip, and payout to descriptions",
            ),
        );
        let mut choices: Vec<ChoiceOption> = Vec::new();
        choices.push(ChoiceOption { value: "off".to_owned(), label: "Off".to_owned() });
        choices.push(ChoiceOption { value: "simple".to_owned(), label: "Simple [CS Risk]".to_owned() });
        choices.push(
            ChoiceOption { value: "colored".to_owned(), label: "Emphasised (underline / highlight)".to_owned() },
        );
        assert(choices@.map_values(|c: ChoiceOption| (c.value@, c.label@)) =~= seq![
            ("off"@, "Off"@),
            ("simple"@, "Simple [CS Risk]"@),
            ("colored"@, "Emphasised (underline / highlight)"@),
        ]);
        v.push(
            PatcherOption {
                id: "crimestat_tag".to_owned(),
                label: "Crimestat Risk Tag".to_owned(),
                description: "Mark missions where killing friendly NPCs gives crimestat".to_owned(),
                kind: OptionKind::Choice { choices },
                default: "colored".to_owned(),
            },
        );
        v.push(
            toggle(
                "ship_encounters",
                "Ship Encounters",
                "Show hostile and allied ship types in mission descriptions",
            ),
        );
        v.push(
            toggle(
                "cargo_info",
                "Cargo Info",
                "Show cargo descriptors (Full/Half/Scraps, HighValue/LowValue) on encounter ships",
            ),
        );
        v.push(toggle("region_info", "Region Info", "Append the region / body where the mission is offered"));
        assert(v@.map_values(|o: PatcherOption| o.id@) =~= mission_option_ids());
        assert(v@.map_values(|o: PatcherOption| (o.label@, o.description@)) =~= mission_option_texts());
        v
    }
}

// ── Crimestat tags ──────────────────────────────────────────────────────────

/// How the crimestat-risk title tag renders.
#[derive(Debug, Clone, Copy, PartialEq, Eq, Structural)]
pub enum CrimestatTagMode {
    Off,
    Simple,
    Colored,
}

impl CrimestatTagMode {
    /// `off` / `simple`; anything else is `Colored`.
    pub fn from_str(s: &str) -> (r: CrimestatTagMode)
        ensures
            r == if s@ == "off"@ {
                CrimestatTagMode::Off
            } else if s@ == "simple"@ {
                CrimestatTagMode::Simple
            } else {
                CrimestatTagMode::Colored
            },
    {
        if str_eq(s, "off") {
            CrimestatTagMode::Off
        } else if str_eq(s, "simple") {
            CrimestatTagMode::Simple
        } else {
            CrimestatTagMode::Colored
        }
    }
}

/// `[CS Risk]`, highlighted for high risk and underlined for moderate risk
/// in the colored mode, plain otherwise.
pub open spec fn crimestat_tag_text(risk: CrimestatRisk, mode: CrimestatTagMode) -> Seq<char> {
    if mode == CrimestatTagMode::Colored && risk == CrimestatRisk::High {
        colored(Color::Highlight, "["@ + "CS Risk"@ + "]"@)
    } else if mode == CrimestatTagMode::Colored && risk == CrimestatRisk::Moderate {
        colored(Color::Underline, "["@ + "CS Risk"@ + "]"@)
    } else {
        "["@ + "CS Risk"@ + "]"@
    }
}

/// The crimestat-risk tag for a risk level in a tag mode.
pub fn crimestat_tag(risk: CrimestatRisk, mode: CrimestatTagMode) -> (r: String)
    ensures
        r@ == crimestat_tag_text(risk, mode),
{
    let tag = bracket("CS Risk");
    match (mode, risk) {
        (CrimestatTagMode::Colored, CrimestatRisk::High) => apply_color(Color::Highlight, tag.as_str()),
        (CrimestatTagMode::Colored, CrimestatRisk::Moderate) => apply_color(Color::Underline, tag.as_str()),
        _ => tag,
    }
}

// ── Encounters ──────────────────────────────────────────────────────────────

/// `{lo} ship` / `{lo} ships` / `{lo}-{hi} ships`.
pub open spec fn ship_count_text(lo: i32, hi: i32) -> Seq<char> {
    if lo == hi {
        dec_int(lo as int) + if lo == 1 {
            " ship"@
        } else {
            " ships"@
        }
    } else {
        dec_int(lo as int) + "-"@ + dec_int(hi as int) + " ships"@
    }
}

/// `Encounters · 2-4 ships · Hard` — the count when the range's upper end
/// is positive, the combat class when there is one.
pub open spec fn encounter_heading_spec(lo: i32, hi: i32, combat_class: Option<Seq<char>>) -> Seq<char> {
    let with_count = if hi > 0 {
        "Encounters"@ + " · "@ + ship_count_text(lo, hi)
    } else {
        "Encounters"@
    };
    match combat_class {
        Some(c) => with_count + " · "@ + c,
        None => with_count,
    }
}

/// The encounter block heading for a summed spawn range and an optional
/// uniform combat class.
pub fn format_encounter_heading(ship_range: (i32, i32), combat_class: &Option<String>) -> (r: String)
    ensures
        r@ == encounter_heading_spec(
            ship_range.0,
            ship_range.1,
            match combat_class {
                Some(c) => Some(c@),
                None => None,
            },
        ),
{
    let (lo, hi) = ship_range;
    let mut out = "Encounters".to_owned();
    if hi > 0 {
        out.append(" · ");
        push_i64(&mut out, lo as i64);
        if lo == hi {
            if lo == 1 {
                out.append(" ship");
            } else {
                out.append(" ships");
            }
        } else {
            out.append("-");
            push_i64(&mut out, hi as i64);
            out.append(" ships");
        }
    }
    match combat_class {
        Some(c) => {
            out.append(" · ");
            out.append(c.as_str());
        },
        None => {},
    }
    out
}

/// `"3x Cutlass, Sabre"` / `"1-3x Scythe"`; bare `"2 ships"` when the pool
/// is empty. Negative counts read as zero.
pub open spec fn count_and_pool_spec(lo: i32, hi: i32, ships: Seq<Seq<char>>) -> Seq<char> {
    let l = if lo < 0 { 0 } else { lo };
    let h = if hi < 0 { 0 } else { hi };
    let count = if h > l {
        dec_int(l as int) + "-"@ + dec_int(h as int)
    } else {
        dec_int(h as int)
    };
    if ships.len() == 0 {
        count + if h == 1 {
            " ship"@
        } else {
            " ships"@
        }
    } else {
        count + "x "@ + join_with(ships, ", "@)
    }
}

/// A spawn slot's count and ship pool.
pub fn compose_count_and_pool(lo: i32, hi: i32, ships: &Vec<String>) -> (r: String)
    ensures
        r@ == count_and_pool_spec(lo, hi, texts_of(ships@)),
{
    let l = if lo < 0 { 0 } else { lo };
    let h = if hi < 0 { 0 } else { hi };
    let mut out = String::new();
    if h > l {
        push_i64(&mut out, l as i64);
        out.append("-");
        push_i64(&mut out, h as i64);
    } else {
        push_i64(&mut out, h as i64);
    }
    if ships.len() == 0 {
        if h == 1 {
            out.append(" ship");
        } else {
            out.append(" ships");
        }
    } else {
        out.append("x ");
        out.append(join_strings(ships, ", ").as_str());
    }
    out
}


// ── Ship pools ──────────────────────────────────────────────────────────────

/// Number of leading characters that are not whitespace.
pub open spec fn word_len(s: Seq<char>) -> nat
    decreases s.len(),
{
    if s.len() > 0 && !is_ws(s[0]) {
        1 + word_len(s.drop_first())
    } else {
        0
    }
}

/// The first whitespace-separated word of `s`; `s` itself when it has none.
pub open spec fn first_word(s: Seq<char>) -> Seq<char> {
    let t = crate::text::trim_start_spec(s);
    if t.len() == 0 {
        s
    } else {
        t.take(word_len(t) as int)
    }
}

proof fn lemma_word_len_bound(s: Seq<char>)
    ensures
        word_len(s) <= s.len(),
    decreases s.len(),
{
    if s.len() > 0 && !is_ws(s[0]) {
        lemma_word_len_bound(s.drop_first());
    }
}

/// The first word of a name (see [`first_word`]).
fn first_word_of(name: &str) -> (r: String)
    ensures
        r@ == first_word(name@),
{
    let v = chars_of(name);
    let a = crate::text::skip_ws(&v, 0, v.len());
    assert(v@.subrange(0, v@.len() as int) =~= v@);
    assert(v@.skip(a as int) =~= crate::text::trim_start_spec(v@));
    if a == v.len() {
        return name.to_owned();
    }
    let mut b = a;
    let ghost t = v@.skip(a as int);
    while b < v.len() && !crate::text::is_whitespace(v[b])
        invariant
            a <= b <= v@.len(),
            t == v@.skip(a as int),
            word_len(t) == (b - a) + word_len(v@.skip(b as int)),
        decreases v@.len() - b,
    {
        assert(v@.skip(b as int).drop_first() =~= v@.skip(b + 1));
        b = b + 1;
    }
    proof {
        lemma_word_len_bound(t);
    }
    assert(t.take(word_len(t) as int) =~= v@.subrange(a as int, b as int));
    crate::text::string_of_range(&v, a, b)
}

/// The distinct bases (first words) of the names, first-seen order.
pub open spec fn bases_of(names: Seq<Seq<char>>) -> Seq<Seq<char>>
    decreases names.len(),
{
    if names.len() == 0 {
        Seq::empty()
    } else {
        let p = bases_of(names.drop_last());
        let b = first_word(names.last());
        if p.contains(b) {
            p
        } else {
            p.push(b)
        }
    }
}

/// How many names have base `b`.
pub open spec fn base_count(names: Seq<Seq<char>>, b: Seq<char>) -> nat
    decreases names.len(),
{
    if names.len() == 0 {
        0
    } else {
        base_count(names.drop_last(), b) + if first_word(names.last()) == b {
            1nat
        } else {
            0nat
        }
    }
}

/// The first name with base `b`.
pub open spec fn first_with_base(names: Seq<Seq<char>>, b: Seq<char>) -> Seq<char>
    decreases names.len(),
{
    if names.len() == 0 {
        Seq::empty()
    } else if base_count(names.drop_last(), b) > 0 {
        first_with_base(names.drop_last(), b)
    } else {
        names.last()
    }
}

/// Hull variants collapsed: one entry per base, the full name when the
/// base has a single variant, the base otherwise.
pub open spec fn collapse_spec(names: Seq<Seq<char>>) -> Seq<Seq<char>> {
    bases_of(names).map_values(
        |b: Seq<char>| if base_count(names, b) == 1 {
            first_with_base(names, b)
        } else {
            b
        },
    )
}

proof fn lemma_bases_counted(names: Seq<Seq<char>>, b: Seq<char>)
    ensures
        bases_of(names).contains(b) <==> base_count(names, b) > 0,
        base_count(names, b) <= names.len(),
    decreases names.len(),
{
    if names.len() > 0 {
        lemma_bases_counted(names.drop_last(), b);
        let p = bases_of(names.drop_last());
        let x = first_word(names.last());
        if !p.contains(x) {
            assert(p.push(x).contains(b) <==> (p.contains(b) || x == b)) by {
                if p.push(x).contains(b) {
                    let k = choose|k: int| 0 <= k < p.push(x).len() && p.push(x)[k] == b;
                    if k < p.len() {
                        assert(p[k] == b);
                    }
                }
                if p.contains(b) {
                    let k = choose|k: int| 0 <= k < p.len() && p[k] == b;
                    assert(p.push(x)[k] == b);
                }
                if x == b {
                    assert(p.push(x)[p.len() as int] == b);
                }
            }
        }
    }
}

/// Collapse hull variants into base hull names where several variants of
/// the same base are present (`Avenger Stalker` + `Avenger Warlock` →
/// `Avenger`); single-variant entries keep their full name.
pub fn collapse_variants(names: &Vec<String>) -> (r: Vec<String>)
    ensures
        texts_of(r@) == collapse_spec(texts_of(names@)),
{
    let ghost nv = texts_of(names@);
    let mut bases: Vec<String> = Vec::new();
    let mut counts: Vec<usize> = Vec::new();
    let mut firsts: Vec<String> = Vec::new();
    let mut i: usize = 0;
    while i < names.len()
        invariant
            nv == texts_of(names@),
            i <= names@.len(),
            bases@.len() == counts@.len(),
            bases@.len() == firsts@.len(),
            texts_of(bases@) == bases_of(nv.take(i as int)),
            forall|g: int, h: int| 0 <= g < h < bases@.len() ==> bases@[g]@ != bases@[h]@,
            forall|g: int| 0 <= g < bases@.len() ==> #[trigger] counts@[g] == base_count(nv.take(i as int), bases@[g]@),
            forall|g: int| 0 <= g < bases@.len() ==> (#[trigger] firsts@[g])@ == first_with_base(nv.take(i as int), bases@[g]@),
        decreases names@.len() - i,
    {
        let ghost prev = nv.take(i as int);
        let ghost cur = nv.take(i + 1);
        assert(cur.drop_last() =~= prev);
        assert(cur.last() == names@[i as int]@);
        let base = first_word_of(names[i].as_str());
        let mut g: usize = 0;
        let mut found: Option<usize> = None;
        while g < bases.len()
            invariant
                g <= bases@.len(),
                found is None ==> forall|h: int| 0 <= h < g ==> bases@[h]@ != base@,
                found matches Some(f) ==> f < bases@.len() && bases@[f as int]@ == base@,
            decreases bases@.len() - g,
        {
            if found.is_none() && str_eq(bases[g].as_str(), base.as_str()) {
                found = Some(g);
            }
            g = g + 1;
        }
        proof {
            lemma_bases_counted(prev, base@);
            lemma_bases_counted(prev, base@);
            assert(texts_of(bases@).contains(base@) <==> found is Some) by {
                if let Some(f) = found {
                    assert(texts_of(bases@)[f as int] == base@);
                } else if texts_of(bases@).contains(base@) {
                    let k = choose|k: int| 0 <= k < texts_of(bases@).len() && texts_of(bases@)[k] == base@;
                    assert(bases@[k]@ == base@);
                }
            }
        }
        let ghost old_bases = bases@;
        let ghost old_counts = counts@;
        let ghost old_firsts = firsts@;
        match found {
            Some(f) => {
                proof {
                    lemma_bases_counted(prev, base@);
                    assert(counts@[f as int] <= i);
                }
                let c = counts[f];
                counts.set(f, c + 1);
                proof {
                    assert forall|g2: int| 0 <= g2 < bases@.len() implies #[trigger] counts@[g2] == base_count(cur, bases@[g2]@) by {
                        if g2 != f {
                            assert(old_counts[g2] == counts@[g2]);
                            assert(bases@[g2]@ != base@);
                        }
                    }
                    assert forall|g2: int| 0 <= g2 < bases@.len() implies (#[trigger] firsts@[g2])@ == first_with_base(cur, bases@[g2]@) by {
                        lemma_bases_counted(prev, bases@[g2]@);
                        assert(texts_of(bases@)[g2] == bases@[g2]@);
                    }
                }
            },
            None => {
                bases.push(base.clone());
                counts.push(1);
                firsts.push(names[i].clone());
                proof {
                    assert(texts_of(bases@) =~= texts_of(old_bases).push(base@));
                    assert forall|g2: int, h: int| 0 <= g2 < h < bases@.len() implies bases@[g2]@ != bases@[h]@ by {
                        if h == old_bases.len() {
                            assert(bases@[g2] == old_bases[g2]);
                        } else {
                            assert(bases@[g2] == old_bases[g2]);
                            assert(bases@[h] == old_bases[h]);
                        }
                    }
                    assert forall|g2: int| 0 <= g2 < bases@.len() implies #[trigger] counts@[g2] == base_count(cur, bases@[g2]@) by {
                        if g2 < old_bases.len() {
                            assert(old_counts[g2] == counts@[g2]);
                            assert(old_bases[g2] == bases@[g2]);
                            assert(texts_of(old_bases)[g2] == old_bases[g2]@);
                            assert(old_bases[g2]@ != base@);
                        } else {
                            lemma_bases_counted(prev, base@);
                        }
                    }
                    assert forall|g2: int| 0 <= g2 < bases@.len() implies (#[trigger] firsts@[g2])@ == first_with_base(cur, bases@[g2]@) by {
                        if g2 < old_bases.len() {
                            assert(old_firsts[g2] == firsts@[g2]);
                            assert(old_bases[g2] == bases@[g2]);
                            assert(texts_of(old_bases)[g2] == old_bases[g2]@);
                            lemma_bases_counted(prev, bases@[g2]@);
                        } else {
                            lemma_bases_counted(prev, base@);
                        }
                    }
                }
            },
        }
        i = i + 1;
    }
    assert(nv.take(names@.len() as int) =~= nv);
    let mut out: Vec<String> = Vec::new();
    let mut g: usize = 0;
    while g < bases.len()
        invariant
            g <= bases@.len(),
            bases@.len() == counts@.len(),
            bases@.len() == firsts@.len(),
            texts_of(bases@) == bases_of(nv),
            forall|h: int| 0 <= h < bases@.len() ==> #[trigger] counts@[h] == base_count(nv, bases@[h]@),
            forall|h: int| 0 <= h < bases@.len() ==> (#[trigger] firsts@[h])@ == first_with_base(nv, bases@[h]@),
            texts_of(out@) == collapse_spec(nv).take(g as int),
        decreases bases@.len() - g,
    {
        let ghost before = texts_of(out@);
        let item = if counts[g] == 1 {
            firsts[g].clone()
        } else {
            bases[g].clone()
        };
        out.push(item);
        assert(texts_of(out@) =~= before.push(item@));
        assert(collapse_spec(nv).take(g + 1) =~= collapse_spec(nv).take(g as int).push(collapse_spec(nv)[g as int]));
        assert(texts_of(bases@)[g as int] == bases@[g as int]@);
        proof {
            let b = bases@[g as int]@;
            assert(bases_of(nv)[g as int] == b);
            assert(collapse_spec(nv)[g as int] == (if base_count(nv, b) == 1 {
                first_with_base(nv, b)
            } else {
                b
            }));
        }
        assert(texts_of(out@) =~= collapse_spec(nv).take(g + 1));
        g = g + 1;
    }
    assert(collapse_spec(nv).take(bases@.len() as int) =~= collapse_spec(nv));
    out
}

/// `name` with the first of `prefixes` it starts with removed.
pub open spec fn strip_first_prefix(name: Seq<char>, prefixes: Seq<Seq<char>>) -> Seq<char>
    decreases prefixes.len(),
{
    if prefixes.len() == 0 {
        name
    } else if crate::text::has_prefix(name, prefixes[0]) {
        name.skip(prefixes[0].len() as int)
    } else {
        strip_first_prefix(name, prefixes.drop_first())
    }
}

fn strip_manufacturer(name: &str, prefixes: &Vec<String>) -> (r: String)
    ensures
        r@ == strip_first_prefix(name@, texts_of(prefixes@)),
{
    let mut k: usize = 0;
    assert(texts_of(prefixes@).skip(0) =~= texts_of(prefixes@));
    while k < prefixes.len()
        invariant
            k <= prefixes@.len(),
            strip_first_prefix(name@, texts_of(prefixes@)) == strip_first_prefix(name@, texts_of(prefixes@).skip(k as int)),
        decreases prefixes@.len() - k,
    {
        let ghost rest = texts_of(prefixes@).skip(k as int);
        assert(rest[0] == prefixes@[k as int]@);
        assert(rest.drop_first() =~= texts_of(prefixes@).skip(k + 1));
        match crate::text::strip_prefix_str(name, prefixes[k].as_str()) {
            Some(t) => {
                return t;
            },
            None => {},
        }
        k = k + 1;
    }
    name.to_owned()
}

/// Strip manufacturer prefixes, then collapse hull variants sharing a base
/// name.
pub fn compact_ship_names(names: &Vec<String>, manufacturer_prefixes: &Vec<String>) -> (r: Vec<String>)
    ensures
        texts_of(r@) == collapse_spec(
            texts_of(names@).map_values(|n: Seq<char>| strip_first_prefix(n, texts_of(manufacturer_prefixes@))),
        ),
{
    let mut stripped: Vec<String> = Vec::new();
    let mut i: usize = 0;
    while i < names.len()
        invariant
            i <= names@.len(),
            texts_of(stripped@) == texts_of(names@.take(i as int)).map_values(
                |n: Seq<char>| strip_first_prefix(n, texts_of(manufacturer_prefixes@)),
            ),
        decreases names@.len() - i,
    {
        let ghost before = texts_of(stripped@);
        let x = strip_manufacturer(names[i].as_str(), manufacturer_prefixes);
        stripped.push(x);
        assert(texts_of(stripped@) =~= before.push(x@));
        assert(texts_of(names@.take(i + 1)) =~= texts_of(names@.take(i as int)).push(names@[i as int]@));
        assert(texts_of(stripped@) =~= texts_of(names@.take(i + 1)).map_values(
            |n: Seq<char>| strip_first_prefix(n, texts_of(manufacturer_prefixes@)),
        ));
        i = i + 1;
    }
    assert(names@.take(names@.len() as int) =~= names@);
    collapse_variants(&stripped)
}


// ── Regions ─────────────────────────────────────────────────────────────────

/// `x` appended unless `s` already holds it.
pub open spec fn push_new(s: Seq<Seq<char>>, x: Seq<char>) -> Seq<Seq<char>> {
    if s.contains(x) {
        s
    } else {
        s.push(x)
    }
}

/// The region pieces read at text level: `(system, body)`, no body = the
/// whole system.
pub open spec fn pieces_view(p: Seq<(String, Option<String>)>) -> Seq<(Seq<char>, Option<Seq<char>>)> {
    p.map_values(|x: (String, Option<String>)| (x.0@, crate::state::opt_text(x.1)))
}

/// The distinct bodies named for system `sys`, first-seen order (pieces
/// with an empty system are ignored).
pub open spec fn bodies_in(p: Seq<(Seq<char>, Option<Seq<char>>)>, sys: Seq<char>) -> Seq<Seq<char>>
    decreases p.len(),
{
    if p.len() == 0 {
        Seq::empty()
    } else {
        let prev = bodies_in(p.drop_last(), sys);
        let x = p.last();
        if x.0.len() > 0 && x.0 == sys && x.1 is Some {
            push_new(prev, x.1->0)
        } else {
            prev
        }
    }
}

/// The distinct systems named system-wide, first-seen order.
pub open spec fn systemwide_systems(p: Seq<(Seq<char>, Option<Seq<char>>)>) -> Seq<Seq<char>>
    decreases p.len(),
{
    if p.len() == 0 {
        Seq::empty()
    } else {
        let prev = systemwide_systems(p.drop_last());
        let x = p.last();
        if x.0.len() > 0 && x.1 is None {
            push_new(prev, x.0)
        } else {
            prev
        }
    }
}

/// `"{sys} (system-wide)"` for each system-wide system no body covers.
pub open spec fn systemwide_lines(sw: Seq<Seq<char>>, p: Seq<(Seq<char>, Option<Seq<char>>)>) -> Seq<Seq<char>>
    decreases sw.len(),
{
    if sw.len() == 0 {
        Seq::empty()
    } else {
        let prev = systemwide_lines(sw.drop_last(), p);
        if bodies_in(p, sw.last()).len() > 0 {
            prev
        } else {
            prev.push(sw.last() + " (system-wide)"@)
        }
    }
}

/// The merged region lines: one `"{sys}: {bodies}"` line per system with
/// bodies, systems in key order, then the system-wide lines.
pub open spec fn region_lines_ok(p: Seq<(Seq<char>, Option<Seq<char>>)>, lines: Seq<Seq<char>>) -> bool {
    exists|systems: Seq<Seq<char>>|
        {
            &&& systems.len() <= lines.len()
            &&& forall|i: int, j: int| 0 <= i < j < systems.len() ==> crate::text::lex_lt(systems[i], systems[j])
            &&& forall|i: int|
                0 <= i < systems.len() ==> bodies_in(p, #[trigger] systems[i]).len() > 0 && lines[i] == systems[i]
                    + ": "@ + join_with(bodies_in(p, systems[i]), ", "@)
            &&& forall|sys: Seq<char>| #[trigger] bodies_in(p, sys).len() > 0 ==> systems.contains(sys)
            &&& lines.skip(systems.len() as int) == systemwide_lines(systemwide_systems(p), p)
        }
}

/// The texts stored under `k`, empty when absent.
pub open spec fn stored_texts(e: Seq<(Seq<char>, Vec<String>)>, k: Seq<char>) -> Seq<Seq<char>> {
    match crate::strmap::lookup(e, k) {
        Some(v) => texts_of(v@),
        None => Seq::empty(),
    }
}

proof fn lemma_lists_texts(list: Seq<String>, x: Seq<char>)
    ensures
        crate::shell::lists(list, x) <==> texts_of(list).contains(x),
{
    if crate::shell::lists(list, x) {
        let i = choose|i: int| 0 <= i < list.len() && #[trigger] list[i]@ == x;
        assert(texts_of(list)[i] == x);
    }
    if texts_of(list).contains(x) {
        let i = choose|i: int| 0 <= i < texts_of(list).len() && texts_of(list)[i] == x;
        assert(list[i]@ == x);
    }
}

/// Merge pieces into one line per system: `"Stanton: Hurston, Crusader"`,
/// `"Pyro (system-wide)"` (only when no bodies cover Pyro).
pub fn merge_region_pieces(pieces: &Vec<(String, Option<String>)>) -> (r: Vec<String>)
    ensures
        region_lines_ok(pieces_view(pieces@), texts_of(r@)),
{
    let ghost pv = pieces_view(pieces@);
    let mut by_system: StrMap<Vec<String>> = StrMap::new();
    let mut systemwide: Vec<String> = Vec::new();
    let mut i: usize = 0;
    while i < pieces.len()
        invariant
            pv == pieces_view(pieces@),
            by_system.wf(),
            i <= pieces@.len(),
            forall|k: Seq<char>| #[trigger] stored_texts(by_system@, k) == bodies_in(pv.take(i as int), k),
            forall|k: Seq<char>| (#[trigger] crate::strmap::lookup(by_system@, k)) is Some ==> bodies_in(pv.take(i as int), k).len() > 0,
            texts_of(systemwide@) == systemwide_systems(pv.take(i as int)),
        decreases pieces@.len() - i,
    {
        let ghost cur = pv.take(i + 1);
        let ghost prev = pv.take(i as int);
        assert(cur.drop_last() =~= prev);
        assert(cur.last() == pv[i as int]);
        let (system, body) = (&pieces[i].0, &pieces[i].1);
        if !system.as_str().is_empty() {
            match body {
                Some(b) => {
                    let present = match by_system.get(system.as_str()) {
                        Some(list) => crate::shell::list_contains(list, b.as_str()),
                        None => false,
                    };
                    proof {
                        if let Some(list) = crate::strmap::lookup(by_system@, system@) {
                            lemma_lists_texts(list@, b@);
                        }
                    }
                    if !present {
                        let ghost before = by_system@;
                        by_system.push_to(system.as_str(), b.clone());
                        proof {
                            assert forall|k: Seq<char>| #[trigger] stored_texts(by_system@, k) == bodies_in(cur, k)
                                && ((crate::strmap::lookup(by_system@, k)) is Some ==> bodies_in(cur, k).len() > 0) by {
                                if k != system@ {
                                    assert(crate::strmap::lookup(by_system@, k) == crate::strmap::lookup(before, k));
                                    assert(stored_texts(by_system@, k) == stored_texts(before, k));
                                } else {
                                    let v = crate::strmap::lookup(by_system@, k)->0;
                                    assert(texts_of(v@) =~= stored_texts(before, k).push(b@));
                                }
                            }
                        }
                    } else {
                        proof {
                            assert forall|k: Seq<char>| #[trigger] stored_texts(by_system@, k) == bodies_in(cur, k)
                                && ((crate::strmap::lookup(by_system@, k)) is Some ==> bodies_in(cur, k).len() > 0) by {}
                        }
                    }
                    assert(systemwide_systems(cur) == systemwide_systems(prev));
                },
                None => {
                    let present = crate::shell::list_contains(&systemwide, system.as_str());
                    proof {
                        lemma_lists_texts(systemwide@, system@);
                    }
                    if !present {
                        let ghost before = texts_of(systemwide@);
                        systemwide.push(system.clone());
                        assert(texts_of(systemwide@) =~= before.push(system@));
                    }
                    proof {
                        assert forall|k: Seq<char>| #[trigger] stored_texts(by_system@, k) == bodies_in(cur, k)
                            && ((crate::strmap::lookup(by_system@, k)) is Some ==> bodies_in(cur, k).len() > 0) by {}
                    }
                },
            }
        } else {
            proof {
                assert forall|k: Seq<char>| #[trigger] stored_texts(by_system@, k) == bodies_in(cur, k)
                    && ((crate::strmap::lookup(by_system@, k)) is Some ==> bodies_in(cur, k).len() > 0) by {}
            }
        }
        i = i + 1;
    }
    assert(pv.take(pieces@.len() as int) =~= pv);
    proof {
        by_system.lemma_wf_sorted();
    }
    let mut out: Vec<String> = Vec::new();
    let mut g: usize = 0;
    while g < by_system.len()
        invariant
            by_system.wf(),
            crate::strmap::entries_sorted(by_system@),
            forall|k: Seq<char>| #[trigger] stored_texts(by_system@, k) == bodies_in(pv, k),
            forall|k: Seq<char>| (#[trigger] crate::strmap::lookup(by_system@, k)) is Some ==> bodies_in(pv, k).len() > 0,
            g <= by_system@.len(),
            out@.len() == g,
            forall|h: int| 0 <= h < g ==> (#[trigger] out@[h])@ == by_system@[h].0 + ": "@ + join_with(
                bodies_in(pv, by_system@[h].0),
                ", "@,
            ),
        decreases by_system@.len() - g,
    {
        let k = by_system.key_at(g);
        let list = by_system.value_at(g);
        proof {
            crate::strmap::lemma_lookup_at(by_system@, g as int);
            assert(stored_texts(by_system@, k@) == texts_of(list@));
        }
        let mut line = k.to_owned();
        line.append(": ");
        line.append(join_strings(list, ", ").as_str());
        out.push(line);
        g = g + 1;
    }
    let ghost n = out@.len();
    let ghost sw = systemwide_systems(pv);
    let mut j: usize = 0;
    while j < systemwide.len()
        invariant
            by_system.wf(),
            forall|k: Seq<char>| #[trigger] stored_texts(by_system@, k) == bodies_in(pv, k),
            forall|k: Seq<char>| (#[trigger] crate::strmap::lookup(by_system@, k)) is Some ==> bodies_in(pv, k).len() > 0,
            texts_of(systemwide@) == sw,
            j <= systemwide@.len(),
            n <= out@.len(),
            n == by_system@.len(),
            forall|h: int| 0 <= h < n ==> (#[trigger] out@[h])@ == by_system@[h].0 + ": "@ + join_with(
                bodies_in(pv, by_system@[h].0),
                ", "@,
            ),
            texts_of(out@).skip(n as int) == systemwide_lines(sw.take(j as int), pv),
        decreases systemwide@.len() - j,
    {
        assert(sw.take(j + 1).drop_last() =~= sw.take(j as int));
        assert(sw.take(j + 1).last() == systemwide@[j as int]@);
        let covered = by_system.contains_key(systemwide[j].as_str());
        proof {
            if !covered {
                assert(stored_texts(by_system@, systemwide@[j as int]@).len() == 0);
            } else {
                assert(bodies_in(pv, systemwide@[j as int]@).len() > 0);
            }
        }
        if !covered {
            let ghost before = texts_of(out@);
            let mut line = systemwide[j].clone();
            line.append(" (system-wide)");
            out.push(line);
            assert(texts_of(out@) =~= before.push(line@));
            assert(texts_of(out@).skip(n as int) =~= before.skip(n as int).push(line@));
        }
        j = j + 1;
    }
    assert(sw.take(sw.len() as int) =~= sw);
    proof {
        let systems = by_system@.map_values(|e: (Seq<char>, Vec<String>)| e.0);
        let lines = texts_of(out@);
        assert forall|a: int, b: int| 0 <= a < b < systems.len() implies crate::text::lex_lt(systems[a], systems[b]) by {}
        assert forall|a: int| 0 <= a < systems.len() implies bodies_in(pv, #[trigger] systems[a]).len() > 0 && lines[a]
            == systems[a] + ": "@ + join_with(bodies_in(pv, systems[a]), ", "@) by {
            crate::strmap::lemma_lookup_at(by_system@, a);
            assert(out@[a]@ == lines[a]);
        }
        assert forall|sys: Seq<char>| #[trigger] bodies_in(pv, sys).len() > 0 implies systems.contains(sys) by {
            assert(stored_texts(by_system@, sys).len() > 0);
            let a = choose|a: int| 0 <= a < by_system@.len() && by_system@[a].0 == sys;
            assert(systems[a] == sys);
        }
        assert(region_lines_ok(pv, lines));
    }
    out
}


// ── Debug-name hints ────────────────────────────────────────────────────────

/// The letter of a `Region{X}` token (one ASCII uppercase letter).
pub open spec fn region_letter(t: Seq<char>) -> Option<char> {
    if t.len() == 7 && t.take(6) == "Region"@ && 'A' <= t[6] <= 'Z' {
        Some(t[6])
    } else {
        None
    }
}

/// A `Stanton{digit}…` token.
pub open spec fn is_stanton_body(t: Seq<char>) -> bool {
    t.len() > 7 && t.take(7) == "Stanton"@ && '0' <= t[7] <= '9'
}

/// The location hint of the tokens from `i` on, `loc` being what earlier
/// tokens gave: the first `Region{X}` (qualified by a preceding `Pyro` /
/// `Stanton` token) or `Stanton{n}` token decides; a `Pyro` token that is
/// not last, or a `Nyx` token, sets a provisional location.
pub open spec fn location_scan(tokens: Seq<Seq<char>>, i: int, loc: Option<Seq<char>>) -> Option<Seq<char>>
    decreases tokens.len() - i,
{
    if i < 0 || i >= tokens.len() {
        loc
    } else {
        let t = tokens[i];
        match region_letter(t) {
            Some(l) => {
                let sys: Option<Seq<char>> = if i >= 1 {
                    Some(tokens[i - 1])
                } else {
                    None
                };
                Some(
                    if sys == Some("Pyro"@) {
                        "Pyro Region "@.push(l)
                    } else if sys == Some("Stanton"@) {
                        "Stanton Region "@.push(l)
                    } else {
                        "Region "@.push(l)
                    },
                )
            },
            None => if is_stanton_body(t) {
                Some("Stanton "@ + t.skip(7))
            } else {
                let l1 = if t == "Pyro"@ && i + 1 < tokens.len() {
                    Some("Pyro"@)
                } else {
                    loc
                };
                let l2 = if t == "Nyx"@ {
                    Some("Nyx"@)
                } else {
                    l1
                };
                location_scan(tokens, i + 1, l2)
            },
        }
    }
}

/// The difficulty a token names.
pub open spec fn difficulty_of(t: Seq<char>) -> Option<Seq<char>> {
    if t == "VeryEasy"@ || t == "VE"@ {
        Some("Very Easy"@)
    } else if t == "Easy"@ || t == "E"@ {
        Some("Easy"@)
    } else if t == "Medium"@ || t == "M"@ {
        Some("Medium"@)
    } else if t == "Hard"@ || t == "H"@ {
        Some("Hard"@)
    } else if t == "VeryHard"@ || t == "VH"@ {
        Some("Very Hard"@)
    } else if t == "Super"@ || t == "S"@ {
        Some("Super"@)
    } else {
        None
    }
}

/// The difficulty of the first token that names one.
pub open spec fn first_difficulty(tokens: Seq<Seq<char>>) -> Option<Seq<char>>
    decreases tokens.len(),
{
    if tokens.len() == 0 {
        None
    } else {
        match difficulty_of(tokens[0]) {
            Some(d) => Some(d),
            None => first_difficulty(tokens.drop_first()),
        }
    }
}

/// Location and difficulty hints of a debug name, joined with ` · `;
/// `None` when it has neither.
pub open spec fn debug_hints_spec(name: Seq<char>) -> Option<Seq<char>> {
    let tokens = crate::text::split_char_spec(name, '_');
    let loc = location_scan(tokens, 0, None);
    let diff = first_difficulty(tokens);
    match (loc, diff) {
        (Some(l), Some(d)) => Some(l + " · "@ + d),
        (Some(l), None) => Some(l),
        (None, Some(d)) => Some(d),
        (None, None) => None,
    }
}

fn difficulty_label(t: &str) -> (r: Option<&'static str>)
    ensures
        match r {
            Some(d) => difficulty_of(t@) == Some(d@),
            None => difficulty_of(t@) is None,
        },
{
    if str_eq(t, "VeryEasy") || str_eq(t, "VE") {
        Some("Very Easy")
    } else if str_eq(t, "Easy") || str_eq(t, "E") {
        Some("Easy")
    } else if str_eq(t, "Medium") || str_eq(t, "M") {
        Some("Medium")
    } else if str_eq(t, "Hard") || str_eq(t, "H") {
        Some("Hard")
    } else if str_eq(t, "VeryHard") || str_eq(t, "VH") {
        Some("Very Hard")
    } else if str_eq(t, "Super") || str_eq(t, "S") {
        Some("Super")
    } else {
        None
    }
}

fn region_letter_of(t: &str) -> (r: Option<char>)
    ensures
        r == region_letter(t@),
{
    let v = chars_of(t);
    if v.len() != 7 {
        return None;
    }
    let head = crate::text::string_of_range(&v, 0, 6);
    assert(head@ =~= v@.take(6));
    if str_eq(head.as_str(), "Region") && 'A' <= v[6] && v[6] <= 'Z' {
        Some(v[6])
    } else {
        None
    }
}

/// Scan an internal `debug_name` for tokens that also show up as in-game
/// mobiGlas tags: location (Stanton planet number, Pyro region letter,
/// Nyx) and difficulty rank.
pub fn parse_debug_name_hints(debug_name: &str) -> (r: Option<String>)
    ensures
        match r {
            Some(h) => debug_hints_spec(debug_name@) == Some(h@),
            None => debug_hints_spec(debug_name@) is None,
        },
{
    let tokens = crate::text::split_char(debug_name, '_');
    let ghost tv = texts_of(tokens@);
    let mut location: Option<String> = None;
    let mut i: usize = 0;
    let mut done = false;
    while i < tokens.len() && !done
        invariant
            tv == texts_of(tokens@),
            i <= tokens@.len(),
            !done ==> location_scan(tv, 0, None) == location_scan(tv, i as int, crate::state::opt_text(location)),
            done ==> location_scan(tv, 0, None) == crate::state::opt_text(location),
        decreases tokens@.len() - i, if done { 0int } else { 1int },
    {
        let t = tokens[i].as_str();
        assert(tv[i as int] == t@);
        match region_letter_of(t) {
            Some(l) => {
                let mut loc = if i >= 1 && str_eq(tokens[i - 1].as_str(), "Pyro") {
                    "Pyro Region ".to_owned()
                } else if i >= 1 && str_eq(tokens[i - 1].as_str(), "Stanton") {
                    "Stanton Region ".to_owned()
                } else {
                    "Region ".to_owned()
                };
                proof {
                    if i >= 1 {
                        assert(tv[i - 1] == tokens@[i - 1]@);
                    }
                }
                loc.push(l);
                location = Some(loc);
                done = true;
            },
            None => {
                let v = chars_of(t);
                let stanton = v.len() > 7 && crate::text::prefix_at(&v, 0, &chars_of("Stanton")) && '0' <= v[7] && v[7] <= '9';
                proof {
                    assert(v@.skip(0) =~= v@);
                    reveal_strlit("Stanton");
                }
                if stanton {
                    let mut loc = "Stanton ".to_owned();
                    crate::text::push_range(&mut loc, &v, 7, v.len());
                    assert(v@.subrange(7, v@.len() as int) =~= v@.skip(7));
                    location = Some(loc);
                    done = true;
                } else {
                    if str_eq(t, "Pyro") && i + 1 < tokens.len() {
                        location = Some("Pyro".to_owned());
                    }
                    if str_eq(t, "Nyx") {
                        location = Some("Nyx".to_owned());
                    }
                    i = i + 1;
                }
            },
        }
    }
    let mut difficulty: Option<&'static str> = None;
    let mut k: usize = 0;
    assert(tv.skip(0) =~= tv);
    while k < tokens.len() && difficulty.is_none()
        invariant
            tv == texts_of(tokens@),
            k <= tokens@.len(),
            difficulty is None ==> first_difficulty(tv) == first_difficulty(tv.skip(k as int)),
            difficulty matches Some(d) ==> first_difficulty(tv) == Some(d@),
        decreases tokens@.len() - k,
    {
        assert(tv.skip(k as int)[0] == tokens@[k as int]@);
        assert(tv.skip(k as int).drop_first() =~= tv.skip(k + 1));
        difficulty = difficulty_label(tokens[k].as_str());
        k = k + 1;
    }
    proof {
        if difficulty is None && !done {
            assert(tv.skip(k as int).len() == 0);
        }
    }
    match (location, difficulty) {
        (Some(l), Some(d)) => {
            let mut out = l;
            out.append(" · ");
            out.append(d);
            Some(out)
        },
        (Some(l), None) => Some(l),
        (None, Some(d)) => Some(d.to_owned()),
        (None, None) => None,
    }
}


// ── Identifiers ─────────────────────────────────────────────────────────────

/// The Unicode `Lowercase` property.
pub uninterp spec fn lowercase_prop(c: char) -> bool;

/// The Unicode `Uppercase` property.
pub uninterp spec fn uppercase_prop(c: char) -> bool;

/// The Unicode `Alphabetic` property.
pub uninterp spec fn alphabetic_prop(c: char) -> bool;

/// `char::is_lowercase`: the `Lowercase` property, which on ASCII holds
/// exactly for `a`..`z`.
#[verifier::external_body]
fn is_lowercase(c: char) -> (b: bool)
    ensures
        b == lowercase_prop(c),
        (c as int) < 128 ==> (b <==> 'a' <= c <= 'z'),
{
    c.is_lowercase()
}

/// `char::is_uppercase`: the `Uppercase` property, which on ASCII holds
/// exactly for `A`..`Z`.
#[verifier::external_body]
fn is_uppercase(c: char) -> (b: bool)
    ensures
        b == uppercase_prop(c),
        (c as int) < 128 ==> (b <==> 'A' <= c <= 'Z'),
{
    c.is_uppercase()
}

/// `char::is_alphabetic`: the `Alphabetic` property, which on ASCII holds
/// exactly for the letters.
#[verifier::external_body]
fn is_alphabetic(c: char) -> (b: bool)
    ensures
        b == alphabetic_prop(c),
        (c as int) < 128 ==> (b <==> ('a' <= c <= 'z' || 'A' <= c <= 'Z')),
{
    c.is_alphabetic()
}

/// A locality record stem as a label: a space inserted before each
/// uppercase letter or ASCII digit that follows a lowercase letter
/// (`"RegionA"` → `"Region A"`).
pub open spec fn locality_label(s: Seq<char>) -> Seq<char>
    decreases s.len(),
{
    if s.len() == 0 {
        Seq::empty()
    } else {
        let c = s.last();
        let spaced = s.len() >= 2 && lowercase_prop(s[s.len() - 2]) && (uppercase_prop(c) || ('0' <= c
            <= '9'));
        locality_label(s.drop_last()) + if spaced {
            seq![' ', c]
        } else {
            seq![c]
        }
    }
}

/// Space a locality record stem into a label.
pub fn clean_locality_name(s: &str) -> (r: String)
    ensures
        r@ == locality_label(s@),
{
    let v = chars_of(s);
    let mut out = String::new();
    let mut prev_lower = false;
    let mut i: usize = 0;
    while i < v.len()
        invariant
            i <= v@.len(),
            v@ == s@,
            out@ == locality_label(v@.take(i as int)),
            prev_lower == (i > 0 && lowercase_prop(v@[i - 1])),
        decreases v@.len() - i,
    {
        let ch = v[i];
        if prev_lower && (is_uppercase(ch) || ('0' <= ch && ch <= '9')) {
            out.push(' ');
        }
        out.push(ch);
        prev_lower = is_lowercase(ch);
        proof {
            let t = v@.take(i + 1);
            assert(t.drop_last() =~= v@.take(i as int));
            assert(t.last() == ch);
            if i > 0 {
                assert(t[t.len() - 2] == v@[i - 1]);
            }
        }
        i = i + 1;
    }
    assert(v@.take(v@.len() as int) =~= v@);
    out
}

/// `s` trimmed, then without a trailing `_BP`, then without a leading
/// `BP_`.
pub open spec fn strip_noise_spec(s: Seq<char>) -> Seq<char> {
    let t = crate::text::trim_spec(s);
    let t1 = if crate::text::has_suffix(t, "_BP"@) {
        t.take(t.len() - 3)
    } else {
        t
    };
    if crate::text::has_prefix(t1, "BP_"@) {
        t1.skip(3)
    } else {
        t1
    }
}

/// A word boundary sits before position `i` (`i > 0`): lower→upper,
/// digit↔letter, or an uppercase run's last letter when two lowercase
/// letters follow (`URLPath` → `URL Path`, but `NPCs` stays).
pub open spec fn boundary_at(c: Seq<char>, i: int) -> bool {
    let prev = c[i - 1];
    let cur = c[i];
    let two_lower = i + 2 < c.len() && lowercase_prop(c[i + 1]) && lowercase_prop(c[i + 2]);
    ||| lowercase_prop(prev) && uppercase_prop(cur)
    ||| ('0' <= prev <= '9') && alphabetic_prop(cur)
    ||| alphabetic_prop(prev) && ('0' <= cur <= '9')
    ||| uppercase_prop(prev) && uppercase_prop(cur) && two_lower
}

/// `out` ends with a space.
pub open spec fn ends_space(out: Seq<char>) -> bool {
    out.len() > 0 && out.last() == ' '
}

/// The words of `c` from position `i` on, appended to `out`: `_` becomes a
/// single separating space, and a space goes before each boundary.
pub open spec fn spaced(c: Seq<char>, i: int, out: Seq<char>) -> Seq<char>
    decreases c.len() - i,
{
    if i < 0 || i >= c.len() {
        out
    } else if c[i] == '_' {
        spaced(
            c,
            i + 1,
            if !ends_space(out) && out.len() > 0 {
                out.push(' ')
            } else {
                out
            },
        )
    } else {
        let out1 = if i > 0 && boundary_at(c, i) && !ends_space(out) {
            out.push(' ')
        } else {
            out
        };
        spaced(c, i + 1, out1.push(c[i]))
    }
}

/// Runs of spaces collapsed to one.
pub open spec fn collapse_spaces(s: Seq<char>) -> Seq<char>
    decreases s.len(),
{
    if s.len() == 0 {
        s
    } else {
        let p = collapse_spaces(s.drop_last());
        if s.last() == ' ' && ends_space(p) {
            p
        } else {
            p.push(s.last())
        }
    }
}

/// A CamelCase / snake_case identifier as space-separated words.
pub open spec fn pretty_spec(s: Seq<char>) -> Seq<char> {
    let t = strip_noise_spec(s);
    if t.len() == 0 {
        Seq::empty()
    } else {
        crate::text::trim_spec(collapse_spaces(spaced(t, 0, Seq::empty())))
    }
}

fn strip_noise_affixes(s: &str) -> (r: String)
    ensures
        r@ == strip_noise_spec(s@),
{
    proof {
        reveal_strlit("_BP");
        reveal_strlit("BP_");
    }
    let t = crate::text::trim_str(s);
    let t1 = match crate::text::strip_suffix_str(t.as_str(), "_BP") {
        Some(x) => x,
        None => t,
    };
    match crate::text::strip_prefix_str(t1.as_str(), "BP_") {
        Some(x) => x,
        None => t1,
    }
}

fn ends_with_space(out: &Vec<char>) -> (b: bool)
    ensures
        b == ends_space(out@),
{
    out.len() > 0 && out[out.len() - 1] == ' '
}

/// Pretty-print a CamelCase / snake_case identifier as space-separated
/// words (`MissionTargets` → `Mission Targets`, `EnemyNPCs` → `Enemy
/// NPCs`). Trailing `_BP` / leading `BP_` noise is stripped first.
pub fn pretty_identifier(s: &str) -> (r: String)
    ensures
        r@ == pretty_spec(s@),
{
    let trimmed = strip_noise_affixes(s);
    if trimmed.as_str().is_empty() {
        return String::new();
    }
    let c = chars_of(trimmed.as_str());
    let n = c.len();
    let mut out: Vec<char> = Vec::new();
    let mut i: usize = 0;
    while i < n
        invariant
            n == c@.len(),
            c@ == trimmed@,
            i <= n,
            spaced(c@, 0, Seq::empty()) == spaced(c@, i as int, out@),
        decreases n - i,
    {
        let ch = c[i];
        if ch == '_' {
            if !ends_with_space(&out) && out.len() > 0 {
                out.push(' ');
            }
        } else {
            if i > 0 {
                let prev = c[i - 1];
                let two_lower = n - i > 2 && is_lowercase(c[i + 1]) && is_lowercase(c[i + 2]);
                let boundary = (is_lowercase(prev) && is_uppercase(ch)) || ('0' <= prev && prev <= '9'
                    && is_alphabetic(ch)) || (is_alphabetic(prev) && '0' <= ch && ch <= '9') || (is_uppercase(prev)
                    && is_uppercase(ch) && two_lower);
                assert(boundary == boundary_at(c@, i as int));
                if boundary && !ends_with_space(&out) {
                    out.push(' ');
                }
            }
            out.push(ch);
        }
        i = i + 1;
    }
    let mut collapsed: Vec<char> = Vec::new();
    let mut k: usize = 0;
    while k < out.len()
        invariant
            k <= out@.len(),
            collapsed@ == collapse_spaces(out@.take(k as int)),
        decreases out@.len() - k,
    {
        assert(out@.take(k + 1).drop_last() =~= out@.take(k as int));
        if !(out[k] == ' ' && ends_with_space(&collapsed)) {
            collapsed.push(out[k]);
        }
        k = k + 1;
    }
    assert(out@.take(out@.len() as int) =~= out@);
    let (a, b) = crate::text::trim_bounds(&collapsed);
    crate::text::string_of_range(&collapsed, a, b)
}

} // verus!

verus! {

// ── Mission info lines ──────────────────────────────────────────────────────

/// A mission's payout.
pub struct PayoutFacts {
    /// The reward is engine-calculated.
    pub calculated: bool,
    /// Hardcoded fixed aUEC, when the contract carries one.
    pub fixed: Option<i32>,
    /// The estimated aUEC for a calculated reward.
    pub estimate: Option<i32>,
}

/// One scrip reward: the currency's display name, if any, and the amount.
pub struct ScripFacts {
    pub name: Option<String>,
    pub amount: i32,
}

/// The sum of the positive reputation amounts.
pub open spec fn rep_total(amounts: Seq<Option<i32>>) -> int
    decreases amounts.len(),
{
    if amounts.len() == 0 {
        0
    } else {
        rep_total(amounts.drop_last()) + match amounts.last() {
            Some(a) if a > 0 => a as int,
            _ => 0,
        }
    }
}

/// `Rep: N XP` for a positive total reputation reward.
pub open spec fn rep_line_spec(amounts: Seq<Option<i32>>) -> Option<Seq<char>> {
    if rep_total(amounts) > 0 {
        Some("Rep: "@ + dec_int(rep_total(amounts)) + " XP"@)
    } else {
        None
    }
}

/// The reputation line: the positive amounts summed.
pub fn rep_line(m: &MissionFacts) -> (r: Option<String>)
    requires
        rep_total(m.reputation@) <= i32::MAX,
    ensures
        crate::queries::opt_view(r) == rep_line_spec(m.reputation@),
{
    let reputation = &m.reputation;
    let mut total: i64 = 0;
    let mut i: usize = 0;
    while i < reputation.len()
        invariant
            i <= reputation@.len(),
            rep_total(reputation@) <= i32::MAX,
            total == rep_total(reputation@.take(i as int)),
            0 <= total,
        decreases reputation@.len() - i,
    {
        proof {
            assert(reputation@.take(i + 1).drop_last() =~= reputation@.take(i as int));
            lemma_rep_total_prefix(reputation@, i as int + 1);
        }
        if let Some(a) = reputation[i] {
            if a > 0 {
                total = total + a as i64;
            }
        }
        i = i + 1;
    }
    assert(reputation@.take(reputation@.len() as int) =~= reputation@);
    if total > 0 {
        let mut out = String::new();
        out.append("Rep: ");
        push_i64(&mut out, total);
        out.append(" XP");
        Some(out)
    } else {
        None
    }
}

/// A prefix's positive total is at most the whole's.
proof fn lemma_rep_total_prefix(amounts: Seq<Option<i32>>, n: int)
    requires
        0 <= n <= amounts.len(),
    ensures
        0 <= rep_total(amounts.take(n)) <= rep_total(amounts),
    decreases amounts.len(),
{
    if amounts.len() > 0 {
        if n == amounts.len() {
            assert(amounts.take(n) =~= amounts);
            lemma_rep_total_prefix(amounts.drop_last(), n - 1);
            assert(amounts.drop_last().take(n - 1) =~= amounts.drop_last());
        } else {
            lemma_rep_total_prefix(amounts.drop_last(), n);
            assert(amounts.drop_last().take(n) =~= amounts.take(n));
        }
    }
}

/// `UEC: N` for a positive fixed payout, else `UEC: ~N` for a positive
/// estimate of a calculated one.
pub open spec fn uec_line_spec(p: PayoutFacts) -> Option<Seq<char>> {
    match p.fixed {
        Some(n) if n > 0 => Some("UEC: "@ + dec_int(n as int)),
        _ => match p.estimate {
            Some(n) if p.calculated && n > 0 => Some("UEC: ~"@ + dec_int(n as int)),
            _ => None,
        },
    }
}

/// The payout line: fixed payouts exact, calculated ones by their estimate.
pub fn uec_line(m: &MissionFacts) -> (r: Option<String>)
    ensures
        crate::queries::opt_view(r) == uec_line_spec(m.payout),
{
    let payout = &m.payout;
    if let Some(n) = payout.fixed {
        if n > 0 {
            let mut out = String::new();
            out.append("UEC: ");
            push_i64(&mut out, n as i64);
            return Some(out);
        }
    }
    if payout.calculated {
        if let Some(n) = payout.estimate {
            if n > 0 {
                let mut out = String::new();
                out.append("UEC: ~");
                push_i64(&mut out, n as i64);
                return Some(out);
            }
        }
    }
    None
}

/// The currency a scrip reward counts under: its name, or empty.
pub open spec fn scrip_name(e: ScripFacts) -> Seq<char> {
    match e.name {
        Some(n) => n@,
        None => Seq::empty(),
    }
}

/// `e` adds to the total of currency `name`.
pub open spec fn scrip_counts(e: ScripFacts, name: Seq<char>) -> bool {
    e.amount > 0 && scrip_name(e) == name
}

/// The summed positive amounts of currency `name`.
pub open spec fn scrip_sum(s: Seq<ScripFacts>, name: Seq<char>) -> int
    decreases s.len(),
{
    if s.len() == 0 {
        0
    } else {
        scrip_sum(s.drop_last(), name) + if scrip_counts(s.last(), name) {
            s.last().amount as int
        } else {
            0
        }
    }
}

/// The summed positive amounts of every currency.
pub open spec fn scrip_total(s: Seq<ScripFacts>) -> int
    decreases s.len(),
{
    if s.len() == 0 {
        0
    } else {
        scrip_total(s.drop_last()) + if s.last().amount > 0 {
            s.last().amount as int
        } else {
            0
        }
    }
}

/// `N Name`, or `N scrip` for an unnamed currency.
pub open spec fn scrip_part(name: Seq<char>, amount: int) -> Seq<char> {
    dec_int(amount) + " "@ + if name.len() == 0 {
        "scrip"@
    } else {
        name
    }
}

/// `ns` lists, in name order and once each, the currencies `s` rewards.
pub open spec fn scrip_names(s: Seq<ScripFacts>, ns: Seq<Seq<char>>) -> bool {
    &&& forall|a: int, b: int| 0 <= a < b < ns.len() ==> crate::text::lex_lt(ns[a], ns[b])
    &&& forall|n: Seq<char>| #[trigger] ns.contains(n) <==> exists|i: int| 0 <= i < s.len() && scrip_counts(s[i], n)
}

/// `Scrip: ` and the parts of the currencies `ns`, amounts summed.
pub open spec fn scrip_text(s: Seq<ScripFacts>, ns: Seq<Seq<char>>) -> Seq<char> {
    "Scrip: "@ + join_with(ns.map_values(|n: Seq<char>| scrip_part(n, scrip_sum(s, n))), ", "@)
}

/// `r` is the scrip line of `s`: `None` when nothing is positive, else
/// (some amount being positive) `Scrip: ` and one part per currency, in
/// name order, amounts summed.
pub open spec fn scrip_line_ok(s: Seq<ScripFacts>, r: Option<Seq<char>>) -> bool {
    match r {
        None => forall|i: int| 0 <= i < s.len() ==> (#[trigger] s[i]).amount <= 0,
        Some(t) => (exists|i: int| 0 <= i < s.len() && (#[trigger] s[i]).amount > 0) && exists|ns: Seq<Seq<char>>|
            #[trigger] scrip_names(s, ns) && t == scrip_text(s, ns),
    }
}

/// Sums of a prefix are at most the sums of the whole, and not negative.
proof fn lemma_scrip_bounds(s: Seq<ScripFacts>, n: int, name: Seq<char>)
    requires
        0 <= n <= s.len(),
    ensures
        0 <= scrip_sum(s.take(n), name) <= scrip_total(s.take(n)) <= scrip_total(s),
    decreases s.len(),
{
    if s.len() > 0 {
        if n == s.len() {
            assert(s.take(n) =~= s);
            lemma_scrip_bounds(s.drop_last(), n - 1, name);
            assert(s.drop_last().take(n - 1) =~= s.drop_last());
        } else {
            lemma_scrip_bounds(s.drop_last(), n, name);
            assert(s.drop_last().take(n) =~= s.take(n));
        }
    }
}

/// The scrip line: one part per currency, in name order, positive
/// amounts summed within each.
pub fn scrip_line(m: &MissionFacts) -> (r: Option<String>)
    requires
        scrip_total(m.scrip@) <= i32::MAX,
    ensures
        scrip_line_ok(m.scrip@, crate::queries::opt_view(r)),
{
    let scrip = &m.scrip;
    let ghost s = scrip@;
    let mut by_name: StrMap<i64> = StrMap::new();
    let mut i: usize = 0;
    while i < scrip.len()
        invariant
            s == scrip@,
            by_name.wf(),
            i <= s.len(),
            scrip_total(s) <= i32::MAX,
            forall|k: Seq<char>|
                #[trigger] crate::strmap::lookup(by_name@, k) == if exists|j: int| 0 <= j < i && scrip_counts(s[j], k) {
                    Some(scrip_sum(s.take(i as int), k) as i64)
                } else {
                    None
                },
            forall|k: Seq<char>|
                !(exists|j: int| 0 <= j < i && scrip_counts(s[j], k)) ==> #[trigger] scrip_sum(s.take(i as int), k) == 0,
        decreases s.len() - i,
    {
        proof {
            assert(s.take(i + 1).drop_last() =~= s.take(i as int));
        }
        let e = &scrip[i];
        if e.amount > 0 {
            let name: String = match &e.name {
                Some(n) => n.clone(),
                None => String::new(),
            };
            assert(name@ == scrip_name(*e));
            let cur: i64 = match by_name.get(name.as_str()) {
                Some(v) => *v,
                None => 0,
            };
            proof {
                lemma_scrip_bounds(s, i as int + 1, name@);
                assert(cur == scrip_sum(s.take(i as int), name@));
            }
            let ghost before = by_name@;
            by_name.insert(name.as_str(), cur + e.amount as i64);
            proof {
                assert forall|k: Seq<char>|
                    #[trigger] crate::strmap::lookup(by_name@, k) == if exists|j: int| 0 <= j < i + 1 && scrip_counts(s[j], k) {
                        Some(scrip_sum(s.take(i + 1), k) as i64)
                    } else {
                        None
                    } by {
                    if k == name@ {
                        assert(scrip_counts(s[i as int], k));
                    } else {
                        assert(!scrip_counts(s[i as int], k));
                        if exists|j: int| 0 <= j < i + 1 && scrip_counts(s[j], k) {
                            let j = choose|j: int| 0 <= j < i + 1 && scrip_counts(s[j], k);
                            assert(j < i);
                        }
                    }
                }
                assert forall|k: Seq<char>|
                    !(exists|j: int| 0 <= j < i + 1 && scrip_counts(s[j], k)) implies #[trigger] scrip_sum(s.take(i + 1), k) == 0 by {
                    assert(!scrip_counts(s[i as int], k));
                    assert forall|j: int| 0 <= j < i implies !scrip_counts(s[j], k) by {
                        assert(0 <= j < i + 1);
                    }
                    assert(scrip_sum(s.take(i as int), k) == 0);
                    assert(s.take(i + 1).last() == s[i as int]);
                }
            }
        } else {
            proof {
                assert forall|k: Seq<char>|
                    #[trigger] crate::strmap::lookup(by_name@, k) == if exists|j: int| 0 <= j < i + 1 && scrip_counts(s[j], k) {
                        Some(scrip_sum(s.take(i + 1), k) as i64)
                    } else {
                        None
                    } by {
                    assert(!scrip_counts(s[i as int], k));
                    if exists|j: int| 0 <= j < i + 1 && scrip_counts(s[j], k) {
                        let j = choose|j: int| 0 <= j < i + 1 && scrip_counts(s[j], k);
                        assert(j < i);
                    }
                }
                assert forall|k: Seq<char>|
                    !(exists|j: int| 0 <= j < i + 1 && scrip_counts(s[j], k)) implies #[trigger] scrip_sum(s.take(i + 1), k) == 0 by {
                    assert(!scrip_counts(s[i as int], k));
                    assert forall|j: int| 0 <= j < i implies !scrip_counts(s[j], k) by {
                        assert(0 <= j < i + 1);
                    }
                    assert(scrip_sum(s.take(i as int), k) == 0);
                    assert(s.take(i + 1).last() == s[i as int]);
                }
            }
        }
        i = i + 1;
    }
    assert(s.take(s.len() as int) =~= s);
    if by_name.len() == 0 {
        proof {
            assert forall|q: int| 0 <= q < s.len() implies (#[trigger] s[q]).amount <= 0 by {
                if s[q].amount > 0 {
                    assert(scrip_counts(s[q], scrip_name(s[q])));
                    assert(crate::strmap::lookup(by_name@, scrip_name(s[q])) is Some);
                }
            }
        }
        return None;
    }
    let ghost m = by_name@;
    let ghost ns = m.map_values(|e: (Seq<char>, i64)| e.0);
    let mut parts: Vec<String> = Vec::new();
    let mut q: usize = 0;
    while q < by_name.len()
        invariant
            by_name.wf(),
            m == by_name@,
            q <= m.len(),
            parts@.len() == q,
            forall|a: int| 0 <= a < q ==> (#[trigger] parts@[a])@ == scrip_part(m[a].0, m[a].1 as int),
        decreases m.len() - q,
    {
        let name = by_name.key_at(q);
        let amount = *by_name.value_at(q);
        let mut p = String::new();
        push_i64(&mut p, amount);
        p.append(" ");
        proof {
            reveal_strlit("");
        }
        if str_eq(name, "") {
            assert(name@.len() == 0);
            p.append("scrip");
        } else {
            assert(name@.len() != 0) by {
                if name@.len() == 0 {
                    assert(name@ =~= ""@);
                }
            }
            p.append(name);
        }
        assert(p@ == scrip_part(m[q as int].0, m[q as int].1 as int));
        parts.push(p);
        q = q + 1;
    }
    let joined = join_strings(&parts, ", ");
    let mut out = String::new();
    out.append("Scrip: ");
    out.append(joined.as_str());
    proof {
        by_name.lemma_wf_sorted();
        assert forall|a: int| 0 <= a < m.len() implies (#[trigger] m[a]).1 as int == scrip_sum(s, m[a].0) by {
            crate::strmap::lemma_lookup_at(m, a);
            lemma_scrip_bounds(s, s.len() as int, m[a].0);
        }
        assert(crate::text::texts_of(parts@) =~= ns.map_values(|n: Seq<char>| scrip_part(n, scrip_sum(s, n))));
        assert forall|n: Seq<char>| #[trigger] ns.contains(n) <==> exists|j: int| 0 <= j < s.len() && scrip_counts(s[j], n) by {
            if ns.contains(n) {
                let a = choose|a: int| 0 <= a < ns.len() && ns[a] == n;
                crate::strmap::lemma_lookup_at(m, a);
            }
            if exists|j: int| 0 <= j < s.len() && scrip_counts(s[j], n) {
                assert(crate::strmap::lookup(m, n) is Some);
                let a = choose|a: int| 0 <= a < m.len() && m[a].0 == n;
                assert(ns[a] == n);
            }
        }
        assert forall|a: int, b: int| 0 <= a < b < ns.len() implies crate::text::lex_lt(ns[a], ns[b]) by {
            assert(ns[a] == m[a].0 && ns[b] == m[b].0);
        }
        assert(scrip_names(s, ns));
        assert(out@ == scrip_text(s, ns));
        crate::strmap::lemma_lookup_at(m, 0);
        let j = choose|j: int| 0 <= j < s.len() && scrip_counts(s[j], m[0].0);
        assert(s[j].amount > 0);
    }
    Some(out)
}

// ── Variant lines ───────────────────────────────────────────────────────────

/// The names present in a list of optional names, in list order.
pub open spec fn present_names(ns: Seq<Option<String>>) -> Seq<Seq<char>>
    decreases ns.len(),
{
    if ns.len() == 0 {
        Seq::empty()
    } else {
        present_names(ns.drop_last()) + match ns.last() {
            Some(n) => seq![n@],
            None => Seq::empty(),
        }
    }
}

/// The sort keys of `names` by their lowercase, in list order.
pub open spec fn lowercase_keys(names: Seq<Seq<char>>) -> Seq<(int, Seq<char>, Seq<char>, int)> {
    Seq::new(names.len(), |i: int| (0int, crate::queries::lowercase_of(names[i]), Seq::<char>::empty(), i))
}

/// `names` sorted by their lowercase, equal keys in list order.
pub open spec fn sorted_by_lowercase(names: Seq<Seq<char>>) -> Seq<Seq<char>> {
    crate::sorting::sort_keyed(lowercase_keys(names)).map_values(
        |k: (int, Seq<char>, Seq<char>, int)| names[k.3],
    )
}

/// The names of `ns` that are present.
fn present_names_of(ns: &Vec<Option<String>>) -> (r: Vec<String>)
    ensures
        texts_of(r@) == present_names(ns@),
{
    let mut out: Vec<String> = Vec::new();
    let mut i: usize = 0;
    while i < ns.len()
        invariant
            i <= ns@.len(),
            texts_of(out@) == present_names(ns@.take(i as int)),
        decreases ns@.len() - i,
    {
        proof {
            assert(ns@.take(i + 1).drop_last() =~= ns@.take(i as int));
        }
        match &ns[i] {
            Some(n) => {
                out.push(n.clone());
                assert(texts_of(out@) =~= present_names(ns@.take(i + 1)));
            },
            None => {
                assert(texts_of(out@) =~= present_names(ns@.take(i + 1)));
            },
        }
        i = i + 1;
    }
    assert(ns@.take(ns@.len() as int) =~= ns@);
    out
}

/// `names` sorted by their lowercase (`sort_by_key` on `to_lowercase`,
/// which keeps equal keys in order).
fn sort_by_lowercase(names: &Vec<String>) -> (r: Vec<String>)
    ensures
        texts_of(r@) == sorted_by_lowercase(texts_of(names@)),
{
    let ghost tn = texts_of(names@);
    let mut keyed: Vec<crate::sorting::Keyed> = Vec::new();
    let mut i: usize = 0;
    while i < names.len()
        invariant
            i <= names@.len(),
            tn == texts_of(names@),
            crate::sorting::keyed_views(keyed@) == lowercase_keys(tn).take(i as int),
        decreases names@.len() - i,
    {
        assert(lowercase_keys(tn).take(i as int).len() == i);
        assert(crate::sorting::keyed_views(keyed@).len() == keyed@.len());
        assert(keyed@.len() == i);
        let key = crate::queries::lowercase(names[i].as_str());
        let ghost before = keyed@;
        let empty = String::new();
        assert(empty@ == Seq::<char>::empty());
        keyed.push(crate::sorting::Keyed { rank: 0, primary: key, secondary: empty, index: i });
        proof {
            assert(keyed@ == before.push(keyed@[i as int]));
            assert(tn[i as int] == names@[i as int]@);
            assert(crate::sorting::keyed_view(keyed@[i as int]) == lowercase_keys(tn)[i as int]);
            assert forall|q: int| 0 <= q < i + 1 implies #[trigger] crate::sorting::keyed_views(keyed@)[q] == lowercase_keys(tn).take(i + 1)[q] by {
                if q < i {
                    assert(keyed@[q] == before[q]);
                    assert(crate::sorting::keyed_views(before)[q] == lowercase_keys(tn).take(i as int)[q]);
                }
            }
        }
        assert(crate::sorting::keyed_views(keyed@) =~= lowercase_keys(tn).take(i + 1));
        i = i + 1;
    }
    assert(lowercase_keys(tn).take(names@.len() as int) =~= lowercase_keys(tn));
    let sorted = crate::sorting::sort_entries(keyed);
    let ghost sk = crate::sorting::sort_keyed(lowercase_keys(tn));
    proof {
        crate::sorting::lemma_sort_members(lowercase_keys(tn));
    }
    let mut out: Vec<String> = Vec::new();
    let mut j: usize = 0;
    while j < sorted.len()
        invariant
            j <= sorted@.len(),
            tn == texts_of(names@),
            crate::sorting::keyed_views(sorted@) == sk,
            sk == crate::sorting::sort_keyed(lowercase_keys(tn)),
            sk.len() == tn.len(),
            forall|q: int| 0 <= q < sk.len() ==> lowercase_keys(tn).contains(#[trigger] sk[q]),
            texts_of(out@) == sk.take(j as int).map_values(|k: (int, Seq<char>, Seq<char>, int)| tn[k.3]),
        decreases sorted@.len() - j,
    {
        assert(sk.take(j as int).map_values(|k: (int, Seq<char>, Seq<char>, int)| tn[k.3]).len() == j);
        assert(texts_of(out@).len() == out@.len());
        assert(out@.len() == j);
        let idx = sorted[j].index;
        proof {
            assert(crate::sorting::keyed_views(sorted@)[j as int] == sk[j as int]);
            assert(lowercase_keys(tn).contains(sk[j as int]));
            let w = choose|w: int| 0 <= w < lowercase_keys(tn).len() && lowercase_keys(tn)[w] == sk[j as int];
            assert(idx as int == w);
        }
        let ghost before = out@;
        out.push(names[idx].clone());
        proof {
            assert(out@[j as int]@ == tn[sk[j as int].3]);
            assert forall|q: int| 0 <= q < j + 1 implies #[trigger] texts_of(out@)[q] == sk.take(j + 1).map_values(
                |k: (int, Seq<char>, Seq<char>, int)| tn[k.3],
            )[q] by {
                if q < j {
                    assert(out@[q] == before[q]);
                    assert(texts_of(before)[q] == sk.take(j as int).map_values(|k: (int, Seq<char>, Seq<char>, int)| tn[k.3])[q]);
                }
            }
        }
        assert(texts_of(out@) =~= sk.take(j + 1).map_values(|k: (int, Seq<char>, Seq<char>, int)| tn[k.3]));
        j = j + 1;
    }
    assert(sk.take(sk.len() as int) =~= sk);
    out
}

/// One blueprint pool a mission rewards: the chance in whole percent
/// when it is below certain (the caller truncates the fractional chance),
/// and the blueprints' display names where known.
pub struct BlueprintPoolFacts {
    pub chance_percent: Option<i32>,
    pub names: Vec<Option<String>>,
}

/// A mission's rendered encounter block: the body, the summed spawn range
/// and the uniform combat class.
pub struct EncounterRendering {
    pub body: String,
    pub ship_range: (i32, i32),
    pub combat_class: Option<String>,
}

/// What the per-variant lines read of one pool member.
pub struct MissionFacts {
    /// The `Cooldown: …` line, rendered by the caller from the cooldown
    /// duration; `None` when the mission has no cooldown.
    pub cooldown_line: Option<String>,
    /// Reputation reward amounts, where known.
    pub reputation: Vec<Option<i32>>,
    pub scrip: Vec<ScripFacts>,
    pub payout: PayoutFacts,
    pub blueprint_rewards: Vec<BlueprintPoolFacts>,
    pub shareable: bool,
    pub once_only: bool,
    pub illegal: bool,
    pub encounters: Vec<MissionEncounter>,
}

/// The pool-wide facts the per-variant lines compare against.
pub struct PoolFacts {
    pub blueprint_state: BlueprintState,
    pub shareable: TriState,
    pub once_only: TriState,
    pub illegal: TriState,
    pub uec_consistent: bool,
    pub scrip_consistent: bool,
    pub rep_consistent: bool,
    pub cooldowns_consistent: bool,
    pub encounters_consistent: bool,
}

/// Which description blocks are on.
#[derive(Clone, Copy)]
pub struct DescOptions {
    pub blueprint_list: bool,
    pub mission_info: bool,
    pub ship_encounters: bool,
    pub cargo_info: bool,
    pub region_info: bool,
}

/// `o`'s text, or `dflt`.
pub open spec fn or_text(o: Option<Seq<char>>, dflt: Seq<char>) -> Seq<char> {
    match o {
        Some(t) => t,
        None => dflt,
    }
}

/// ` (N% chance)` for a chance below certain.
pub open spec fn chance_text(p: Option<i32>) -> Seq<char> {
    match p {
        Some(n) => " ("@ + dec_int(n as int) + "% chance)"@,
        None => Seq::empty(),
    }
}

/// The lines of one blueprint pool: a header and one bullet per name,
/// names by their lowercase; a placeholder for a pool without names.
pub open spec fn pool_lines(bp: BlueprintPoolFacts) -> Seq<Seq<char>> {
    let names = sorted_by_lowercase(present_names(bp.names@));
    if names.len() == 0 {
        seq!["Blueprints: (pool empty)"@]
    } else {
        seq!["Blueprints"@ + chance_text(bp.chance_percent) + ":"@] + names.map_values(|n: Seq<char>| "- "@ + n)
    }
}

/// The lines of several blueprint pools, in order.
pub open spec fn pools_lines(bps: Seq<BlueprintPoolFacts>) -> Seq<Seq<char>>
    decreases bps.len(),
{
    if bps.len() == 0 {
        Seq::empty()
    } else {
        pools_lines(bps.drop_last()) + pool_lines(bps.last())
    }
}

/// `xs` when `c`, else nothing.
pub open spec fn lines_if(c: bool, xs: Seq<Seq<char>>) -> Seq<Seq<char>> {
    if c {
        xs
    } else {
        Seq::empty()
    }
}

/// The encounter line of a variant: heading, `:`, and the body indented
/// under it.
pub open spec fn encounter_line(body: Seq<char>, range: (int, int), class: Option<Seq<char>>) -> Seq<char> {
    encounter_heading_spec(range.0 as i32, range.1 as i32, class) + ":"@ + crate::format::NEWLINE@ + "  "@
        + crate::toml_patcher::replace_all(body, crate::format::NEWLINE@, crate::format::NEWLINE@ + "  "@)
}

/// The mission-info lines a pool disagrees on, each with its fallback
/// text; `scrip` is the member's scrip line.
pub open spec fn info_lines_spec(f: PoolFacts, m: MissionFacts, opts: DescOptions, scrip: Option<Seq<char>>) -> Seq<
    Seq<char>,
> {
    let info = opts.mission_info;
    lines_if(info && !f.cooldowns_consistent, seq![or_text(opt_view(m.cooldown_line), "No cooldown"@)])
        + lines_if(info && !f.rep_consistent, seq![or_text(rep_line_spec(m.reputation@), "No rep reward"@)])
        + lines_if(info && !f.scrip_consistent, seq![or_text(scrip, "No scrip"@)])
        + lines_if(info && !f.uec_consistent, seq![or_text(uec_line_spec(m.payout), "UEC: calculated"@)])
}

/// The member's blueprint pools, when the pool's members differ in them.
pub open spec fn blueprint_lines_spec(f: PoolFacts, m: MissionFacts, opts: DescOptions) -> Seq<Seq<char>> {
    lines_if(
        opts.blueprint_list && (f.blueprint_state is AllDifferentPools || f.blueprint_state is MixedPresence),
        if m.blueprint_rewards@.len() == 0 {
            seq!["No blueprint"@]
        } else {
            pools_lines(m.blueprint_rewards@)
        },
    )
}

/// The member's flags that are mixed across the pool.
pub open spec fn flag_lines_spec(f: PoolFacts, m: MissionFacts) -> Seq<Seq<char>> {
    lines_if(
        f.shareable is Mixed,
        seq![
            if m.shareable {
                "Shareable"@
            } else {
                "Solo only"@
            },
        ],
    ) + lines_if(f.once_only is Mixed && m.once_only, seq!["One-time only"@]) + lines_if(
        f.illegal is Mixed && m.illegal,
        seq!["Illegal"@],
    )
}

/// The member's encounters, when their shape differs across the pool.
pub open spec fn encounter_lines_spec(
    f: PoolFacts,
    m: MissionFacts,
    prefixes: Seq<Seq<char>>,
    opts: DescOptions,
) -> Seq<Seq<char>> {
    let body = join_with(encounters_lines_spec(m.encounters@, prefixes, opts.cargo_info), crate::format::NEWLINE@);
    lines_if(
        opts.ship_encounters && !f.encounters_consistent && m.encounters@.len() > 0 && body.len() > 0,
        seq![encounter_line(body, encounters_range(m.encounters@), uniform_class(m.encounters@))],
    )
}

/// The lines that tell one pool member apart from the others: each
/// mission-info line the pool disagrees on, the blueprint pools when they
/// differ, the flags that are mixed, and the encounters when their shape
/// differs. `scrip` is the member's scrip line.
pub open spec fn variant_diff_spec(
    f: PoolFacts,
    m: MissionFacts,
    prefixes: Seq<Seq<char>>,
    opts: DescOptions,
    scrip: Option<Seq<char>>,
) -> Seq<Seq<char>> {
    info_lines_spec(f, m, opts, scrip) + blueprint_lines_spec(f, m, opts) + flag_lines_spec(f, m)
        + encounter_lines_spec(f, m, prefixes, opts)
}

/// A pool whose members agree on everything has nothing to tell its
/// variants apart by: every per-variant line is conditional on a fact the
/// pool disagrees on.
pub proof fn lemma_consistent_pool_has_no_variant_lines(
    f: PoolFacts,
    m: MissionFacts,
    prefixes: Seq<Seq<char>>,
    opts: DescOptions,
    scrip: Option<Seq<char>>,
)
    requires
        f.uec_consistent && f.scrip_consistent && f.rep_consistent && f.cooldowns_consistent
            && f.encounters_consistent,
        !(f.blueprint_state is AllDifferentPools || f.blueprint_state is MixedPresence),
        f.shareable !is Mixed && f.once_only !is Mixed && f.illegal !is Mixed,
    ensures
        variant_diff_spec(f, m, prefixes, opts, scrip) == Seq::<Seq<char>>::empty(),
{
    assert(variant_diff_spec(f, m, prefixes, opts, scrip) =~= Seq::<Seq<char>>::empty());
}

/// The lines of one blueprint pool.
fn pool_lines_exec(bp: &BlueprintPoolFacts) -> (r: Vec<String>)
    ensures
        texts_of(r@) == pool_lines(*bp),
{
    let present = present_names_of(&bp.names);
    let names = sort_by_lowercase(&present);
    let mut out: Vec<String> = Vec::new();
    if names.len() == 0 {
        out.push("Blueprints: (pool empty)".to_string());
        assert(texts_of(out@) =~= pool_lines(*bp));
        return out;
    }
    let mut head = String::new();
    head.append("Blueprints");
    if let Some(p) = bp.chance_percent {
        head.append(" (");
        push_i64(&mut head, p as i64);
        head.append("% chance)");
    }
    head.append(":");
    assert(head@ == "Blueprints"@ + chance_text(bp.chance_percent) + ":"@);
    out.push(head);
    let ghost tn = texts_of(names@);
    assert(texts_of(out@) =~= seq!["Blueprints"@ + chance_text(bp.chance_percent) + ":"@] + tn.take(0).map_values(
        |n: Seq<char>| "- "@ + n,
    ));
    let mut i: usize = 0;
    while i < names.len()
        invariant
            i <= names@.len(),
            tn == texts_of(names@),
            out@.len() == i + 1,
            texts_of(out@) == seq!["Blueprints"@ + chance_text(bp.chance_percent) + ":"@] + tn.take(i as int).map_values(
                |n: Seq<char>| "- "@ + n,
            ),
        decreases names@.len() - i,
    {
        let line = crate::format::bullet(names[i].as_str());
        let ghost before = out@;
        out.push(line);
        proof {
            assert forall|q: int| 0 <= q < i + 2 implies #[trigger] texts_of(out@)[q] == (seq![
                "Blueprints"@ + chance_text(bp.chance_percent) + ":"@,
            ] + tn.take(i + 1).map_values(|n: Seq<char>| "- "@ + n))[q] by {
                if q < i + 1 {
                    assert(out@[q] == before[q]);
                    assert(texts_of(before)[q] == (seq!["Blueprints"@ + chance_text(bp.chance_percent) + ":"@] + tn.take(
                        i as int,
                    ).map_values(|n: Seq<char>| "- "@ + n))[q]);
                }
            }
        }
        assert(texts_of(out@) =~= seq!["Blueprints"@ + chance_text(bp.chance_percent) + ":"@] + tn.take(i + 1).map_values(
            |n: Seq<char>| "- "@ + n,
        ));
        i = i + 1;
    }
    assert(tn.take(tn.len() as int) =~= tn);
    out
}

/// The mission-info lines of `m` its pool disagrees on.
fn info_lines(facts: &PoolFacts, m: &MissionFacts, opts: DescOptions, sc: &Option<String>) -> (r: Vec<String>)
    requires
        rep_total(m.reputation@) <= i32::MAX,
    ensures
        texts_of(r@) == info_lines_spec(*facts, *m, opts, opt_view(*sc)),
{
    let mut lines: Vec<String> = Vec::new();
    let info = opts.mission_info;
    if info && !facts.cooldowns_consistent {
        lines.push(
            match &m.cooldown_line {
                Some(l) => l.clone(),
                None => "No cooldown".to_string(),
            },
        );
    }
    if info && !facts.rep_consistent {
        lines.push(
            match rep_line(m) {
                Some(l) => l,
                None => "No rep reward".to_string(),
            },
        );
    }
    if info && !facts.scrip_consistent {
        lines.push(
            match sc {
                Some(l) => l.clone(),
                None => "No scrip".to_string(),
            },
        );
    }
    if info && !facts.uec_consistent {
        lines.push(
            match uec_line(m) {
                Some(l) => l,
                None => "UEC: calculated".to_string(),
            },
        );
    }
    assert(texts_of(lines@) =~= info_lines_spec(*facts, *m, opts, opt_view(*sc)));
    lines
}

/// The blueprint lines of `m`, when its pool's members differ in them.
fn blueprint_lines(facts: &PoolFacts, m: &MissionFacts, opts: DescOptions) -> (r: Vec<String>)
    ensures
        texts_of(r@) == blueprint_lines_spec(*facts, *m, opts),
{
    let mut lines: Vec<String> = Vec::new();
    let bp_mixed = match facts.blueprint_state {
        BlueprintState::AllDifferentPools => true,
        BlueprintState::MixedPresence => true,
        _ => false,
    };
    if opts.blueprint_list && bp_mixed {
        if m.blueprint_rewards.len() == 0 {
            lines.push("No blueprint".to_string());
        } else {
            let mut k: usize = 0;
            assert(texts_of(lines@) =~= pools_lines(m.blueprint_rewards@.take(0)));
            while k < m.blueprint_rewards.len()
                invariant
                    k <= m.blueprint_rewards@.len(),
                    texts_of(lines@) == pools_lines(m.blueprint_rewards@.take(k as int)),
                decreases m.blueprint_rewards@.len() - k,
            {
                let mut more = pool_lines_exec(&m.blueprint_rewards[k]);
                let ghost before = lines@;
                let ghost added = more@;
                lines.append(&mut more);
                proof {
                    assert(m.blueprint_rewards@.take(k + 1).drop_last() =~= m.blueprint_rewards@.take(k as int));
                    assert(texts_of(before + added) =~= texts_of(before) + texts_of(added));
                }
                k = k + 1;
            }
            assert(m.blueprint_rewards@.take(m.blueprint_rewards@.len() as int) =~= m.blueprint_rewards@);
        }
    }
    assert(texts_of(lines@) =~= blueprint_lines_spec(*facts, *m, opts));
    lines
}

/// The flag lines of `m` for the flags mixed across its pool.
fn flag_lines(facts: &PoolFacts, m: &MissionFacts) -> (r: Vec<String>)
    ensures
        texts_of(r@) == flag_lines_spec(*facts, *m),
{
    let mut lines: Vec<String> = Vec::new();
    let shareable_mixed = match facts.shareable {
        TriState::Mixed => true,
        _ => false,
    };
    if shareable_mixed {
        lines.push(
            if m.shareable {
                "Shareable".to_string()
            } else {
                "Solo only".to_string()
            },
        );
    }
    let once_mixed = match facts.once_only {
        TriState::Mixed => true,
        _ => false,
    };
    if once_mixed && m.once_only {
        lines.push("One-time only".to_string());
    }
    let illegal_mixed = match facts.illegal {
        TriState::Mixed => true,
        _ => false,
    };
    if illegal_mixed && m.illegal {
        lines.push("Illegal".to_string());
    }
    assert(texts_of(lines@) =~= flag_lines_spec(*facts, *m));
    lines
}

/// The encounter line of `m`, when its encounters' shape differs across
/// its pool.
fn encounter_lines(facts: &PoolFacts, m: &MissionFacts, prefixes: &Vec<String>, opts: DescOptions) -> (r: Vec<
    String,
>)
    requires
        encounters_range(m.encounters@).0 <= i32::MAX,
        encounters_range(m.encounters@).1 <= i32::MAX,
    ensures
        texts_of(r@) == encounter_lines_spec(*facts, *m, texts_of(prefixes@), opts),
{
    let mut lines: Vec<String> = Vec::new();
    if opts.ship_encounters && !facts.encounters_consistent && m.encounters.len() > 0 {
        let er = render_encounters(&m.encounters, prefixes, opts.cargo_info);
        let body = chars_of(er.body.as_str());
        if body.len() > 0 {
            let heading = format_encounter_heading(er.ship_range, &er.combat_class);
            let nl = chars_of(crate::format::NEWLINE);
            let mut indent = String::new();
            indent.append(crate::format::NEWLINE);
            indent.append("  ");
            let ind = chars_of(indent.as_str());
            proof {
                reveal_strlit("\\n");
            }
            let replaced = crate::toml_patcher::replace_all_exec(&body, &nl, &ind);
            let mut line = heading;
            line.append(":");
            line.append(crate::format::NEWLINE);
            line.append("  ");
            line.append(replaced.as_str());
            lines.push(line);
        }
    }
    assert(texts_of(lines@) =~= encounter_lines_spec(*facts, *m, texts_of(prefixes@), opts));
    lines
}

/// The lines that tell pool member `m` apart from the rest of its pool
/// (see [`variant_diff_spec`]).
pub fn variant_diff_lines(
    facts: &PoolFacts,
    m: &MissionFacts,
    manufacturer_prefixes: &Vec<String>,
    opts: DescOptions,
) -> (r: Vec<String>)
    requires
        rep_total(m.reputation@) <= i32::MAX,
        scrip_total(m.scrip@) <= i32::MAX,
        encounters_range(m.encounters@).0 <= i32::MAX,
        encounters_range(m.encounters@).1 <= i32::MAX,
    ensures
        exists|sc: Option<Seq<char>>| #[trigger] scrip_line_ok(m.scrip@, sc) && texts_of(r@) == variant_diff_spec(
            *facts,
            *m,
            texts_of(manufacturer_prefixes@),
            opts,
            sc,
        ),
{
    let sc = scrip_line(m);
    let mut lines = info_lines(facts, m, opts, &sc);
    let mut b = blueprint_lines(facts, m, opts);
    let mut fl = flag_lines(facts, m);
    let mut en = encounter_lines(facts, m, manufacturer_prefixes, opts);
    let ghost (l0, b0, f0, e0) = (lines@, b@, fl@, en@);
    lines.append(&mut b);
    lines.append(&mut fl);
    lines.append(&mut en);
    proof {
        assert(lines@ == l0 + b0 + f0 + e0);
        assert(texts_of(l0 + b0 + f0 + e0) =~= texts_of(l0) + texts_of(b0) + texts_of(f0) + texts_of(e0));
        assert(scrip_line_ok(m.scrip@, opt_view(sc)));
    }
    lines
}

// ── Encounters ──────────────────────────────────────────────────────────────

/// One spawn slot of a wave: a count range, the candidate ships (the
/// engine picks one per spawn) and the factions.
pub struct ShipSlot {
    pub count_min: i32,
    pub count_max: i32,
    pub ships: Vec<String>,
    pub factions: Vec<String>,
}

/// One wave of an encounter.
pub struct MissionWave {
    pub name: String,
    pub ships: Vec<ShipSlot>,
    pub cargo: Vec<String>,
}

/// One encounter of a mission: its variable name, its combat class and
/// its waves.
pub struct MissionEncounter {
    pub label: String,
    pub difficulty: Option<String>,
    pub waves: Vec<MissionWave>,
}

/// The line of one slot: a bullet with the count and the compacted ship
/// pool, and the factions in parentheses when there are any.
pub open spec fn slot_line_spec(slot: ShipSlot, prefixes: Seq<Seq<char>>) -> Seq<char> {
    "- "@ + count_and_pool_spec(
        slot.count_min,
        slot.count_max,
        collapse_spec(texts_of(slot.ships@).map_values(|n: Seq<char>| strip_first_prefix(n, prefixes))),
    ) + if slot.factions@.len() > 0 {
        " ("@ + join_with(texts_of(slot.factions@), ", "@) + ")"@
    } else {
        Seq::empty()
    }
}

/// The label line's text of wave `i` of an encounter labelled `label`
/// (already prettified): the wave's name, or `Wave N`, after the label
/// when the encounter has several waves.
pub open spec fn wave_label_spec(label: Seq<char>, w: MissionWave, i: int, multi_wave: bool) -> Seq<char> {
    if !multi_wave {
        label
    } else {
        let wave_part = if pretty_spec(w.name@).len() > 0 {
            pretty_spec(w.name@)
        } else {
            "Wave "@ + dec_int(i + 1)
        };
        if label.len() == 0 {
            wave_part
        } else {
            label + " — "@ + wave_part
        }
    }
}

/// The lines of wave `i`: its label underlined (when there is one), one
/// line per slot, and its cargo when asked for.
pub open spec fn wave_lines_spec(
    label: Seq<char>,
    w: MissionWave,
    i: int,
    multi_wave: bool,
    prefixes: Seq<Seq<char>>,
    include_cargo: bool,
) -> Seq<Seq<char>> {
    let l = wave_label_spec(label, w, i, multi_wave);
    lines_if(l.len() > 0, seq![crate::format::colored(Color::Underline, l)]) + w.ships@.map_values(
        |slot: ShipSlot| slot_line_spec(slot, prefixes),
    ) + lines_if(
        include_cargo && w.cargo@.len() > 0,
        seq!["Cargo: "@ + join_with(texts_of(w.cargo@).map_values(|c: Seq<char>| pretty_spec(c)), ", "@)],
    )
}

proof fn lemma_texts_push(v: Seq<String>, x: String)
    ensures
        texts_of(v.push(x)) == texts_of(v).push(x@),
{
    assert(texts_of(v.push(x)) =~= texts_of(v).push(x@));
}

/// The line of one slot.
fn slot_line(slot: &ShipSlot, prefixes: &Vec<String>) -> (r: String)
    ensures
        r@ == slot_line_spec(*slot, texts_of(prefixes@)),
{
    let names = compact_ship_names(&slot.ships, prefixes);
    let mut line = crate::format::bullet(compose_count_and_pool(slot.count_min, slot.count_max, &names).as_str());
    if slot.factions.len() > 0 {
        line.append(" (");
        line.append(join_strings(&slot.factions, ", ").as_str());
        line.append(")");
    }
    line
}

/// The lines of wave `i` of an encounter whose prettified label is `label`.
fn wave_lines(
    label: &String,
    w: &MissionWave,
    i: usize,
    multi_wave: bool,
    prefixes: &Vec<String>,
    include_cargo: bool,
) -> (r: Vec<String>)
    requires
        i < usize::MAX,
    ensures
        texts_of(r@) == wave_lines_spec(label@, *w, i as int, multi_wave, texts_of(prefixes@), include_cargo),
{
    let mut lines: Vec<String> = Vec::new();
    let mut l = label.clone();
    if multi_wave {
        let wave_name = pretty_identifier(w.name.as_str());
        let wave_part = if wave_name.as_str().is_empty() {
            let mut t = String::new();
            t.append("Wave ");
            push_u64(&mut t, (i as u64) + 1);
            t
        } else {
            wave_name
        };
        if l.as_str().is_empty() {
            l = wave_part;
        } else {
            l.append(" — ");
            l.append(wave_part.as_str());
        }
    }
    assert(l@ == wave_label_spec(label@, *w, i as int, multi_wave));
    if !l.as_str().is_empty() {
        lines.push(apply_color(Color::Underline, l.as_str()));
    }
    let ghost head = texts_of(lines@);
    assert(head =~= lines_if(l@.len() > 0, seq![crate::format::colored(Color::Underline, l@)]));
    let mut k: usize = 0;
    while k < w.ships.len()
        invariant
            k <= w.ships@.len(),
            texts_of(lines@) == head + w.ships@.take(k as int).map_values(
                |slot: ShipSlot| slot_line_spec(slot, texts_of(prefixes@)),
            ),
        decreases w.ships@.len() - k,
    {
        let line = slot_line(&w.ships[k], prefixes);
        let ghost before = lines@;
        lines.push(line);
        proof {
            lemma_texts_push(before, line);
            assert(w.ships@.take(k + 1).map_values(|slot: ShipSlot| slot_line_spec(slot, texts_of(prefixes@)))
                =~= w.ships@.take(k as int).map_values(|slot: ShipSlot| slot_line_spec(slot, texts_of(prefixes@))).push(
                slot_line_spec(w.ships@[k as int], texts_of(prefixes@)),
            ));
        }
        assert(texts_of(lines@) =~= head + w.ships@.take(k + 1).map_values(
            |slot: ShipSlot| slot_line_spec(slot, texts_of(prefixes@)),
        ));
        k = k + 1;
    }
    assert(w.ships@.take(w.ships@.len() as int) =~= w.ships@);
    if include_cargo && w.cargo.len() > 0 {
        let mut pretty: Vec<String> = Vec::new();
        let mut c: usize = 0;
        while c < w.cargo.len()
            invariant
                c <= w.cargo@.len(),
                texts_of(pretty@) == texts_of(w.cargo@).take(c as int).map_values(|x: Seq<char>| pretty_spec(x)),
            decreases w.cargo@.len() - c,
        {
            let pc = pretty_identifier(w.cargo[c].as_str());
            let ghost before = pretty@;
            pretty.push(pc);
            proof {
                lemma_texts_push(before, pc);
                assert(texts_of(w.cargo@).take(c + 1).map_values(|x: Seq<char>| pretty_spec(x)) =~= texts_of(
                    w.cargo@,
                ).take(c as int).map_values(|x: Seq<char>| pretty_spec(x)).push(pretty_spec(w.cargo@[c as int]@)));
            }
            assert(texts_of(pretty@) =~= texts_of(w.cargo@).take(c + 1).map_values(|x: Seq<char>| pretty_spec(x)));
            c = c + 1;
        }
        assert(texts_of(w.cargo@).take(w.cargo@.len() as int) =~= texts_of(w.cargo@));
        let mut line = String::new();
        line.append("Cargo: ");
        line.append(join_strings(&pretty, ", ").as_str());
        let ghost before = lines@;
        lines.push(line);
        proof {
            lemma_texts_push(before, line);
        }
    }
    assert(texts_of(lines@) =~= wave_lines_spec(label@, *w, i as int, multi_wave, texts_of(prefixes@), include_cargo));
    lines
}

/// `n` when positive, else 0.
pub open spec fn nonneg(n: i32) -> int {
    if n > 0 {
        n as int
    } else {
        0
    }
}

/// The summed lower and upper spawn counts of a wave's slots.
pub open spec fn slots_range(slots: Seq<ShipSlot>) -> (int, int)
    decreases slots.len(),
{
    if slots.len() == 0 {
        (0, 0)
    } else {
        let r = slots_range(slots.drop_last());
        (r.0 + nonneg(slots.last().count_min), r.1 + nonneg(slots.last().count_max))
    }
}

/// An encounter's spawn range: the largest wave's, bound by bound.
pub open spec fn waves_range(waves: Seq<MissionWave>) -> (int, int)
    decreases waves.len(),
{
    if waves.len() == 0 {
        (0, 0)
    } else {
        let r = waves_range(waves.drop_last());
        let w = slots_range(waves.last().ships@);
        (if w.0 > r.0 { w.0 } else { r.0 }, if w.1 > r.1 { w.1 } else { r.1 })
    }
}

/// The summed spawn range of several encounters.
pub open spec fn encounters_range(es: Seq<MissionEncounter>) -> (int, int)
    decreases es.len(),
{
    if es.len() == 0 {
        (0, 0)
    } else {
        let r = encounters_range(es.drop_last());
        let e = waves_range(es.last().waves@);
        (r.0 + e.0, r.1 + e.1)
    }
}

/// The lines of an encounter's waves, in order.
pub open spec fn waves_lines_spec(
    label: Seq<char>,
    ws: Seq<MissionWave>,
    multi_wave: bool,
    prefixes: Seq<Seq<char>>,
    include_cargo: bool,
) -> Seq<Seq<char>>
    decreases ws.len(),
{
    if ws.len() == 0 {
        Seq::empty()
    } else {
        waves_lines_spec(label, ws.drop_last(), multi_wave, prefixes, include_cargo) + wave_lines_spec(
            label,
            ws.last(),
            ws.len() - 1,
            multi_wave,
            prefixes,
            include_cargo,
        )
    }
}

/// The lines of several encounters, in order.
pub open spec fn encounters_lines_spec(es: Seq<MissionEncounter>, prefixes: Seq<Seq<char>>, include_cargo: bool) -> Seq<
    Seq<char>,
>
    decreases es.len(),
{
    if es.len() == 0 {
        Seq::empty()
    } else {
        encounters_lines_spec(es.drop_last(), prefixes, include_cargo) + waves_lines_spec(
            pretty_spec(es.last().label@),
            es.last().waves@,
            es.last().waves@.len() > 1,
            prefixes,
            include_cargo,
        )
    }
}

/// Some encounter has combat class `d`.
pub open spec fn has_class(es: Seq<MissionEncounter>, d: Seq<char>) -> bool {
    exists|i: int| 0 <= i < es.len() && opt_view(#[trigger] es[i].difficulty) == Some(d)
}

/// Every encounter with a combat class has `d`.
pub open spec fn only_class(es: Seq<MissionEncounter>, d: Seq<char>) -> bool {
    forall|i: int| 0 <= i < es.len() && (#[trigger] es[i].difficulty) is Some ==> opt_view(es[i].difficulty) == Some(d)
}

/// The combat class of the encounters: the one class they name, or `None`
/// when they name none or several.
pub open spec fn uniform_class(es: Seq<MissionEncounter>) -> Option<Seq<char>> {
    if exists|d: Seq<char>| #[trigger] has_class(es, d) && only_class(es, d) {
        Some(choose|d: Seq<char>| #[trigger] has_class(es, d) && only_class(es, d))
    } else {
        None
    }
}

/// A prefix of the slots spawns no more than all of them, and no fewer
/// than none.
proof fn lemma_slots_prefix(slots: Seq<ShipSlot>, n: int)
    requires
        0 <= n <= slots.len(),
    ensures
        0 <= slots_range(slots.take(n)).0 <= slots_range(slots).0,
        0 <= slots_range(slots.take(n)).1 <= slots_range(slots).1,
    decreases slots.len(),
{
    if slots.len() > 0 {
        if n == slots.len() {
            assert(slots.take(n) =~= slots);
            lemma_slots_prefix(slots.drop_last(), n - 1);
            assert(slots.drop_last().take(n - 1) =~= slots.drop_last());
        } else {
            lemma_slots_prefix(slots.drop_last(), n);
            assert(slots.drop_last().take(n) =~= slots.take(n));
        }
    }
}

/// An encounter's range bounds each of its waves' and each prefix's.
proof fn lemma_waves_bounds(waves: Seq<MissionWave>, n: int)
    requires
        0 <= n <= waves.len(),
    ensures
        0 <= waves_range(waves.take(n)).0 <= waves_range(waves).0,
        0 <= waves_range(waves.take(n)).1 <= waves_range(waves).1,
        n < waves.len() ==> slots_range(waves[n].ships@).0 <= waves_range(waves).0 && slots_range(
            waves[n].ships@,
        ).1 <= waves_range(waves).1,
    decreases waves.len(),
{
    if waves.len() > 0 {
        lemma_slots_prefix(waves.last().ships@, 0);
        assert(waves.last().ships@.take(0) =~= Seq::<ShipSlot>::empty());
        if n == waves.len() {
            assert(waves.take(n) =~= waves);
            lemma_waves_bounds(waves.drop_last(), n - 1);
            assert(waves.drop_last().take(n - 1) =~= waves.drop_last());
        } else {
            lemma_waves_bounds(waves.drop_last(), n);
            assert(waves.drop_last().take(n) =~= waves.take(n));
            if n < waves.len() - 1 {
                assert(waves.drop_last()[n] == waves[n]);
            }
        }
    }
}

/// The encounters' summed range bounds each prefix's.
proof fn lemma_encounters_prefix(es: Seq<MissionEncounter>, n: int)
    requires
        0 <= n <= es.len(),
    ensures
        0 <= encounters_range(es.take(n)).0 <= encounters_range(es).0,
        0 <= encounters_range(es.take(n)).1 <= encounters_range(es).1,
    decreases es.len(),
{
    if es.len() > 0 {
        lemma_waves_bounds(es.last().waves@, 0);
        assert(es.last().waves@.take(0) =~= Seq::<MissionWave>::empty());
        if n == es.len() {
            assert(es.take(n) =~= es);
            lemma_encounters_prefix(es.drop_last(), n - 1);
            assert(es.drop_last().take(n - 1) =~= es.drop_last());
        } else {
            lemma_encounters_prefix(es.drop_last(), n);
            assert(es.drop_last().take(n) =~= es.take(n));
        }
    }
}

/// The summed spawn range of a wave's slots.
fn slots_range_exec(slots: &Vec<ShipSlot>) -> (r: (i64, i64))
    requires
        slots_range(slots@).0 <= i32::MAX,
        slots_range(slots@).1 <= i32::MAX,
    ensures
        r.0 == slots_range(slots@).0,
        r.1 == slots_range(slots@).1,
{
    let mut lo: i64 = 0;
    let mut hi: i64 = 0;
    let mut k: usize = 0;
    while k < slots.len()
        invariant
            k <= slots@.len(),
            slots_range(slots@).0 <= i32::MAX,
            slots_range(slots@).1 <= i32::MAX,
            lo == slots_range(slots@.take(k as int)).0,
            hi == slots_range(slots@.take(k as int)).1,
        decreases slots@.len() - k,
    {
        proof {
            lemma_slots_prefix(slots@, k + 1);
            assert(slots@.take(k + 1).drop_last() =~= slots@.take(k as int));
        }
        let s = &slots[k];
        if s.count_min > 0 {
            lo = lo + s.count_min as i64;
        }
        if s.count_max > 0 {
            hi = hi + s.count_max as i64;
        }
        k = k + 1;
    }
    assert(slots@.take(slots@.len() as int) =~= slots@);
    (lo, hi)
}

/// An encounter's spawn range: per wave the summed slots, the largest wave.
fn waves_range_exec(waves: &Vec<MissionWave>) -> (r: (i64, i64))
    requires
        waves_range(waves@).0 <= i32::MAX,
        waves_range(waves@).1 <= i32::MAX,
    ensures
        r.0 == waves_range(waves@).0,
        r.1 == waves_range(waves@).1,
{
    let mut lo: i64 = 0;
    let mut hi: i64 = 0;
    let mut i: usize = 0;
    while i < waves.len()
        invariant
            i <= waves@.len(),
            waves_range(waves@).0 <= i32::MAX,
            waves_range(waves@).1 <= i32::MAX,
            lo == waves_range(waves@.take(i as int)).0,
            hi == waves_range(waves@.take(i as int)).1,
        decreases waves@.len() - i,
    {
        proof {
            lemma_waves_bounds(waves@, i as int);
            assert(waves@.take(i + 1).drop_last() =~= waves@.take(i as int));
        }
        let w = slots_range_exec(&waves[i].ships);
        if w.0 > lo {
            lo = w.0;
        }
        if w.1 > hi {
            hi = w.1;
        }
        i = i + 1;
    }
    assert(waves@.take(waves@.len() as int) =~= waves@);
    (lo, hi)
}

/// The lines of one encounter: per wave its label, slots and cargo.
fn encounter_body_lines(e: &MissionEncounter, prefixes: &Vec<String>, include_cargo: bool) -> (r: Vec<String>)
    ensures
        texts_of(r@) == waves_lines_spec(
            pretty_spec(e.label@),
            e.waves@,
            e.waves@.len() > 1,
            texts_of(prefixes@),
            include_cargo,
        ),
{
    let label = pretty_identifier(e.label.as_str());
    let multi_wave = e.waves.len() > 1;
    let mut lines: Vec<String> = Vec::new();
    let mut i: usize = 0;
    while i < e.waves.len()
        invariant
            i <= e.waves@.len(),
            label@ == pretty_spec(e.label@),
            multi_wave == (e.waves@.len() > 1),
            texts_of(lines@) == waves_lines_spec(label@, e.waves@.take(i as int), multi_wave, texts_of(prefixes@), include_cargo),
        decreases e.waves@.len() - i,
    {
        let mut more = wave_lines(&label, &e.waves[i], i, multi_wave, prefixes, include_cargo);
        let ghost before = lines@;
        let ghost added = more@;
        lines.append(&mut more);
        proof {
            assert(e.waves@.take(i + 1).drop_last() =~= e.waves@.take(i as int));
            assert(texts_of(before + added) =~= texts_of(before) + texts_of(added));
        }
        i = i + 1;
    }
    assert(e.waves@.take(e.waves@.len() as int) =~= e.waves@);
    lines
}

/// Render a mission's encounters: the body lines joined by the INI
/// newline, the summed spawn range (per encounter its largest wave), and
/// the combat class when the encounters name exactly one.
pub fn render_encounters(
    encounters: &Vec<MissionEncounter>,
    manufacturer_prefixes: &Vec<String>,
    include_cargo: bool,
) -> (r: EncounterRendering)
    requires
        encounters_range(encounters@).0 <= i32::MAX,
        encounters_range(encounters@).1 <= i32::MAX,
    ensures
        r.body@ == join_with(
            encounters_lines_spec(encounters@, texts_of(manufacturer_prefixes@), include_cargo),
            crate::format::NEWLINE@,
        ),
        r.ship_range.0 == encounters_range(encounters@).0,
        r.ship_range.1 == encounters_range(encounters@).1,
        opt_view(r.combat_class) == uniform_class(encounters@),
{
    let ghost es = encounters@;
    let mut lines: Vec<String> = Vec::new();
    let mut lo: i64 = 0;
    let mut hi: i64 = 0;
    let mut class: Option<String> = None;
    let mut several = false;
    let mut i: usize = 0;
    while i < encounters.len()
        invariant
            es == encounters@,
            i <= es.len(),
            encounters_range(es).0 <= i32::MAX,
            encounters_range(es).1 <= i32::MAX,
            lo == encounters_range(es.take(i as int)).0,
            hi == encounters_range(es.take(i as int)).1,
            texts_of(lines@) == encounters_lines_spec(es.take(i as int), texts_of(manufacturer_prefixes@), include_cargo),
            several ==> exists|a: int, b: int|
                0 <= a < i && 0 <= b < i && (#[trigger] es[a].difficulty) is Some && (#[trigger] es[b].difficulty) is Some
                    && opt_view(es[a].difficulty) != opt_view(es[b].difficulty),
            !several ==> match class {
                Some(c) => has_class(es.take(i as int), c@) && only_class(es.take(i as int), c@),
                None => forall|a: int| 0 <= a < i ==> (#[trigger] es[a].difficulty) is None,
            },
        decreases es.len() - i,
    {
        let e = &encounters[i];
        proof {
            lemma_encounters_prefix(es, i + 1);
            lemma_encounters_prefix(es, i as int);
            assert(es.take(i + 1).drop_last() =~= es.take(i as int));
            assert(es.take(i + 1).last() == es[i as int]);
            lemma_waves_bounds(es[i as int].waves@, 0);
            assert(es[i as int].waves@.take(0) =~= Seq::<MissionWave>::empty());
        }
        let r = waves_range_exec(&e.waves);
        lo = lo + r.0;
        hi = hi + r.1;
        let mut more = encounter_body_lines(e, manufacturer_prefixes, include_cargo);
        let ghost before = lines@;
        let ghost added = more@;
        lines.append(&mut more);
        proof {
            assert(texts_of(before + added) =~= texts_of(before) + texts_of(added));
        }
        let ghost class0 = class;
        let ghost several0 = several;
        match &e.difficulty {
            Some(d) => {
                if !several {
                    match &class {
                        Some(c) => {
                            if !str_eq(c.as_str(), d.as_str()) {
                                several = true;
                                proof {
                                    let a = choose|a: int| 0 <= a < i && opt_view(#[trigger] es.take(i as int)[a].difficulty) == Some(c@);
                                    assert(es.take(i as int)[a] == es[a]);
                                    assert(es[a].difficulty is Some && opt_view(es[a].difficulty) != opt_view(es[i as int].difficulty));
                                }
                            }
                        },
                        None => {
                            class = Some(d.clone());
                        },
                    }
                }
            },
            None => {},
        }
        proof {
            let t = es.take(i + 1);
            assert forall|a: int| 0 <= a < i implies es.take(i as int)[a] == #[trigger] t[a] by {}
            if !several {
                match &class {
                    Some(c) => {
                        if class0 is None {
                            assert(t[i as int] == es[i as int]);
                            assert(opt_view(t[i as int].difficulty) == Some(c@));
                        } else {
                            let a = choose|a: int| 0 <= a < i && opt_view(#[trigger] es.take(i as int)[a].difficulty) == Some(c@);
                            assert(t[a] == es.take(i as int)[a]);
                        }
                        assert(has_class(t, c@));
                        assert forall|a: int| 0 <= a < t.len() && (#[trigger] t[a].difficulty) is Some implies opt_view(
                            t[a].difficulty,
                        ) == Some(c@) by {
                            if a < i {
                                assert(es.take(i as int)[a] == t[a]);
                            }
                        }
                    },
                    None => {},
                }
            } else if several0 {
                let (a, b) = choose|a: int, b: int|
                    0 <= a < i && 0 <= b < i && (#[trigger] es[a].difficulty) is Some && (#[trigger] es[b].difficulty) is Some
                        && opt_view(es[a].difficulty) != opt_view(es[b].difficulty);
                assert(0 <= a < i + 1 && 0 <= b < i + 1);
            }
        }
        i = i + 1;
    }
    assert(es.take(es.len() as int) =~= es);
    proof {
        lemma_encounters_prefix(es, es.len() as int);
    }
    let body = join_strings(&lines, crate::format::NEWLINE);
    let combat_class = if several {
        None
    } else {
        class
    };
    proof {
        if several {
            let (a, b) = choose|a: int, b: int|
                0 <= a < es.len() && 0 <= b < es.len() && (#[trigger] es[a].difficulty) is Some && (#[trigger] es[b].difficulty) is Some
                    && opt_view(es[a].difficulty) != opt_view(es[b].difficulty);
            assert forall|d: Seq<char>| !(#[trigger] has_class(es, d) && only_class(es, d)) by {
                if has_class(es, d) && only_class(es, d) {
                    assert(opt_view(es[a].difficulty) == Some(d));
                    assert(opt_view(es[b].difficulty) == Some(d));
                }
            }
        } else if combat_class is None {
            assert forall|d: Seq<char>| !(#[trigger] has_class(es, d) && only_class(es, d)) by {
                if has_class(es, d) {
                    let a = choose|a: int| 0 <= a < es.len() && opt_view(#[trigger] es[a].difficulty) == Some(d);
                    assert(es[a].difficulty is None);
                }
            }
        } else {
            let c = opt_view(combat_class)->0;
            assert(has_class(es, c) && only_class(es, c));
            let d = choose|d: Seq<char>| #[trigger] has_class(es, d) && only_class(es, d);
            let a = choose|a: int| 0 <= a < es.len() && opt_view(#[trigger] es[a].difficulty) == Some(d);
            assert(opt_view(es[a].difficulty) == Some(c));
        }
    }
    EncounterRendering { body, ship_range: (lo as i32, hi as i32), combat_class }
}

/// The encounter block of a mission: the highlighted heading and the
/// rendered body; `None` when it has no encounters or nothing renders.
pub open spec fn encounter_block_spec(m: MissionFacts, prefixes: Seq<Seq<char>>, include_cargo: bool) -> Option<Seq<char>> {
    let body = join_with(encounters_lines_spec(m.encounters@, prefixes, include_cargo), crate::format::NEWLINE@);
    let range = encounters_range(m.encounters@);
    if m.encounters@.len() == 0 || body.len() == 0 {
        None
    } else {
        Some(
            crate::format::colored(
                Color::Highlight,
                encounter_heading_spec(range.0 as i32, range.1 as i32, uniform_class(m.encounters@)),
            ) + crate::format::NEWLINE@ + body,
        )
    }
}

/// The encounter block of a mission (see [`encounter_block_spec`]).
pub fn encounter_block(m: &MissionFacts, manufacturer_prefixes: &Vec<String>, include_cargo: bool) -> (r: Option<
    String,
>)
    requires
        encounters_range(m.encounters@).0 <= i32::MAX,
        encounters_range(m.encounters@).1 <= i32::MAX,
    ensures
        opt_view(r) == encounter_block_spec(*m, texts_of(manufacturer_prefixes@), include_cargo),
{
    if m.encounters.len() == 0 {
        return None;
    }
    let rendering = render_encounters(&m.encounters, manufacturer_prefixes, include_cargo);
    let body = chars_of(rendering.body.as_str());
    if body.len() == 0 {
        return None;
    }
    let heading = format_encounter_heading(rendering.ship_range, &rendering.combat_class);
    let mut out = crate::format::header(heading.as_str());
    out.append(crate::format::NEWLINE);
    out.append(rendering.body.as_str());
    Some(out)
}

/// `o`'s line when `c` holds and there is one.
pub open spec fn line_if(c: bool, o: Option<Seq<char>>) -> Seq<Seq<char>> {
    match o {
        Some(t) if c => seq![t],
        _ => Seq::empty(),
    }
}

/// The Mission Info block: the highlighted header and the lines that are
/// asked for and present, one per row; `None` when no line is left.
pub open spec fn mission_info_spec(
    m: MissionFacts,
    with_cooldown: bool,
    with_rep: bool,
    with_scrip: bool,
    with_uec: bool,
    scrip: Option<Seq<char>>,
) -> Option<Seq<char>> {
    let lines = line_if(with_cooldown, opt_view(m.cooldown_line)) + line_if(with_rep, rep_line_spec(m.reputation@))
        + line_if(with_scrip, scrip) + line_if(with_uec, uec_line_spec(m.payout));
    if lines.len() == 0 {
        None
    } else {
        Some(
            crate::format::colored(Color::Highlight, "Mission Info"@) + crate::format::NEWLINE@ + join_with(
                lines,
                crate::format::NEWLINE@,
            ),
        )
    }
}

/// The Mission Info block; each line gated by its flag.
pub fn mission_info_block(
    m: &MissionFacts,
    with_cooldown: bool,
    with_rep: bool,
    with_scrip: bool,
    with_uec: bool,
) -> (r: Option<String>)
    requires
        rep_total(m.reputation@) <= i32::MAX,
        scrip_total(m.scrip@) <= i32::MAX,
    ensures
        exists|sc: Option<Seq<char>>| #[trigger] scrip_line_ok(m.scrip@, sc) && opt_view(r) == mission_info_spec(
            *m,
            with_cooldown,
            with_rep,
            with_scrip,
            with_uec,
            sc,
        ),
{
    let sc = scrip_line(m);
    let mut lines: Vec<String> = Vec::new();
    if with_cooldown {
        if let Some(l) = &m.cooldown_line {
            lines.push(l.clone());
        }
    }
    if with_rep {
        if let Some(l) = rep_line(m) {
            lines.push(l);
        }
    }
    if with_scrip {
        if let Some(l) = &sc {
            lines.push(l.clone());
        }
    }
    if with_uec {
        if let Some(l) = uec_line(m) {
            lines.push(l);
        }
    }
    let ghost want = line_if(with_cooldown, opt_view(m.cooldown_line)) + line_if(with_rep, rep_line_spec(m.reputation@))
        + line_if(with_scrip, opt_view(sc)) + line_if(with_uec, uec_line_spec(m.payout));
    assert(texts_of(lines@) =~= want);
    proof {
        assert(scrip_line_ok(m.scrip@, opt_view(sc)));
    }
    if lines.len() == 0 {
        return None;
    }
    let mut out = crate::format::header("Mission Info");
    out.append(crate::format::NEWLINE);
    out.append(join_strings(&lines, crate::format::NEWLINE).as_str());
    Some(out)
}

/// One bullet row per name, each after an INI newline.
pub open spec fn bullet_rows(ns: Seq<Seq<char>>) -> Seq<char>
    decreases ns.len(),
{
    if ns.len() == 0 {
        Seq::empty()
    } else {
        bullet_rows(ns.drop_last()) + crate::format::NEWLINE@ + "- "@ + ns.last()
    }
}

/// The block of one blueprint pool: the highlighted header with the
/// chance below certain, then its named blueprints by their lowercase.
pub open spec fn blueprint_block_spec(bp: BlueprintPoolFacts) -> Seq<char> {
    crate::format::colored(Color::Highlight, "Potential Blueprints"@) + chance_text(bp.chance_percent) + bullet_rows(
        sorted_by_lowercase(present_names(bp.names@)),
    )
}

/// The block of one blueprint pool (see [`blueprint_block_spec`]).
pub fn blueprint_block(bp: &BlueprintPoolFacts) -> (r: String)
    ensures
        r@ == blueprint_block_spec(*bp),
{
    let mut out = crate::format::header("Potential Blueprints");
    if let Some(p) = bp.chance_percent {
        out.append(" (");
        push_i64(&mut out, p as i64);
        out.append("% chance)");
    }
    let present = present_names_of(&bp.names);
    let names = sort_by_lowercase(&present);
    let ghost start = out@;
    let ghost tn = texts_of(names@);
    let mut i: usize = 0;
    while i < names.len()
        invariant
            i <= names@.len(),
            tn == texts_of(names@),
            out@ == start + bullet_rows(tn.take(i as int)),
        decreases names@.len() - i,
    {
        out.append(crate::format::NEWLINE);
        out.append("- ");
        out.append(names[i].as_str());
        proof {
            assert(tn.take(i + 1).drop_last() =~= tn.take(i as int));
        }
        i = i + 1;
    }
    assert(tn.take(tn.len() as int) =~= tn);
    out
}

} // verus!
