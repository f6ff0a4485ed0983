//! The RSI public citizen page (`/citizens/<handle>`) read into a
//! [`ProfileInfo`]: the two immutable anchors (citizen record, enlisted
//! date) plus the current handle and the main organization's SID and rank.
//!
//! The HTML is parsed and queried with `scraper`, the enlisted date with
//! `chrono`; what is read off the page, and how, is decided here.

use vstd::prelude::*;

use crate::state::opt_text;
use crate::text::{ascii_lower, dec_nat, push_u64, str_eq, trim_spec, trim_str};

verus! {

// ── Results ─────────────────────────────────────────────────────────────────

/// The facts read off an RSI citizen page.
#[derive(Debug, Clone, PartialEq, Eq)]
pub struct ProfileInfo {
    /// Current RSI handle exactly as displayed (case preserved).
    pub handle: String,
    /// `UEE Citizen Record` integer (the `#` is stripped).
    pub citizen_record: i64,
    /// ISO date `"YYYY-MM-DD"` parsed from `"Mon DD, YYYY"`.
    pub enlisted: String,
    /// Main organization Spectrum Identification (e.g. `"WISEGUYS"`).
    /// `None` if the citizen has no main org or all orgs are redacted.
    pub primary_org_sid: Option<String>,
    /// Rank label within `primary_org_sid` (e.g. `"Herald"`).
    pub primary_org_rank: Option<String>,
}

/// Why a profile page could not be read.
#[derive(Debug, Clone)]
pub enum ProfileError {
    /// `missing field on profile page: {0}`
    MissingField(String),
    /// `could not parse {field}: {detail}`
    Parse { field: String, detail: String },
}

/// A profile as plain values.
pub struct ProfileView {
    pub handle: Seq<char>,
    pub citizen_record: int,
    pub enlisted: Seq<char>,
    pub primary_org_sid: Option<Seq<char>>,
    pub primary_org_rank: Option<Seq<char>>,
}

/// A profile error as plain values.
pub enum ProfileErrorView {
    MissingField(Seq<char>),
    Parse { field: Seq<char>, detail: Seq<char> },
}

impl View for ProfileInfo {
    type V = ProfileView;

    open spec fn view(&self) -> ProfileView {
        ProfileView {
            handle: self.handle@,
            citizen_record: self.citizen_record as int,
            enlisted: self.enlisted@,
            primary_org_sid: opt_text(self.primary_org_sid),
            primary_org_rank: opt_text(self.primary_org_rank),
        }
    }
}

impl View for ProfileError {
    type V = ProfileErrorView;

    open spec fn view(&self) -> ProfileErrorView {
        match self {
            ProfileError::MissingField(f) => ProfileErrorView::MissingField(f@),
            ProfileError::Parse { field, detail } => ProfileErrorView::Parse { field: field@, detail: detail@ },
        }
    }
}

impl ProfileError {
    /// `missing field on profile page: {field}` / `could not parse {field}: {detail}`.
    pub fn message(&self) -> (r: String)
        ensures
            r@ == match self@ {
                ProfileErrorView::MissingField(f) => "missing field on profile page: "@ + f,
                ProfileErrorView::Parse { field, detail } => "could not parse "@ + field + ": "@ + detail,
            },
    {
        let mut out = String::new();
        match self {
            ProfileError::MissingField(f) => {
                out.append("missing field on profile page: ");
                out.append(f.as_str());
            },
            ProfileError::Parse { field, detail } => {
                out.append("could not parse ");
                out.append(field.as_str());
                out.append(": ");
                out.append(detail.as_str());
            },
        }
        out
    }
}

// ── The page, through scraper ───────────────────────────────────────────────

/// For each element matching CSS selector `entry` in the HTML document
/// `html`, in document order: the text of its first descendant matching
/// `label` and the text of its first descendant matching `value`, when
/// there is one. Empty when a selector does not parse.
pub uninterp spec fn entry_texts(html: Seq<char>, entry: Seq<char>, label: Seq<char>, value: Seq<char>) -> Seq<
    (Option<Seq<char>>, Option<Seq<char>>),
>;

/// The text of the first element of the HTML document `html` that matches
/// CSS selector `selector`; `None` when nothing matches or the selector
/// does not parse.
pub uninterp spec fn first_selected_text(html: Seq<char>, selector: Seq<char>) -> Option<Seq<char>>;

pub open spec fn pair_texts(v: Seq<(Option<String>, Option<String>)>) -> Seq<(Option<Seq<char>>, Option<Seq<char>>)> {
    v.map_values(|p: (Option<String>, Option<String>)| (opt_text(p.0), opt_text(p.1)))
}

/// `scraper::Html::parse_document`, then `Html::select` with `entry` and,
/// inside each match, `ElementRef::select` with `label` and `value`; texts
/// are the concatenated text nodes (`ElementRef::text`). The contract only
/// names the result: HTML5 tree building and selector matching are
/// scraper's.
#[verifier::external_body]
fn select_entries(html: &str, entry: &str, label: &str, value: &str) -> (r: Vec<(Option<String>, Option<String>)>)
    ensures
        pair_texts(r@) == entry_texts(html@, entry@, label@, value@),
{
    let doc = scraper::Html::parse_document(html);
    let sels = (scraper::Selector::parse(entry), scraper::Selector::parse(label), scraper::Selector::parse(value));
    let mut out = Vec::new();
    if let (Ok(e), Ok(l), Ok(v)) = sels {
        for p in doc.select(&e) {
            let lt = p.select(&l).next().map(|x| x.text().collect::<String>());
            let vt = p.select(&v).next().map(|x| x.text().collect::<String>());
            out.push((lt, vt));
        }
    }
    out
}

/// `scraper::Html::parse_document`, then the first element
/// `Html::select` yields for `selector`, its text nodes concatenated. The
/// contract only names the result.
#[verifier::external_body]
fn select_first_text(html: &str, selector: &str) -> (r: Option<String>)
    ensures
        opt_text(r) == first_selected_text(html@, selector@),
{
    let doc = scraper::Html::parse_document(html);
    match scraper::Selector::parse(selector) {
        Ok(sel) => doc.select(&sel).next().map(|x| x.text().collect::<String>()),
        Err(_) => None,
    }
}

// ── The date, through chrono ────────────────────────────────────────────────

/// `chrono::NaiveDate::parse_from_str(s, fmt)`: the date's year, month and
/// day, or the parse error's message.
pub uninterp spec fn date_parse(s: Seq<char>, fmt: Seq<char>) -> Result<(int, int, int), Seq<char>>;

/// `chrono::NaiveDate::parse_from_str`, read back through `Datelike`'s
/// `year`, `month` (1 to 12) and `day` (1 to 31), or the `ParseError`'s
/// `Display` text. The contract names the result and states the month and
/// day ranges chrono documents.
#[verifier::external_body]
fn parse_date(s: &str, fmt: &str) -> (r: Result<(i32, u32, u32), String>)
    ensures
        match r {
            Ok(t) => date_parse(s@, fmt@) == Ok::<(int, int, int), Seq<char>>((t.0 as int, t.1 as int, t.2 as int))
                && 1 <= t.1 <= 12 && 1 <= t.2 <= 31,
            Err(e) => date_parse(s@, fmt@) == Err::<(int, int, int), Seq<char>>(e@),
        },
{
    match chrono::NaiveDate::parse_from_str(s, fmt) {
        Ok(d) => Ok((chrono::Datelike::year(&d), chrono::Datelike::month(&d), chrono::Datelike::day(&d))),
        Err(e) => Err(e.to_string()),
    }
}

} // verus!

verus! {

// ── Label / value blocks ────────────────────────────────────────────────────

/// The trimmed value of the first block whose trimmed label reads exactly
/// `label` and that has a value; blocks without a label, with another
/// label or without a value are skipped.
pub open spec fn label_value(es: Seq<(Option<Seq<char>>, Option<Seq<char>>)>, label: Seq<char>) -> Option<Seq<char>>
    decreases es.len(),
{
    if es.len() == 0 {
        None
    } else if es[0].0 is Some && trim_spec(es[0].0->0) == label && es[0].1 is Some {
        Some(trim_spec(es[0].1->0))
    } else {
        label_value(es.drop_first(), label)
    }
}

/// The value shown under `label` among a page's label/value blocks.
pub fn find_label_value(entries: &Vec<(Option<String>, Option<String>)>, label: &str) -> (r: Option<String>)
    ensures
        opt_text(r) == label_value(pair_texts(entries@), label@),
{
    let ghost es = pair_texts(entries@);
    assert(es.skip(0) =~= es);
    let mut i: usize = 0;
    while i < entries.len()
        invariant
            i <= entries@.len(),
            es == pair_texts(entries@),
            label_value(es, label@) == label_value(es.skip(i as int), label@),
        decreases entries@.len() - i,
    {
        let ghost rest = es.skip(i as int);
        proof {
            assert(rest[0] == es[i as int]);
            assert(rest.drop_first() =~= es.skip(i + 1));
        }
        match &entries[i].0 {
            Some(l) => {
                if str_eq(trim_str(l.as_str()).as_str(), label) {
                    match &entries[i].1 {
                        Some(v) => {
                            return Some(trim_str(v.as_str()));
                        },
                        None => {},
                    }
                }
            },
            None => {},
        }
        i = i + 1;
    }
    None
}

/// An organization field as shown, unless empty or `redacted` in any
/// ASCII case.
pub open spec fn org_field(v: Option<Seq<char>>) -> Option<Seq<char>> {
    match v {
        Some(s) => if s.len() > 0 && s.map_values(|c: char| ascii_lower(c)) != "redacted"@ {
            Some(s)
        } else {
            None
        },
        None => None,
    }
}

fn org_value(v: Option<String>) -> (r: Option<String>)
    ensures
        opt_text(r) == org_field(opt_text(v)),
{
    match v {
        Some(s) => {
            let lower = crate::text::to_ascii_lowercase(s.as_str());
            if !s.as_str().is_empty() && !str_eq(lower.as_str(), "redacted") {
                Some(s)
            } else {
                None
            }
        },
        None => None,
    }
}

// ── Citizen record ──────────────────────────────────────────────────────────

pub open spec fn is_ascii_digit(c: char) -> bool {
    '0' <= c <= '9'
}

/// The ASCII digits of `s`, in order.
pub open spec fn ascii_digits(s: Seq<char>) -> Seq<char>
    decreases s.len(),
{
    if s.len() == 0 {
        Seq::empty()
    } else if is_ascii_digit(s.last()) {
        ascii_digits(s.drop_last()).push(s.last())
    } else {
        ascii_digits(s.drop_last())
    }
}

/// The number a string of decimal digits spells.
pub open spec fn dec_value(d: Seq<char>) -> int
    decreases d.len(),
{
    if d.len() == 0 {
        0
    } else {
        dec_value(d.drop_last()) * 10 + (d.last() as int - '0' as int)
    }
}

/// ``"`{raw}` → {msg}"``.
pub open spec fn parse_detail(raw: Seq<char>, msg: Seq<char>) -> Seq<char> {
    "`"@ + raw + "` → "@ + msg
}

/// The citizen record from the record element's text: its ASCII digits
/// read as an `i64`.
pub open spec fn record_spec(found: Option<Seq<char>>) -> Result<int, ProfileErrorView> {
    match found {
        None => Err(ProfileErrorView::MissingField("UEE Citizen Record"@)),
        Some(t) => {
            let raw = trim_spec(t);
            let d = ascii_digits(raw);
            if d.len() == 0 {
                Err(
                    ProfileErrorView::Parse {
                        field: "UEE Citizen Record"@,
                        detail: parse_detail(raw, "cannot parse integer from empty string"@),
                    },
                )
            } else if dec_value(d) > i64::MAX {
                Err(
                    ProfileErrorView::Parse {
                        field: "UEE Citizen Record"@,
                        detail: parse_detail(raw, "number too large to fit in target type"@),
                    },
                )
            } else {
                Ok(dec_value(d))
            }
        },
    }
}

proof fn lemma_dec_value_grows(d: Seq<char>, k: int)
    requires
        0 <= k <= d.len(),
        forall|i: int| 0 <= i < d.len() ==> is_ascii_digit(#[trigger] d[i]),
    ensures
        0 <= dec_value(d.take(k)) <= dec_value(d),
    decreases d.len() - k,
{
    if k < d.len() {
        lemma_dec_value_grows(d, k + 1);
        assert(d.take(k + 1).drop_last() =~= d.take(k));
        assert(d.take(k + 1).last() == d[k]);
    } else {
        assert(d.take(k) =~= d);
        lemma_dec_value_nonneg(d);
    }
}

proof fn lemma_dec_value_nonneg(d: Seq<char>)
    requires
        forall|i: int| 0 <= i < d.len() ==> is_ascii_digit(#[trigger] d[i]),
    ensures
        0 <= dec_value(d),
    decreases d.len(),
{
    if d.len() > 0 {
        assert(is_ascii_digit(d[d.len() - 1]));
        lemma_dec_value_nonneg(d.drop_last());
    }
}

fn parse_error(field: &str, raw: &str, msg: &str) -> (e: ProfileError)
    ensures
        e@ == (ProfileErrorView::Parse { field: field@, detail: parse_detail(raw@, msg@) }),
{
    let mut detail = String::new();
    detail.append("`");
    detail.append(raw);
    detail.append("` → ");
    detail.append(msg);
    ProfileError::Parse { field: field.to_owned(), detail }
}

/// The citizen record from the text of the record element, if found.
pub fn citizen_record_from(found: Option<String>) -> (r: Result<i64, ProfileError>)
    ensures
        match r {
            Ok(n) => record_spec(opt_text(found)) == Ok::<int, ProfileErrorView>(n as int),
            Err(e) => record_spec(opt_text(found)) == Err::<int, ProfileErrorView>(e@),
        },
{
    let t = match found {
        Some(t) => t,
        None => {
            return Err(ProfileError::MissingField("UEE Citizen Record".to_owned()));
        },
    };
    let raw = trim_str(t.as_str());
    let chars = crate::text::chars_of(raw.as_str());
    let mut digits: Vec<char> = Vec::new();
    let mut i: usize = 0;
    while i < chars.len()
        invariant
            i <= chars@.len(),
            chars@ == raw@,
            digits@ == ascii_digits(chars@.take(i as int)),
        decreases chars@.len() - i,
    {
        proof {
            assert(chars@.take(i + 1).drop_last() =~= chars@.take(i as int));
        }
        if '0' <= chars[i] && chars[i] <= '9' {
            digits.push(chars[i]);
        }
        i = i + 1;
    }
    assert(chars@.take(chars@.len() as int) =~= chars@);
    proof {
        lemma_digits_are_digits(raw@);
    }
    if digits.len() == 0 {
        return Err(parse_error("UEE Citizen Record", raw.as_str(), "cannot parse integer from empty string"));
    }
    let mut acc: i64 = 0;
    let mut k: usize = 0;
    while k < digits.len()
        invariant
            k <= digits@.len(),
            digits@ == ascii_digits(raw@),
            raw@ == trim_spec(t@),
            opt_text(found) == Some(t@),
            forall|j: int| 0 <= j < digits@.len() ==> is_ascii_digit(#[trigger] digits@[j]),
            acc as int == dec_value(digits@.take(k as int)),
            0 <= acc,
        decreases digits@.len() - k,
    {
        let dv: i64 = ((digits[k] as u32) - ('0' as u32)) as i64;
        proof {
            assert(digits@.take(k + 1).drop_last() =~= digits@.take(k as int));
            assert(digits@.take(k + 1).last() == digits@[k as int]);
        }
        if acc > (i64::MAX - dv) / 10 {
            proof {
                lemma_dec_value_grows(digits@, k + 1);
                assert(acc * 10 + dv > i64::MAX) by (nonlinear_arith)
                    requires
                        acc > (i64::MAX - dv) / 10,
                        0 <= dv <= 9,
                ;
            }
            return Err(parse_error("UEE Citizen Record", raw.as_str(), "number too large to fit in target type"));
        }
        acc = acc * 10 + dv;
        k = k + 1;
    }
    assert(digits@.take(digits@.len() as int) =~= digits@);
    Ok(acc)
}

proof fn lemma_digits_are_digits(s: Seq<char>)
    ensures
        forall|j: int| 0 <= j < ascii_digits(s).len() ==> is_ascii_digit(#[trigger] ascii_digits(s)[j]),
    decreases s.len(),
{
    if s.len() > 0 {
        lemma_digits_are_digits(s.drop_last());
        let p = ascii_digits(s.drop_last());
        if is_ascii_digit(s.last()) {
            assert forall|j: int| 0 <= j < ascii_digits(s).len() implies is_ascii_digit(#[trigger] ascii_digits(s)[j]) by {
                if j < p.len() {
                    assert(ascii_digits(s)[j] == p[j]);
                }
            }
        }
    }
}

} // verus!

verus! {

// ── Enlisted date ───────────────────────────────────────────────────────────

/// `s` left-padded with `0` to `w` characters.
pub open spec fn zero_pad(s: Seq<char>, w: nat) -> Seq<char> {
    if s.len() < w {
        Seq::new((w - s.len()) as nat, |i: int| '0') + s
    } else {
        s
    }
}

/// A year as chrono's `%Y` writes it: four digits within `0..=9999`,
/// otherwise a sign and at least four digits.
pub open spec fn year_text(y: int) -> Seq<char> {
    if 0 <= y <= 9999 {
        zero_pad(dec_nat(y as nat), 4)
    } else if y > 9999 {
        seq!['+'] + zero_pad(dec_nat(y as nat), 4)
    } else {
        seq!['-'] + zero_pad(dec_nat((-y) as nat), 4)
    }
}

/// `YYYY-MM-DD` (chrono's `%Y-%m-%d`).
pub open spec fn iso_text(y: int, m: nat, d: nat) -> Seq<char> {
    year_text(y) + seq!['-'] + zero_pad(dec_nat(m), 2) + seq!['-'] + zero_pad(dec_nat(d), 2)
}

fn push_padded(out: &mut String, n: u64, w: usize)
    ensures
        final(out)@ == old(out)@ + zero_pad(dec_nat(n as nat), w as nat),
{
    let mut digits = String::new();
    push_u64(&mut digits, n);
    let v = crate::text::chars_of(digits.as_str());
    assert(v@ == dec_nat(n as nat));
    let mut k: usize = v.len();
    let ghost start = out@;
    while k < w
        invariant
            v@.len() <= k <= w || (k == v@.len() && k >= w),
            v@ == dec_nat(n as nat),
            out@ == start + Seq::new((k - v@.len()) as nat, |i: int| '0'),
        decreases w - k,
    {
        out.push('0');
        proof {
            assert(out@ =~= start + Seq::new((k + 1 - v@.len()) as nat, |i: int| '0'));
        }
        k = k + 1;
    }
    out.append(digits.as_str());
    assert(out@ =~= start + zero_pad(dec_nat(n as nat), w as nat));
}

/// Format a date as `YYYY-MM-DD`.
pub fn iso_date(y: i32, m: u32, d: u32) -> (r: String)
    ensures
        r@ == iso_text(y as int, m as nat, d as nat),
{
    let mut out = String::new();
    if 0 <= y && y <= 9999 {
        push_padded(&mut out, y as u64, 4);
    } else if y > 9999 {
        out.push('+');
        push_padded(&mut out, y as u64, 4);
    } else {
        out.push('-');
        let a: u64 = (0i64 - (y as i64)) as u64;
        push_padded(&mut out, a, 4);
    }
    out.push('-');
    push_padded(&mut out, m as u64, 2);
    out.push('-');
    push_padded(&mut out, d as u64, 2);
    proof {
        assert(out@ =~= iso_text(y as int, m as nat, d as nat));
    }
    out
}

/// A `Result` of text as plain values.
pub open spec fn res_text(r: Result<String, ProfileError>) -> Result<Seq<char>, ProfileErrorView> {
    match r {
        Ok(s) => Ok(s@),
        Err(e) => Err(e@),
    }
}

/// The enlisted date from its trimmed text and what chrono made of it:
/// `YYYY-MM-DD`, or a parse error quoting the text.
pub open spec fn enlisted_outcome(trimmed: Seq<char>, parsed: Result<(int, int, int), Seq<char>>) -> Result<
    Seq<char>,
    ProfileErrorView,
> {
    match parsed {
        Ok((y, m, d)) => Ok(iso_text(y, m as nat, d as nat)),
        Err(e) => Err(ProfileErrorView::Parse { field: "Enlisted"@, detail: parse_detail(trimmed, e) }),
    }
}

/// The enlisted date from its trimmed text and chrono's parse of it.
pub fn enlisted_from(trimmed: &str, parsed: Result<(i32, u32, u32), String>) -> (r: Result<String, ProfileError>)
    ensures
        res_text(r) == enlisted_outcome(
            trimmed@,
            match parsed {
                Ok(t) => Ok((t.0 as int, t.1 as int, t.2 as int)),
                Err(e) => Err(e@),
            },
        ),
{
    match parsed {
        Ok((y, m, d)) => Ok(iso_date(y, m, d)),
        Err(e) => Err(parse_error("Enlisted", trimmed, e.as_str())),
    }
}

/// The format the page renders the enlisted date in (`Jan 31, 2016`).
pub open spec fn enlisted_format() -> Seq<char> {
    "%b %d, %Y"@
}

/// `Jan 31, 2016` → `2016-01-31`, through chrono.
pub open spec fn enlisted_spec(raw: Seq<char>) -> Result<Seq<char>, ProfileErrorView> {
    enlisted_outcome(trim_spec(raw), date_parse(trim_spec(raw), enlisted_format()))
}

/// Normalize the page's enlisted text to an ISO date.
pub fn normalize_enlisted(raw: &str) -> (r: Result<String, ProfileError>)
    ensures
        res_text(r) == enlisted_spec(raw@),
{
    let trimmed = trim_str(raw);
    let fmt = "%b %d, %Y";
    let parsed = parse_date(trimmed.as_str(), fmt);
    enlisted_from(trimmed.as_str(), parsed)
}

// ── The page ────────────────────────────────────────────────────────────────

pub open spec fn record_selector() -> Seq<char> {
    "p.citizen-record strong.value"@
}

/// The page's label/value blocks.
pub open spec fn page_entries(html: Seq<char>) -> Seq<(Option<Seq<char>>, Option<Seq<char>>)> {
    entry_texts(html, "p.entry"@, "span.label"@, "strong.value"@)
}

/// What a citizen page reads as: the citizen record first, then the handle
/// and the enlisted date (each required, in that order), then the main
/// organization's SID and rank when shown and not redacted.
pub open spec fn parse_spec(html: Seq<char>) -> Result<ProfileView, ProfileErrorView> {
    profile_from_spec(first_selected_text(html, record_selector()), page_entries(html))
}

/// The profile assembled from what the page shows: `found`, the citizen
/// record's text, and `es`, the `(label, value)` texts of its entry blocks
/// in page order. The record number, handle and enlisted date are each
/// required, in that order; then the main organization's SID and rank
/// when shown and not redacted.
pub open spec fn profile_from_spec(
    found: Option<Seq<char>>,
    es: Seq<(Option<Seq<char>>, Option<Seq<char>>)>,
) -> Result<ProfileView, ProfileErrorView> {
    match record_spec(found) {
        Err(e) => Err(e),
        Ok(n) => match label_value(es, "Handle name"@) {
            None => Err(ProfileErrorView::MissingField("Handle name"@)),
            Some(handle) => match label_value(es, "Enlisted"@) {
                None => Err(ProfileErrorView::MissingField("Enlisted"@)),
                Some(raw) => match enlisted_spec(raw) {
                    Err(e) => Err(e),
                    Ok(enlisted) => Ok(
                        ProfileView {
                            handle,
                            citizen_record: n,
                            enlisted,
                            primary_org_sid: org_field(label_value(es, "Spectrum Identification (SID)"@)),
                            primary_org_rank: org_field(label_value(es, "Organization rank"@)),
                        },
                    ),
                },
            },
        },
    }
}

/// Assemble a profile from the citizen record's text and the entry
/// blocks' `(label, value)` texts (see [`profile_from_spec`]).
pub fn profile_from(found: Option<String>, entries: &Vec<(Option<String>, Option<String>)>) -> (r: Result<
    ProfileInfo,
    ProfileError,
>)
    ensures
        match r {
            Ok(p) => profile_from_spec(opt_text(found), pair_texts(entries@)) == Ok::<ProfileView, ProfileErrorView>(p@),
            Err(e) => profile_from_spec(opt_text(found), pair_texts(entries@)) == Err::<ProfileView, ProfileErrorView>(e@),
        },
{
    let citizen_record = match citizen_record_from(found) {
        Ok(n) => n,
        Err(e) => {
            return Err(e);
        },
    };
    let handle = match find_label_value(entries, "Handle name") {
        Some(h) => h,
        None => {
            return Err(ProfileError::MissingField("Handle name".to_owned()));
        },
    };
    let enlisted_raw = match find_label_value(entries, "Enlisted") {
        Some(v) => v,
        None => {
            return Err(ProfileError::MissingField("Enlisted".to_owned()));
        },
    };
    let enlisted = match normalize_enlisted(enlisted_raw.as_str()) {
        Ok(d) => d,
        Err(e) => {
            return Err(e);
        },
    };
    let primary_org_sid = org_value(find_label_value(entries, "Spectrum Identification (SID)"));
    let primary_org_rank = org_value(find_label_value(entries, "Organization rank"));
    Ok(ProfileInfo { handle, citizen_record, enlisted, primary_org_sid, primary_org_rank })
}

/// Parse a `/citizens/<handle>` HTML body into a [`ProfileInfo`].
pub fn parse(html: &str) -> (r: Result<ProfileInfo, ProfileError>)
    ensures
        match r {
            Ok(p) => parse_spec(html@) == Ok::<ProfileView, ProfileErrorView>(p@),
            Err(e) => parse_spec(html@) == Err::<ProfileView, ProfileErrorView>(e@),
        },
{
    let found = select_first_text(html, "p.citizen-record strong.value");
    let entries = select_entries(html, "p.entry", "span.label", "strong.value");
    profile_from(found, &entries)
}

} // verus!
