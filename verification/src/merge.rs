//! The apply stage: base `global.ini` lines + language-pack overlay + key
//! renames + patch ops + user overrides (always last, always win) →
//! UTF-8+BOM bytes for the loose-file override in the install dir.
//! Line-based (`Vec<String>`) so the stages compose without re-splitting;
//! outcomes come back as return values ([`ApplyStats`], changed counts).
//!
//! Two invariants every stage honors:
//!
//! - **`,P` locale-metadata suffixes.** Some INI keys carry a metadata
//!   suffix (`item_Name…,P=…`) while every key patchers, packs and user
//!   overrides use is the bare form. All matching strips the suffix
//!   (everything from the first `,`); every rewrite preserves it.
//! - **Placeholder sentinels are never patched.** Lines whose value holds
//!   `<= PLACEHOLDER =>` or `<= UNINITIALIZED =>` (ASCII case-insensitively)
//!   are shared fallback targets; [`apply_patches`] skips them.

use vstd::prelude::*;

use crate::ops::{KeyRename, PatchOp, apply_op, apply_ops_spec};
use crate::strmap::{StrMap, lookup, lookup_text, lemma_lookup_at};
use crate::text::{
    before_first, chars_of, copy_prefix, find_char, find_char_upto, find_spec, push_range,
    string_of_range, lines_of_spec, strip_cr,
};

verus! {

// ── The line model ──────────────────────────────────────────────────────────

/// Raw key and value of an INI line — split at the first `=`; `None` for a
/// line without `=`.
pub open spec fn kv_split(line: Seq<char>) -> Option<(Seq<char>, Seq<char>)> {
    match find_spec(line, '=') {
        Some(i) => Some((line.take(i), line.skip(i + 1))),
        None => None,
    }
}

/// The bare key of a raw key: everything before the first `,`.
pub open spec fn bare_key(raw: Seq<char>) -> Seq<char> {
    before_first(raw, ',')
}

/// The locale-metadata marker of a raw key: everything after the first `,`.
pub open spec fn key_marker(raw: Seq<char>) -> Option<Seq<char>> {
    match find_spec(raw, ',') {
        Some(i) => Some(raw.skip(i + 1)),
        None => None,
    }
}

/// The bare key of a `key=value` line.
pub open spec fn line_key(line: Seq<char>) -> Option<Seq<char>> {
    match kv_split(line) {
        Some((raw, _)) => Some(bare_key(raw)),
        None => None,
    }
}

/// Some line's bare key is `k`.
pub open spec fn key_present(lines: Seq<Seq<char>>, k: Seq<char>) -> bool {
    exists|i: int| 0 <= i < lines.len() && #[trigger] line_key(lines[i]) == Some(k)
}

/// The character sequences of a list of lines.
pub open spec fn texts(lines: Seq<String>) -> Seq<Seq<char>> {
    lines.map_values(|l: String| l@)
}

/// A line split into its characters, the `=` position and the bare-key end.
struct LineParts {
    chars: Vec<char>,
    eq: usize,
    key_end: usize,
}

impl LineParts {
    spec fn describes(&self, line: Seq<char>) -> bool {
        let v = self.chars@;
        let raw = v.take(self.eq as int);
        &&& v == line
        &&& self.eq < v.len()
        &&& self.key_end <= self.eq
        &&& kv_split(line) == Some((raw, v.skip(self.eq + 1)))
        &&& bare_key(raw) == v.take(self.key_end as int)
        &&& key_marker(raw) == if self.key_end < self.eq {
            Some(v.subrange(self.key_end + 1, self.eq as int))
        } else {
            None
        }
    }
}

/// Split a line at its first `=`; `None` when it has none.
fn split_line(line: &str) -> (r: Option<LineParts>)
    ensures
        match r {
            Some(p) => p.describes(line@),
            None => kv_split(line@) is None,
        },
{
    let v = chars_of(line);
    match find_char(&v, '=') {
        None => None,
        Some(eq) => {
            let key_end = match find_char_upto(&v, ',', eq) {
                Some(c) => c,
                None => eq,
            };
            proof {
                let raw = v@.take(eq as int);
                assert(raw.take(eq as int) =~= raw);
                if key_end < eq {
                    assert(raw.take(key_end as int) =~= v@.take(key_end as int));
                    assert(raw.skip(key_end + 1) =~= v@.subrange(key_end + 1, eq as int));
                }
            }
            Some(LineParts { chars: v, eq, key_end })
        },
    }
}

// ── Decode ──────────────────────────────────────────────────────────────────

/// The encodings an INI file is read in.
#[derive(Debug, Clone, Copy, PartialEq, Eq, Structural)]
pub enum IniEncoding {
    /// UTF-16 little-endian (what the game ships).
    Utf16Le,
    Utf16Be,
    Utf8,
}

/// What `encoding_rs` decodes `bytes` to under `enc` (with its own BOM
/// sniffing, malformed sequences replaced), and whether any were malformed.
pub uninterp spec fn decoded(enc: IniEncoding, bytes: Seq<u8>) -> (Seq<char>, bool);

/// Decode `bytes` with `encoding_rs`'s `Encoding::decode` for `enc`:
/// the text and whether malformed sequences were met. Beyond the name, the
/// contract states what `Encoding::decode` documents for valid UTF-8 under
/// `UTF_8`: the text decoded exactly (no malformed sequences), a leading
/// byte-order mark — the encoding of U+FEFF — removed by the BOM sniffing.
#[verifier::external_body]
fn decode_bytes(enc: IniEncoding, bytes: &[u8]) -> (r: (String, bool))
    requires
        bytes@.len() <= usize::MAX / 4,
    ensures
        (r.0@, r.1) == decoded(enc, bytes@),
        enc == IniEncoding::Utf8 && vstd::utf8::valid_utf8(bytes@) ==> r.0@ == strip_feff(
            vstd::utf8::decode_utf8(bytes@),
        ) && !r.1,
{
    let encoding = match enc {
        IniEncoding::Utf16Le => encoding_rs::UTF_16LE,
        IniEncoding::Utf16Be => encoding_rs::UTF_16BE,
        IniEncoding::Utf8 => encoding_rs::UTF_8,
    };
    let (text, _, had_errors) = encoding.decode(bytes);
    (text.into_owned(), had_errors)
}

/// The encoding an INI file's BOM announces and the BOM's length: `FF FE`
/// UTF-16 LE, `FE FF` UTF-16 BE, `EF BB BF` UTF-8, none: UTF-8.
pub open spec fn ini_encoding_spec(b: Seq<u8>) -> (IniEncoding, int) {
    if b.len() >= 2 && b[0] == 0xFF && b[1] == 0xFE {
        (IniEncoding::Utf16Le, 2)
    } else if b.len() >= 2 && b[0] == 0xFE && b[1] == 0xFF {
        (IniEncoding::Utf16Be, 2)
    } else if b.len() >= 3 && b[0] == 0xEF && b[1] == 0xBB && b[2] == 0xBF {
        (IniEncoding::Utf8, 3)
    } else {
        (IniEncoding::Utf8, 0)
    }
}

/// Detect the encoding of INI bytes by BOM.
pub fn ini_encoding(bytes: &[u8]) -> (r: (IniEncoding, usize))
    ensures
        (r.0, r.1 as int) == ini_encoding_spec(bytes@),
{
    let n = bytes.len();
    if n >= 2 && bytes[0] == 0xFF && bytes[1] == 0xFE {
        (IniEncoding::Utf16Le, 2)
    } else if n >= 2 && bytes[0] == 0xFE && bytes[1] == 0xFF {
        (IniEncoding::Utf16Be, 2)
    } else if n >= 3 && bytes[0] == 0xEF && bytes[1] == 0xBB && bytes[2] == 0xBF {
        (IniEncoding::Utf8, 3)
    } else {
        (IniEncoding::Utf8, 0)
    }
}

/// `t` without one leading U+FEFF.
pub open spec fn strip_feff(t: Seq<char>) -> Seq<char> {
    if t.len() > 0 && t[0] as u32 == 0xFEFF {
        t.drop_first()
    } else {
        t
    }
}

fn code_of(c: char) -> (r: u32)
    ensures
        r == c as u32,
{
    c as u32
}

/// The lines of decoded INI text: a residual U+FEFF (double-BOM files
/// exist) is dropped, then the text splits as `str::lines` does.
pub fn ini_lines(text: &str) -> (r: Vec<String>)
    ensures
        texts(r@) == lines_of_spec(strip_feff(text@)),
{
    let v = chars_of(text);
    if v.len() > 0 && code_of(v[0]) == 0xFEFF {
        let rest = string_of_range(&v, 1, v.len());
        assert(v@.subrange(1, v@.len() as int) =~= text@.drop_first());
        crate::text::split_lines(rest.as_str())
    } else {
        crate::text::split_lines(text)
    }
}

/// Why INI bytes could not be decoded: malformed sequences in the
/// detected encoding.
#[derive(Debug, Clone, Copy, PartialEq, Eq, Structural)]
pub enum DecodeError {
    Malformed(IniEncoding),
}

impl DecodeError {
    /// The message shown for the error.
    pub fn message(&self) -> (r: &str)
        ensures
            r@ == match self {
                DecodeError::Malformed(IniEncoding::Utf16Le) => "UTF-16 LE decoding produced errors"@,
                DecodeError::Malformed(IniEncoding::Utf16Be) => "UTF-16 BE decoding produced errors"@,
                DecodeError::Malformed(IniEncoding::Utf8) => "UTF-8 decoding produced errors"@,
            },
    {
        match self {
            DecodeError::Malformed(IniEncoding::Utf16Le) => "UTF-16 LE decoding produced errors",
            DecodeError::Malformed(IniEncoding::Utf16Be) => "UTF-16 BE decoding produced errors",
            DecodeError::Malformed(IniEncoding::Utf8) => "UTF-8 decoding produced errors",
        }
    }
}

/// Decode INI bytes into lines, the encoding detected by BOM (UTF-16 LE,
/// UTF-16 BE, UTF-8 with BOM, otherwise plain UTF-8); the BOM is not
/// part of the text, nor is a residual decoded U+FEFF.
pub fn decode_ini(bytes: &[u8]) -> (r: Result<Vec<String>, DecodeError>)
    requires
        bytes@.len() <= usize::MAX / 4,
    ensures
        ({
            let (enc, skip) = ini_encoding_spec(bytes@);
            let (text, bad) = decoded(enc, bytes@.skip(skip));
            match r {
                Ok(lines) => !bad && texts(lines@) == lines_of_spec(strip_feff(text)),
                Err(e) => bad && e == DecodeError::Malformed(enc),
            }
        }),
        forall|ls: Seq<Seq<char>>|
            bytes@ == utf8_bom() + #[trigger] encoded_lines(ls) && ini_roundtrip_ok(ls) ==> (r matches Ok(
                lines,
            ) && texts(lines@) == ls),
{
    let (enc, skip) = ini_encoding(bytes);
    let mut body: Vec<u8> = Vec::new();
    let mut i: usize = skip;
    while i < bytes.len()
        invariant
            skip <= i <= bytes@.len(),
            body@ == bytes@.subrange(skip as int, i as int),
        decreases bytes@.len() - i,
    {
        body.push(bytes[i]);
        i = i + 1;
        assert(body@ =~= bytes@.subrange(skip as int, i as int));
    }
    assert(body@ =~= bytes@.skip(skip as int));
    let (text, bad) = decode_bytes(enc, body.as_slice());
    proof {
        assert forall|ls: Seq<Seq<char>>|
            bytes@ == utf8_bom() + #[trigger] encoded_lines(ls) && ini_roundtrip_ok(ls) implies !bad
                && lines_of_spec(strip_feff(text@)) == ls by {
            lemma_written_ini(bytes@, ls);
        }
    }
    if bad {
        return Err(DecodeError::Malformed(enc));
    }
    Ok(ini_lines(text.as_str()))
}

// ── Encode ──────────────────────────────────────────────────────────────────

/// The UTF-8 BOM.
pub open spec fn utf8_bom() -> Seq<u8> {
    seq![0xEFu8, 0xBBu8, 0xBFu8]
}

/// Each line's UTF-8 bytes followed by `\n`, concatenated.
pub open spec fn encoded_lines(lines: Seq<Seq<char>>) -> Seq<u8>
    decreases lines.len(),
{
    if lines.len() == 0 {
        Seq::empty()
    } else {
        encoded_lines(lines.drop_last()) + vstd::utf8::encode_utf8(lines.last()) + seq![0x0Au8]
    }
}

/// Encode lines as the game-ready override file: UTF-8 with BOM
/// (`EF BB BF`), `\n` line endings, trailing newline.
pub fn encode_utf8_bom(lines: &[String]) -> (out: Vec<u8>)
    ensures
        out@ == utf8_bom() + encoded_lines(texts(lines@)),
{
    let mut out: Vec<u8> = Vec::new();
    out.push(0xEF);
    out.push(0xBB);
    out.push(0xBF);
    let mut i: usize = 0;
    while i < lines.len()
        invariant
            i <= lines@.len(),
            out@ == utf8_bom() + encoded_lines(texts(lines@.take(i as int))),
        decreases lines@.len() - i,
    {
        let bytes = lines[i].as_str().as_bytes();
        let mut j: usize = 0;
        let ghost before = out@;
        while j < bytes.len()
            invariant
                j <= bytes@.len(),
                out@ == before + bytes@.take(j as int),
            decreases bytes@.len() - j,
        {
            out.push(bytes[j]);
            j = j + 1;
            assert(out@ =~= before + bytes@.take(j as int));
        }
        out.push(0x0A);
        proof {
            let t = texts(lines@.take(i + 1));
            assert(t.drop_last() =~= texts(lines@.take(i as int)));
            assert(t.last() == lines@[i as int]@);
            assert(bytes@.take(j as int) =~= bytes@);
            assert(out@ =~= utf8_bom() + encoded_lines(t));
        }
        i = i + 1;
    }
    assert(lines@.take(lines@.len() as int) =~= lines@);
    out
}

// ── Patch ops ───────────────────────────────────────────────────────────────

/// `v` matches pattern character `p` ASCII-case-insensitively (`p` is
/// upper-case wherever it is a letter).
pub open spec fn ci_char_eq(v: char, p: char) -> bool {
    v == p || ('A' <= p <= 'Z' && (v as u32) == (p as u32) + 32)
}

/// `pat` occurs in `s` at `i`, ASCII-case-insensitively.
pub open spec fn occurs_ci_at(s: Seq<char>, pat: Seq<char>, i: int) -> bool {
    &&& 0 <= i
    &&& i + pat.len() <= s.len()
    &&& forall|j: int| 0 <= j < pat.len() ==> ci_char_eq(#[trigger] s[i + j], pat[j])
}

pub open spec fn contains_ci(s: Seq<char>, pat: Seq<char>) -> bool {
    exists|i: int| occurs_ci_at(s, pat, i)
}

/// CIG's unresolved-localization sentinel values.
pub open spec fn is_placeholder(value: Seq<char>) -> bool {
    contains_ci(value, "<= PLACEHOLDER =>"@) || contains_ci(value, "<= UNINITIALIZED =>"@)
}

/// The op stack stored under `k`.
pub open spec fn ops_for(patches: Seq<(Seq<char>, Vec<PatchOp>)>, k: Seq<char>) -> Option<
    Seq<PatchOp>,
> {
    match lookup(patches, k) {
        Some(v) => Some(v@),
        None => None,
    }
}

/// How [`apply_patches`] treats one line.
pub enum LineOutcome {
    /// Value rewritten.
    Patched,
    /// Key matched but the value is a placeholder sentinel.
    Skipped,
    /// No `=`, or no ops for its key.
    Untouched,
}

pub open spec fn patch_outcome(line: Seq<char>, patches: Seq<(Seq<char>, Vec<PatchOp>)>) -> LineOutcome {
    match kv_split(line) {
        Some((raw, value)) => match ops_for(patches, bare_key(raw)) {
            Some(_) => if is_placeholder(value) {
                LineOutcome::Skipped
            } else {
                LineOutcome::Patched
            },
            None => LineOutcome::Untouched,
        },
        None => LineOutcome::Untouched,
    }
}

/// One line after [`apply_patches`]: raw key kept, value run through its
/// op stack.
pub open spec fn patch_line(line: Seq<char>, patches: Seq<(Seq<char>, Vec<PatchOp>)>) -> Seq<char> {
    match kv_split(line) {
        Some((raw, value)) => match ops_for(patches, bare_key(raw)) {
            Some(ops) => if is_placeholder(value) {
                line
            } else {
                raw + seq!['='] + apply_ops_spec(value, ops)
            },
            None => line,
        },
        None => line,
    }
}

pub open spec fn count_patched(lines: Seq<Seq<char>>, patches: Seq<(Seq<char>, Vec<PatchOp>)>) -> nat
    decreases lines.len(),
{
    if lines.len() == 0 {
        0
    } else {
        count_patched(lines.drop_last(), patches) + if patch_outcome(lines.last(), patches)
            is Patched {
            1nat
        } else {
            0nat
        }
    }
}

pub open spec fn count_skipped(lines: Seq<Seq<char>>, patches: Seq<(Seq<char>, Vec<PatchOp>)>) -> nat
    decreases lines.len(),
{
    if lines.len() == 0 {
        0
    } else {
        count_skipped(lines.drop_last(), patches) + if patch_outcome(lines.last(), patches)
            is Skipped {
            1nat
        } else {
            0nat
        }
    }
}

/// Entries of `patches` whose key is the bare key of no line.
pub open spec fn count_missing<V>(entries: Seq<(Seq<char>, V)>, lines: Seq<Seq<char>>) -> nat
    decreases entries.len(),
{
    if entries.len() == 0 {
        0
    } else {
        count_missing(entries.drop_last(), lines) + if key_present(lines, entries.last().0) {
            0nat
        } else {
            1nat
        }
    }
}

/// Outcome of one [`apply_patches`] pass.
#[derive(Debug, Clone, PartialEq, Eq)]
pub struct ApplyStats {
    /// Lines whose value was rewritten.
    pub patched_lines: usize,
    /// Lines left untouched because their value is a placeholder sentinel.
    pub skipped_placeholders: usize,
    /// Patch keys that matched no line at all.
    pub missing_keys: usize,
}

/// Does `pat` occur in `s`, ASCII-case-insensitively?
fn find_ci(s: &Vec<char>, pat: &Vec<char>) -> (r: bool)
    requires
        pat@.len() > 0,
    ensures
        r == contains_ci(s@, pat@),
{
    if pat.len() > s.len() {
        return false;
    }
    let n = s.len();
    let mut i: usize = 0;
    let last = n - pat.len();
    while i <= last
        invariant
            0 < pat@.len() <= s@.len(),
            last == s@.len() - pat@.len(),
            n == s@.len(),
            i <= last + 1,
            forall|k: int| 0 <= k < i ==> !occurs_ci_at(s@, pat@, k),
        decreases s@.len() - i,
    {
        let mut j: usize = 0;
        let mut ok = true;
        while j < pat.len()
            invariant
                i + pat@.len() <= s@.len(),
                n == s@.len(),
                j <= pat@.len(),
                ok ==> forall|m: int| 0 <= m < j ==> ci_char_eq(#[trigger] s@[i + m], pat@[m]),
                !ok ==> !occurs_ci_at(s@, pat@, i as int),
            decreases pat@.len() - j,
        {
            assert(i + j < s@.len());
            let c = s[i + j];
            let p = pat[j];
            let hit = c == p || ('A' <= p && p <= 'Z' && (c as u32) == (p as u32) + 32);
            if !hit {
                ok = false;
                assert(!ci_char_eq(s@[i + j], pat@[j as int]));
            }
            j = j + 1;
        }
        if ok {
            assert(occurs_ci_at(s@, pat@, i as int));
            return true;
        }
        i = i + 1;
    }
    proof {
        assert forall|k: int| !occurs_ci_at(s@, pat@, k) by {
            if k >= i {
                assert(k + pat@.len() > s@.len());
            }
        }
    }
    false
}

/// Is `value` a placeholder sentinel? (`pl` and `un` hold the two markers.)
fn placeholder_value(value: &Vec<char>, lo: usize, pl: &Vec<char>, un: &Vec<char>) -> (r: bool)
    requires
        lo <= value@.len(),
        pl@ == "<= PLACEHOLDER =>"@,
        un@ == "<= UNINITIALIZED =>"@,
    ensures
        r == is_placeholder(value@.skip(lo as int)),
{
    let mut tail: Vec<char> = Vec::new();
    let mut i = lo;
    while i < value.len()
        invariant
            lo <= i <= value@.len(),
            tail@ == value@.subrange(lo as int, i as int),
        decreases value@.len() - i,
    {
        tail.push(value[i]);
        i = i + 1;
        assert(tail@ =~= value@.subrange(lo as int, i as int));
    }
    assert(tail@ =~= value@.skip(lo as int));
    proof {
        reveal_strlit("<= PLACEHOLDER =>");
        reveal_strlit("<= UNINITIALIZED =>");
    }
    find_ci(&tail, pl) || find_ci(&tail, un)
}

/// Apply a stacked op list to `base` in order.
fn apply_ops(base: String, ops: &Vec<PatchOp>) -> (r: String)
    ensures
        r@ == apply_ops_spec(base@, ops@),
{
    let mut value = base;
    let mut k: usize = 0;
    while k < ops.len()
        invariant
            k <= ops@.len(),
            value@ == apply_ops_spec(base@, ops@.take(k as int)),
        decreases ops@.len() - k,
    {
        let ghost prev = value@;
        match &ops[k] {
            PatchOp::Replace(v) => {
                value = v.clone();
            },
            PatchOp::Prefix(p) => {
                let mut next = p.clone();
                next.append(value.as_str());
                value = next;
            },
            PatchOp::Suffix(sfx) => {
                value.append(sfx.as_str());
            },
        }
        assert(ops@.take(k + 1).drop_last() =~= ops@.take(k as int));
        k = k + 1;
    }
    assert(ops@.take(ops@.len() as int) =~= ops@);
    value
}

/// Apply patch-op stacks to the lines in place.
///
/// Each (`,P`-stripped) key can carry a stack of ops, applied in order:
/// `Replace` overwrites the running value outright, `Prefix` / `Suffix`
/// compose around it. Placeholder-valued lines are skipped; the raw key —
/// `,P` marker included — is preserved on rewrite.
#[verifier::spinoff_prover]
pub fn apply_patches(lines: &mut Vec<String>, patches: &StrMap<Vec<PatchOp>>) -> (stats: ApplyStats)
    requires
        patches.wf(),
    ensures
        final(lines)@.len() == old(lines)@.len(),
        forall|i: int|
            0 <= i < old(lines)@.len() ==> #[trigger] final(lines)@[i]@ == patch_line(
                old(lines)@[i]@,
                patches@,
            ),
        stats.patched_lines == count_patched(texts(old(lines)@), patches@),
        stats.skipped_placeholders == count_skipped(texts(old(lines)@), patches@),
        stats.missing_keys == count_missing(patches@, texts(old(lines)@)),
{
    let pl = chars_of("<= PLACEHOLDER =>");
    let un = chars_of("<= UNINITIALIZED =>");
    let ghost orig = texts(lines@);
    let mut matched: Vec<bool> = Vec::new();
    let mut m: usize = 0;
    while m < patches.len()
        invariant
            patches.wf(),
            m <= patches@.len(),
            matched@.len() == m,
            forall|j: int| 0 <= j < m ==> !matched@[j],
        decreases patches@.len() - m,
    {
        matched.push(false);
        m = m + 1;
    }
    proof {
        patches.lemma_wf_sorted();
    }

    let mut patched: usize = 0;
    let mut skipped: usize = 0;
    let mut i: usize = 0;
    while i < lines.len()
        invariant
            patches.wf(),
            crate::strmap::entries_sorted(patches@),
            pl@ == "<= PLACEHOLDER =>"@,
            un@ == "<= UNINITIALIZED =>"@,
            orig.len() == lines@.len(),
            i <= lines@.len(),
            matched@.len() == patches@.len(),
            forall|j: int| 0 <= j < i ==> #[trigger] lines@[j]@ == patch_line(orig[j], patches@),
            forall|j: int| i <= j < lines@.len() ==> #[trigger] lines@[j]@ == orig[j],
            forall|j: int|
                0 <= j < patches@.len() ==> #[trigger] matched@[j] == key_present(
                    orig.take(i as int),
                    patches@[j].0,
                ),
            patched == count_patched(orig.take(i as int), patches@),
            skipped == count_skipped(orig.take(i as int), patches@),
            patched <= i,
            skipped <= i,
        decreases lines@.len() - i,
    {
        let ghost line = orig[i as int];
        assert(orig.take(i + 1).drop_last() =~= orig.take(i as int));
        assert(orig.take(i + 1).last() == line);
        let parts = split_line(lines[i].as_str());
        match parts {
            None => {
                proof {
                    assert forall|j: int| 0 <= j < patches@.len() implies #[trigger] matched@[j]
                        == key_present(orig.take(i + 1), patches@[j].0) by {
                        if key_present(orig.take(i + 1), patches@[j].0) {
                            let w = choose|w: int|
                                0 <= w < i + 1 && #[trigger] line_key(orig.take(i + 1)[w]) == Some(
                                    patches@[j].0,
                                );
                            assert(w != i);
                            assert(orig.take(i + 1)[w] == orig.take(i as int)[w]);
                        }
                        if key_present(orig.take(i as int), patches@[j].0) {
                            let w = choose|w: int|
                                0 <= w < i && #[trigger] line_key(orig.take(i as int)[w]) == Some(
                                    patches@[j].0,
                                );
                            assert(orig.take(i + 1)[w] == orig.take(i as int)[w]);
                        }
                    }
                }
            },
            Some(p) => {
                let key = copy_prefix(&p.chars, p.key_end);
                match patches.index_of(&key) {
                    None => {
                        proof {
                            assert forall|j: int| 0 <= j < patches@.len() implies #[trigger] matched@[j]
                                == key_present(orig.take(i + 1), patches@[j].0) by {
                                if key_present(orig.take(i + 1), patches@[j].0) {
                                    let w = choose|w: int|
                                        0 <= w < i + 1 && #[trigger] line_key(orig.take(i + 1)[w])
                                            == Some(patches@[j].0);
                                    if w == i {
                                        lemma_lookup_at(patches@, j);
                                    } else {
                                        assert(orig.take(i + 1)[w] == orig.take(i as int)[w]);
                                    }
                                }
                                if key_present(orig.take(i as int), patches@[j].0) {
                                    let w = choose|w: int|
                                        0 <= w < i && #[trigger] line_key(orig.take(i as int)[w])
                                            == Some(patches@[j].0);
                                    assert(orig.take(i + 1)[w] == orig.take(i as int)[w]);
                                }
                            }
                        }
                    },
                    Some(idx) => {
                        proof {
                            lemma_lookup_at(patches@, idx as int);
                        }
                        matched.set(idx, true);
                        proof {
                            assert forall|j: int| 0 <= j < patches@.len() implies #[trigger] matched@[j]
                                == key_present(orig.take(i + 1), patches@[j].0) by {
                                if j == idx {
                                    assert(line_key(orig.take(i + 1)[i as int]) == Some(
                                        patches@[j].0,
                                    ));
                                } else {
                                    if key_present(orig.take(i + 1), patches@[j].0) {
                                        let w = choose|w: int|
                                            0 <= w < i + 1 && #[trigger] line_key(
                                                orig.take(i + 1)[w],
                                            ) == Some(patches@[j].0);
                                        if w == i {
                                            crate::text::lemma_lex_irreflexive(patches@[j].0);
                                            if j < idx {
                                                assert(crate::text::lex_lt(
                                                    patches@[j].0,
                                                    patches@[idx as int].0,
                                                ));
                                            } else {
                                                assert(crate::text::lex_lt(
                                                    patches@[idx as int].0,
                                                    patches@[j].0,
                                                ));
                                            }
                                        } else {
                                            assert(orig.take(i + 1)[w] == orig.take(i as int)[w]);
                                        }
                                    }
                                    if key_present(orig.take(i as int), patches@[j].0) {
                                        let w = choose|w: int|
                                            0 <= w < i && #[trigger] line_key(
                                                orig.take(i as int)[w],
                                            ) == Some(patches@[j].0);
                                        assert(orig.take(i + 1)[w] == orig.take(i as int)[w]);
                                    }
                                }
                            }
                        }
                        if placeholder_value(&p.chars, p.eq + 1, &pl, &un) {
                            skipped = skipped + 1;
                        } else {
                            let value = string_of_range(&p.chars, p.eq + 1, p.chars.len());
                            let ops = patches.value_at(idx);
                            let new_value = apply_ops(value, ops);
                            let mut new_line = string_of_range(&p.chars, 0, p.eq);
                            new_line.push('=');
                            new_line.append(new_value.as_str());
                            lines.set(i, new_line);
                            patched = patched + 1;
                        }
                    },
                }
            },
        }
        i = i + 1;
    }

    assert(orig.take(lines@.len() as int) =~= orig);
    let mut missing: usize = 0;
    let mut k: usize = 0;
    while k < matched.len()
        invariant
            k <= matched@.len(),
            matched@.len() == patches@.len(),
            forall|j: int|
                0 <= j < patches@.len() ==> #[trigger] matched@[j] == key_present(
                    orig,
                    patches@[j].0,
                ),
            missing == count_missing(patches@.take(k as int), orig),
            missing <= k,
        decreases matched@.len() - k,
    {
        assert(patches@.take(k + 1).drop_last() =~= patches@.take(k as int));
        if !matched[k] {
            missing = missing + 1;
        }
        k = k + 1;
    }
    assert(orig.take(lines@.len() as int) =~= orig);
    assert(patches@.take(patches@.len() as int) =~= patches@);
    ApplyStats { patched_lines: patched, skipped_placeholders: skipped, missing_keys: missing }
}

// ── Renames ─────────────────────────────────────────────────────────────────

/// The target of the last rename whose `from` is `k`.
pub open spec fn rename_target(renames: Seq<KeyRename>, k: Seq<char>) -> Option<Seq<char>>
    decreases renames.len(),
{
    if renames.len() == 0 {
        None
    } else if renames.last().from@ == k {
        Some(renames.last().to@)
    } else {
        rename_target(renames.drop_last(), k)
    }
}

/// One line after [`apply_renames`]: a renamed key keeps its `,` marker
/// and its value.
pub open spec fn rename_line(line: Seq<char>, renames: Seq<KeyRename>) -> Seq<char> {
    match kv_split(line) {
        Some((raw, value)) => match rename_target(renames, bare_key(raw)) {
            Some(to) => match key_marker(raw) {
                Some(marker) => to + seq![','] + marker + seq!['='] + value,
                None => to + seq!['='] + value,
            },
            None => line,
        },
        None => line,
    }
}

pub open spec fn count_renamed(lines: Seq<Seq<char>>, renames: Seq<KeyRename>) -> nat
    decreases lines.len(),
{
    if lines.len() == 0 {
        0
    } else {
        count_renamed(lines.drop_last(), renames) + match line_key(lines.last()) {
            Some(k) => if rename_target(renames, k) is Some {
                1nat
            } else {
                0nat
            },
            None => 0nat,
        }
    }
}

/// Apply key renames in place, keeping values and any `,P` marker on the
/// renamed key. Renames whose `from` key doesn't exist are skipped; when
/// several renames share a `from`, the last one wins. Returns the number of
/// lines renamed.
pub fn apply_renames(lines: &mut Vec<String>, renames: &[KeyRename]) -> (n: usize)
    ensures
        final(lines)@.len() == old(lines)@.len(),
        forall|i: int|
            0 <= i < old(lines)@.len() ==> #[trigger] final(lines)@[i]@ == rename_line(
                old(lines)@[i]@,
                renames@,
            ),
        n == count_renamed(texts(old(lines)@), renames@),
{
    let mut table: StrMap<String> = StrMap::new();
    let mut r: usize = 0;
    while r < renames.len()
        invariant
            table.wf(),
            r <= renames@.len(),
            forall|k: Seq<char>|
                #[trigger] lookup(table@, k) matches Some(v) ==> rename_target(
                    renames@.take(r as int),
                    k,
                ) == Some(v@),
            forall|k: Seq<char>|
                lookup(table@, k) is None ==> #[trigger] rename_target(renames@.take(r as int), k)
                    is None,
        decreases renames@.len() - r,
    {
        assert(renames@.take(r + 1).drop_last() =~= renames@.take(r as int));
        table.insert(renames[r].from.as_str(), renames[r].to.clone());
        r = r + 1;
    }
    assert(renames@.take(renames@.len() as int) =~= renames@);

    let ghost orig = texts(lines@);
    let mut applied: usize = 0;
    let mut i: usize = 0;
    while i < lines.len()
        invariant
            table.wf(),
            forall|k: Seq<char>|
                #[trigger] lookup(table@, k) matches Some(v) ==> rename_target(renames@, k) == Some(
                    v@,
                ),
            forall|k: Seq<char>|
                lookup(table@, k) is None ==> #[trigger] rename_target(renames@, k) is None,
            orig.len() == lines@.len(),
            i <= lines@.len(),
            forall|j: int| 0 <= j < i ==> #[trigger] lines@[j]@ == rename_line(orig[j], renames@),
            forall|j: int| i <= j < lines@.len() ==> #[trigger] lines@[j]@ == orig[j],
            applied == count_renamed(orig.take(i as int), renames@),
            applied <= i,
        decreases lines@.len() - i,
    {
        assert(orig.take(i + 1).drop_last() =~= orig.take(i as int));
        assert(orig.take(i + 1).last() == orig[i as int]);
        match split_line(lines[i].as_str()) {
            None => {},
            Some(p) => {
                let key = copy_prefix(&p.chars, p.key_end);
                match table.get_chars(&key) {
                    None => {},
                    Some(to) => {
                        let mut new_line = to.clone();
                        if p.key_end < p.eq {
                            new_line.push(',');
                            push_range(&mut new_line, &p.chars, p.key_end + 1, p.eq);
                        }
                        push_range(&mut new_line, &p.chars, p.eq, p.chars.len());
                        proof {
                            let v = p.chars@;
                            assert(v.subrange(p.eq as int, v.len() as int) =~= seq!['='] + v.skip(
                                p.eq + 1,
                            ));
                        }
                        lines.set(i, new_line);
                        applied = applied + 1;
                    },
                }
            },
        }
        i = i + 1;
    }
    assert(orig.take(lines@.len() as int) =~= orig);
    applied
}

// ── User overrides ──────────────────────────────────────────────────────────

/// Extending the scanned prefix by one line adds exactly that line's key.
proof fn lemma_present_step(lines: Seq<Seq<char>>, i: int, k: Seq<char>)
    requires
        0 <= i < lines.len(),
    ensures
        key_present(lines.take(i + 1), k) == (key_present(lines.take(i), k) || line_key(lines[i])
            == Some(k)),
{
    if key_present(lines.take(i + 1), k) {
        let w = choose|w: int| 0 <= w < i + 1 && #[trigger] line_key(lines.take(i + 1)[w]) == Some(k);
        if w < i {
            assert(lines.take(i + 1)[w] == lines.take(i)[w]);
        }
    }
    if key_present(lines.take(i), k) {
        let w = choose|w: int| 0 <= w < i && #[trigger] line_key(lines.take(i)[w]) == Some(k);
        assert(lines.take(i + 1)[w] == lines.take(i)[w]);
    }
    if line_key(lines[i]) == Some(k) {
        assert(lines.take(i + 1)[i] == lines[i]);
    }
}

/// One line after [`apply_user_overrides`].
pub open spec fn override_line(line: Seq<char>, ov: Seq<(Seq<char>, String)>) -> Seq<char> {
    match kv_split(line) {
        Some((raw, _)) => match lookup(ov, bare_key(raw)) {
            Some(v) => raw + seq!['='] + v@,
            None => line,
        },
        None => line,
    }
}

/// `key=value` lines appended for override keys no base line carries, in
/// key order.
pub open spec fn override_appends(ov: Seq<(Seq<char>, String)>, base: Seq<Seq<char>>) -> Seq<
    Seq<char>,
>
    decreases ov.len(),
{
    if ov.len() == 0 {
        Seq::empty()
    } else {
        let prev = override_appends(ov.drop_last(), base);
        if key_present(base, ov.last().0) {
            prev
        } else {
            prev.push(ov.last().0 + seq!['='] + ov.last().1@)
        }
    }
}

pub open spec fn count_overridden(lines: Seq<Seq<char>>, ov: Seq<(Seq<char>, String)>) -> nat
    decreases lines.len(),
{
    if lines.len() == 0 {
        0
    } else {
        count_overridden(lines.drop_last(), ov) + match line_key(lines.last()) {
            Some(k) => if lookup(ov, k) is Some {
                1nat
            } else {
                0nat
            },
            None => 0nat,
        }
    }
}

/// Apply the user-edit layer — run last so user edits always win.
///
/// Every line with an overridden (`,P`-stripped) key gets its value
/// replaced outright (raw key kept); override keys matching no line are
/// appended as `key=value` at the end, in key order. Placeholder sentinels
/// are not exempt here. Returns the number of lines touched.
pub fn apply_user_overrides(lines: &mut Vec<String>, overrides: &StrMap<String>) -> (touched: usize)
    requires
        overrides.wf(),
        old(lines)@.len() + overrides@.len() <= usize::MAX,
    ensures
        final(lines)@.len() == old(lines)@.len() + override_appends(
            overrides@,
            texts(old(lines)@),
        ).len(),
        forall|i: int|
            0 <= i < old(lines)@.len() ==> #[trigger] final(lines)@[i]@ == override_line(
                old(lines)@[i]@,
                overrides@,
            ),
        forall|j: int|
            0 <= j < override_appends(overrides@, texts(old(lines)@)).len()
                ==> #[trigger] final(lines)@[old(lines)@.len() + j]@
                == override_appends(overrides@, texts(old(lines)@))[j],
        touched == count_overridden(texts(old(lines)@), overrides@) + override_appends(
            overrides@,
            texts(old(lines)@),
        ).len(),
{
    proof {
        overrides.lemma_wf_sorted();
    }
    let ghost orig = texts(lines@);
    let n0 = lines.len();
    let mut seen: Vec<bool> = Vec::new();
    let mut m: usize = 0;
    while m < overrides.len()
        invariant
            overrides.wf(),
            m <= overrides@.len(),
            seen@.len() == m,
            forall|j: int| 0 <= j < m ==> !seen@[j],
        decreases overrides@.len() - m,
    {
        seen.push(false);
        m = m + 1;
    }

    let mut touched: usize = 0;
    let mut i: usize = 0;
    while i < n0
        invariant
            overrides.wf(),
            crate::strmap::entries_sorted(overrides@),
            n0 == orig.len(),
            orig.len() == lines@.len(),
            i <= n0,
            seen@.len() == overrides@.len(),
            forall|j: int| 0 <= j < i ==> #[trigger] lines@[j]@ == override_line(orig[j], overrides@),
            forall|j: int| i <= j < lines@.len() ==> #[trigger] lines@[j]@ == orig[j],
            forall|j: int|
                0 <= j < overrides@.len() ==> #[trigger] seen@[j] == key_present(
                    orig.take(i as int),
                    overrides@[j].0,
                ),
            touched == count_overridden(orig.take(i as int), overrides@),
            touched <= i,
        decreases n0 - i,
    {
        assert(orig.take(i + 1).drop_last() =~= orig.take(i as int));
        assert(orig.take(i + 1).last() == orig[i as int]);
        match split_line(lines[i].as_str()) {
            None => {
                proof {
                    assert forall|j: int| 0 <= j < overrides@.len() implies #[trigger] seen@[j]
                        == key_present(orig.take(i + 1), overrides@[j].0) by {
                        lemma_present_step(orig, i as int, overrides@[j].0);
                    }
                }
            },
            Some(p) => {
                let key = copy_prefix(&p.chars, p.key_end);
                match overrides.index_of(&key) {
                    None => {
                        proof {
                            assert forall|j: int| 0 <= j < overrides@.len() implies #[trigger] seen@[j]
                                == key_present(orig.take(i + 1), overrides@[j].0) by {
                                lemma_present_step(orig, i as int, overrides@[j].0);
                                lemma_lookup_at(overrides@, j);
                            }
                        }
                    },
                    Some(idx) => {
                        proof {
                            lemma_lookup_at(overrides@, idx as int);
                        }
                        seen.set(idx, true);
                        proof {
                            assert forall|j: int| 0 <= j < overrides@.len() implies #[trigger] seen@[j]
                                == key_present(orig.take(i + 1), overrides@[j].0) by {
                                lemma_present_step(orig, i as int, overrides@[j].0);
                                if j != idx {
                                    crate::text::lemma_lex_irreflexive(overrides@[j].0);
                                    if j < idx {
                                        assert(crate::text::lex_lt(
                                            overrides@[j].0,
                                            overrides@[idx as int].0,
                                        ));
                                    } else {
                                        assert(crate::text::lex_lt(
                                            overrides@[idx as int].0,
                                            overrides@[j].0,
                                        ));
                                    }
                                }
                            }
                        }
                        let mut new_line = string_of_range(&p.chars, 0, p.eq);
                        new_line.push('=');
                        new_line.append(overrides.value_at(idx).as_str());
                        lines.set(i, new_line);
                        touched = touched + 1;
                    },
                }
            },
        }
        i = i + 1;
    }
    assert(orig.take(n0 as int) =~= orig);
    let ghost replaced = touched;

    let mut k: usize = 0;
    let ghost mut appended: nat = 0;
    while k < overrides.len()
        invariant
            overrides.wf(),
            k <= overrides@.len(),
            seen@.len() == overrides@.len(),
            forall|j: int|
                0 <= j < overrides@.len() ==> #[trigger] seen@[j] == key_present(
                    orig,
                    overrides@[j].0,
                ),
            n0 == orig.len(),
            n0 + overrides@.len() <= usize::MAX,
            replaced <= n0,
            lines@.len() == n0 + override_appends(overrides@.take(k as int), orig).len(),
            override_appends(overrides@.take(k as int), orig).len() <= k,
            forall|j: int| 0 <= j < n0 ==> #[trigger] lines@[j]@ == override_line(orig[j], overrides@),
            forall|j: int|
                0 <= j < override_appends(overrides@.take(k as int), orig).len() ==> #[trigger] lines@[n0
                    + j]@ == override_appends(overrides@.take(k as int), orig)[j],
            touched == replaced + override_appends(overrides@.take(k as int), orig).len(),
        decreases overrides@.len() - k,
    {
        assert(overrides@.take(k + 1).drop_last() =~= overrides@.take(k as int));
        assert(overrides@.take(k + 1).last() == overrides@[k as int]);
        if !seen[k] {
            let mut line = String::new();
            line.append(overrides.key_at(k));
            line.push('=');
            line.append(overrides.value_at(k).as_str());
            lines.push(line);
            touched = touched + 1;
        }
        k = k + 1;
    }
    assert(overrides@.take(overrides@.len() as int) =~= overrides@);
    touched
}

// ── Language pack ───────────────────────────────────────────────────────────

/// The raw key of a pack line (packs are authored against bare keys, so
/// their keys are not stripped).
pub open spec fn pack_key(line: Seq<char>) -> Option<Seq<char>> {
    match kv_split(line) {
        Some((raw, _)) => Some(raw),
        None => None,
    }
}

/// Some pack line has raw key `k`.
pub open spec fn pack_has(pack: Seq<Seq<char>>, k: Seq<char>) -> bool {
    exists|j: int| 0 <= j < pack.len() && #[trigger] pack_key(pack[j]) == Some(k)
}

/// The value of the last pack line with raw key `k`.
pub open spec fn pack_value(pack: Seq<Seq<char>>, k: Seq<char>) -> Option<Seq<char>>
    decreases pack.len(),
{
    if pack.len() == 0 {
        None
    } else {
        match kv_split(pack.last()) {
            Some((raw, v)) => if raw == k {
                Some(v)
            } else {
                pack_value(pack.drop_last(), k)
            },
            None => pack_value(pack.drop_last(), k),
        }
    }
}

/// One base line after [`apply_language_pack`].
pub open spec fn pack_line(line: Seq<char>, pack: Seq<Seq<char>>) -> Seq<char> {
    match kv_split(line) {
        Some((raw, _)) => match pack_value(pack, bare_key(raw)) {
            Some(v) => raw + seq!['='] + v,
            None => line,
        },
        None => line,
    }
}

/// Pack entries no base line carries, as `key=value` lines: first-seen
/// key order, each key once, with its last value in the whole pack.
pub open spec fn pack_appends(pack: Seq<Seq<char>>, base: Seq<Seq<char>>, full: Seq<Seq<char>>) -> Seq<
    Seq<char>,
>
    decreases pack.len(),
{
    if pack.len() == 0 {
        Seq::empty()
    } else {
        let prev = pack_appends(pack.drop_last(), base, full);
        match pack_key(pack.last()) {
            Some(k) => if key_present(base, k) || pack_has(pack.drop_last(), k) {
                prev
            } else {
                match pack_value(full, k) {
                    Some(v) => prev.push(k + seq!['='] + v),
                    None => prev,
                }
            },
            None => prev,
        }
    }
}

pub open spec fn count_pack_replaced(lines: Seq<Seq<char>>, pack: Seq<Seq<char>>) -> nat
    decreases lines.len(),
{
    if lines.len() == 0 {
        0
    } else {
        count_pack_replaced(lines.drop_last(), pack) + match line_key(lines.last()) {
            Some(k) => if pack_value(pack, k) is Some {
                1nat
            } else {
                0nat
            },
            None => 0nat,
        }
    }
}

proof fn lemma_pack_has_step(pack: Seq<Seq<char>>, i: int, k: Seq<char>)
    requires
        0 <= i < pack.len(),
    ensures
        pack_has(pack.take(i + 1), k) == (pack_has(pack.take(i), k) || pack_key(pack[i]) == Some(k)),
{
    if pack_has(pack.take(i + 1), k) {
        let w = choose|w: int| 0 <= w < i + 1 && #[trigger] pack_key(pack.take(i + 1)[w]) == Some(k);
        if w < i {
            assert(pack.take(i + 1)[w] == pack.take(i)[w]);
        }
    }
    if pack_has(pack.take(i), k) {
        let w = choose|w: int| 0 <= w < i && #[trigger] pack_key(pack.take(i)[w]) == Some(k);
        assert(pack.take(i + 1)[w] == pack.take(i)[w]);
    }
    if pack_key(pack[i]) == Some(k) {
        assert(pack.take(i + 1)[i] == pack[i]);
    }
}

/// A key has a pack value exactly when some pack line carries it.
proof fn lemma_pack_value_has(pack: Seq<Seq<char>>, k: Seq<char>)
    ensures
        pack_value(pack, k) is Some <==> pack_has(pack, k),
    decreases pack.len(),
{
    if pack.len() > 0 {
        let n = pack.len() - 1;
        lemma_pack_value_has(pack.drop_last(), k);
        assert(pack.take(n) =~= pack.drop_last());
        assert(pack.take(n + 1) =~= pack);
        lemma_pack_has_step(pack, n, k);
    } else {
        assert(!pack_has(pack, k));
    }
}

/// Overlay a community language pack onto the base lines.
///
/// For every `key=value` line in the pack, replaces the value of the
/// matching (`,P`-stripped) base key in place, the base line keeping its
/// raw key; the last pack line for a key wins. Pack keys with no base match
/// are appended at the end in first-seen pack order. Base line order is
/// preserved; pack lines without `=` are ignored. Returns the number of
/// lines replaced or appended.
pub fn apply_language_pack(lines: &mut Vec<String>, pack_lines: &[String]) -> (changed: usize)
    requires
        old(lines)@.len() + pack_lines@.len() <= usize::MAX,
    ensures
        ({
            let base = texts(old(lines)@);
            let pack = texts(pack_lines@);
            let appended = pack_appends(pack, base, pack);
            &&& final(lines)@.len() == base.len() + appended.len()
            &&& forall|i: int|
                0 <= i < base.len() ==> #[trigger] final(lines)@[i]@ == pack_line(base[i], pack)
            &&& forall|j: int|
                0 <= j < appended.len() ==> #[trigger] final(lines)@[base.len() + j]@ == appended[j]
            &&& changed == count_pack_replaced(base, pack) + appended.len()
        }),
{
    let ghost pack = texts(pack_lines@);
    let ghost orig = texts(lines@);

    // Pack keys → their last value.
    let mut table: StrMap<String> = StrMap::new();
    let mut r: usize = 0;
    while r < pack_lines.len()
        invariant
            table.wf(),
            r <= pack_lines@.len(),
            pack == texts(pack_lines@),
            forall|k: Seq<char>| #[trigger] lookup_text(table@, k) == pack_value(pack.take(r as int), k),
        decreases pack_lines@.len() - r,
    {
        assert(pack.take(r + 1).drop_last() =~= pack.take(r as int));
        assert(pack.take(r + 1).last() == pack_lines@[r as int]@);
        let ghost old_table = table@;
        match split_line(pack_lines[r].as_str()) {
            None => {},
            Some(p) => {
                let n = p.chars.len();
                let key = string_of_range(&p.chars, 0, p.eq);
                let value = string_of_range(&p.chars, p.eq + 1, n);
                table.insert(key.as_str(), value);
                proof {
                    assert forall|k: Seq<char>| #[trigger] lookup_text(table@, k) == pack_value(
                        pack.take(r + 1),
                        k,
                    ) by {
                        if k != key@ {
                            assert(lookup_text(table@, k) == lookup_text(old_table, k));
                        }
                    }
                }
            },
        }
        r = r + 1;
    }
    assert(pack.take(pack_lines@.len() as int) =~= pack);
    proof {
        table.lemma_wf_sorted();
    }

    let n0 = lines.len();
    let mut seen: Vec<bool> = Vec::new();
    let mut m: usize = 0;
    while m < table.len()
        invariant
            table.wf(),
            m <= table@.len(),
            seen@.len() == m,
            forall|j: int| 0 <= j < m ==> !seen@[j],
        decreases table@.len() - m,
    {
        seen.push(false);
        m = m + 1;
    }

    let mut changed: usize = 0;
    let mut i: usize = 0;
    while i < n0
        invariant
            table.wf(),
            crate::strmap::entries_sorted(table@),
            forall|k: Seq<char>| #[trigger] lookup_text(table@, k) == pack_value(pack, k),
            n0 == orig.len(),
            orig.len() == lines@.len(),
            i <= n0,
            seen@.len() == table@.len(),
            forall|j: int| 0 <= j < i ==> #[trigger] lines@[j]@ == pack_line(orig[j], pack),
            forall|j: int| i <= j < lines@.len() ==> #[trigger] lines@[j]@ == orig[j],
            forall|j: int|
                0 <= j < table@.len() ==> #[trigger] seen@[j] == key_present(
                    orig.take(i as int),
                    table@[j].0,
                ),
            changed == count_pack_replaced(orig.take(i as int), pack),
            changed <= i,
        decreases n0 - i,
    {
        assert(orig.take(i + 1).drop_last() =~= orig.take(i as int));
        assert(orig.take(i + 1).last() == orig[i as int]);
        match split_line(lines[i].as_str()) {
            None => {
                proof {
                    assert forall|j: int| 0 <= j < table@.len() implies #[trigger] seen@[j]
                        == key_present(orig.take(i + 1), table@[j].0) by {
                        lemma_present_step(orig, i as int, table@[j].0);
                    }
                }
            },
            Some(p) => {
                let key = copy_prefix(&p.chars, p.key_end);
                assert(lookup_text(table@, key@) == pack_value(pack, key@));
                match table.index_of(&key) {
                    None => {
                        proof {
                            assert forall|j: int| 0 <= j < table@.len() implies #[trigger] seen@[j]
                                == key_present(orig.take(i + 1), table@[j].0) by {
                                lemma_present_step(orig, i as int, table@[j].0);
                                lemma_lookup_at(table@, j);
                            }
                        }
                    },
                    Some(idx) => {
                        proof {
                            lemma_lookup_at(table@, idx as int);
                        }
                        seen.set(idx, true);
                        proof {
                            assert forall|j: int| 0 <= j < table@.len() implies #[trigger] seen@[j]
                                == key_present(orig.take(i + 1), table@[j].0) by {
                                lemma_present_step(orig, i as int, table@[j].0);
                                if j != idx {
                                    crate::text::lemma_lex_irreflexive(table@[j].0);
                                    if j < idx {
                                        assert(crate::text::lex_lt(
                                            table@[j].0,
                                            table@[idx as int].0,
                                        ));
                                    } else {
                                        assert(crate::text::lex_lt(
                                            table@[idx as int].0,
                                            table@[j].0,
                                        ));
                                    }
                                }
                            }
                        }
                        let mut new_line = string_of_range(&p.chars, 0, p.eq);
                        new_line.push('=');
                        new_line.append(table.value_at(idx).as_str());
                        lines.set(i, new_line);
                        changed = changed + 1;
                    },
                }
            },
        }
        i = i + 1;
    }
    assert(orig.take(n0 as int) =~= orig);
    let ghost replaced = changed;

    // Append pack keys no base line carries, first-seen order.
    let mut q: usize = 0;
    while q < pack_lines.len()
        invariant
            table.wf(),
            crate::strmap::entries_sorted(table@),
            forall|k: Seq<char>| #[trigger] lookup_text(table@, k) == pack_value(pack, k),
            pack == texts(pack_lines@),
            q <= pack_lines@.len(),
            seen@.len() == table@.len(),
            forall|j: int|
                0 <= j < table@.len() ==> #[trigger] seen@[j] == (key_present(orig, table@[j].0)
                    || pack_has(pack.take(q as int), table@[j].0)),
            n0 == orig.len(),
            n0 + pack_lines@.len() <= usize::MAX,
            replaced <= n0,
            lines@.len() == n0 + pack_appends(pack.take(q as int), orig, pack).len(),
            pack_appends(pack.take(q as int), orig, pack).len() <= q,
            forall|j: int| 0 <= j < n0 ==> #[trigger] lines@[j]@ == pack_line(orig[j], pack),
            forall|j: int|
                0 <= j < pack_appends(pack.take(q as int), orig, pack).len() ==> #[trigger] lines@[n0
                    + j]@ == pack_appends(pack.take(q as int), orig, pack)[j],
            changed == replaced + pack_appends(pack.take(q as int), orig, pack).len(),
        decreases pack_lines@.len() - q,
    {
        assert(pack.take(q + 1).drop_last() =~= pack.take(q as int));
        assert(pack.take(q + 1).last() == pack[q as int]);
        assert(pack[q as int] == pack_lines@[q as int]@);
        match split_line(pack_lines[q].as_str()) {
            None => {
                proof {
                    assert forall|j: int| 0 <= j < table@.len() implies #[trigger] seen@[j] == (
                    key_present(orig, table@[j].0) || pack_has(pack.take(q + 1), table@[j].0)) by {
                        lemma_pack_has_step(pack, q as int, table@[j].0);
                    }
                }
            },
            Some(p) => {
                let key = copy_prefix(&p.chars, p.eq);
                proof {
                    assert(pack_has(pack, key@)) by {
                        assert(pack_key(pack[q as int]) == Some(key@));
                    }
                    lemma_pack_value_has(pack, key@);
                }
                assert(lookup_text(table@, key@) == pack_value(pack, key@));
                match table.index_of(&key) {
                    None => {},
                    Some(idx) => {
                        proof {
                            lemma_lookup_at(table@, idx as int);
                            lemma_pack_has_step(pack, q as int, key@);
                        }
                        let fresh = !seen[idx];
                        seen.set(idx, true);
                        proof {
                            assert forall|j: int| 0 <= j < table@.len() implies #[trigger] seen@[j]
                                == (key_present(orig, table@[j].0) || pack_has(
                                pack.take(q + 1),
                                table@[j].0,
                            )) by {
                                lemma_pack_has_step(pack, q as int, table@[j].0);
                                if j != idx {
                                    crate::text::lemma_lex_irreflexive(table@[j].0);
                                    if j < idx {
                                        assert(crate::text::lex_lt(
                                            table@[j].0,
                                            table@[idx as int].0,
                                        ));
                                    } else {
                                        assert(crate::text::lex_lt(
                                            table@[idx as int].0,
                                            table@[j].0,
                                        ));
                                    }
                                }
                            }
                        }
                        if fresh {
                            let mut line = string_of_range(&p.chars, 0, p.eq);
                            line.push('=');
                            line.append(table.value_at(idx).as_str());
                            lines.push(line);
                            changed = changed + 1;
                        }
                    },
                }
            },
        }
        q = q + 1;
    }
    assert(pack.take(pack_lines@.len() as int) =~= pack);
    changed
}

// ── Parse ───────────────────────────────────────────────────────────────────

/// The value of the last line whose bare key is `k`.
pub open spec fn ini_value(lines: Seq<Seq<char>>, k: Seq<char>) -> Option<Seq<char>>
    decreases lines.len(),
{
    if lines.len() == 0 {
        None
    } else {
        match kv_split(lines.last()) {
            Some((raw, v)) => if bare_key(raw) == k {
                Some(v)
            } else {
                ini_value(lines.drop_last(), k)
            },
            None => ini_value(lines.drop_last(), k),
        }
    }
}

/// Parse INI lines into a key → value map, keys `,P`-stripped so they match
/// the bare reference form; a later line wins over an earlier one with the
/// same key. Lines without `=` are skipped; values keep any embedded `=`.
pub fn parse_ini(lines: &[String]) -> (map: StrMap<String>)
    ensures
        map.wf(),
        forall|k: Seq<char>| #[trigger] lookup_text(map@, k) == ini_value(texts(lines@), k),
{
    let ghost all = texts(lines@);
    let mut map: StrMap<String> = StrMap::new();
    let mut r: usize = 0;
    while r < lines.len()
        invariant
            map.wf(),
            r <= lines@.len(),
            all == texts(lines@),
            forall|k: Seq<char>| #[trigger] lookup_text(map@, k) == ini_value(all.take(r as int), k),
        decreases lines@.len() - r,
    {
        assert(all.take(r + 1).drop_last() =~= all.take(r as int));
        assert(all.take(r + 1).last() == lines@[r as int]@);
        let ghost old_map = map@;
        match split_line(lines[r].as_str()) {
            None => {},
            Some(p) => {
                let n = p.chars.len();
                let key = string_of_range(&p.chars, 0, p.key_end);
                let value = string_of_range(&p.chars, p.eq + 1, n);
                map.insert(key.as_str(), value);
                proof {
                    assert forall|k: Seq<char>| #[trigger] lookup_text(map@, k) == ini_value(
                        all.take(r + 1),
                        k,
                    ) by {
                        if k != key@ {
                            assert(lookup_text(map@, k) == lookup_text(old_map, k));
                        }
                    }
                }
            },
        }
        r = r + 1;
    }
    assert(all.take(lines@.len() as int) =~= all);
    map
}

// ── Paths and user.cfg ──────────────────────────────────────────────────────

/// `base` joined with `part`: a `/` goes between them unless `base` is empty
/// or already ends in a separator (`/` or `\`).
pub open spec fn path_join(base: Seq<char>, part: Seq<char>) -> Seq<char> {
    if base.len() == 0 || base.last() == '/' || base.last() == '\\' {
        base + part
    } else {
        base + seq!['/'] + part
    }
}

/// Join a path component onto a directory path.
pub fn join_path(base: &str, part: &str) -> (r: String)
    ensures
        r@ == path_join(base@, part@),
{
    let v = chars_of(base);
    let mut out = base.to_owned();
    let n = v.len();
    if n > 0 && v[n - 1] != '/' && v[n - 1] != '\\' {
        out.push('/');
    }
    out.append(part);
    out
}

/// Where the loose-file localization override lives inside an install:
/// `{install_dir}/data/Localization/english/global.ini`. Loose files shadow
/// the packed copy wholesale — this path is the entire mechanism.
pub fn override_path(install_dir: &str) -> (r: String)
    ensures
        r@ == path_join(
            path_join(path_join(path_join(install_dir@, "data"@), "Localization"@), "english"@),
            "global.ini"@,
        ),
{
    let a = join_path(install_dir, "data");
    let b = join_path(a.as_str(), "Localization");
    let c = join_path(b.as_str(), "english");
    join_path(c.as_str(), "global.ini")
}

/// A user.cfg line assigns `key`: after trimming, it starts with `key`,
/// then optional whitespace, then `=`. Longer keys sharing the prefix
/// (`g_languageAudio`) don't match.
pub open spec fn cfg_key_line(line: Seq<char>, key: Seq<char>) -> bool {
    let t = crate::text::trim_spec(line);
    &&& key.len() <= t.len()
    &&& t.take(key.len() as int) == key
    &&& {
        let rest = crate::text::trim_start_spec(t.skip(key.len() as int));
        rest.len() > 0 && rest[0] == '='
    }
}

fn is_cfg_key_line(line: &str, key: &str) -> (b: bool)
    ensures
        b == cfg_key_line(line@, key@),
{
    let v = chars_of(line);
    let k = chars_of(key);
    let (a, b) = crate::text::trim_bounds(&v);
    let ghost t = v@.subrange(a as int, b as int);
    if k.len() > b - a {
        return false;
    }
    let mut i: usize = 0;
    while i < k.len()
        invariant
            a <= b <= v@.len(),
            k@.len() <= b - a,
            i <= k@.len(),
            t == v@.subrange(a as int, b as int),
            t == crate::text::trim_spec(line@),
            k@ == key@,
            forall|j: int| 0 <= j < i ==> k@[j] == t[j],
        decreases k@.len() - i,
    {
        if v[a + i] != k[i] {
            assert(t.take(k@.len() as int)[i as int] != k@[i as int]);
            return false;
        }
        i = i + 1;
    }
    assert(t.take(k@.len() as int) =~= k@);
    let r = crate::text::skip_ws(&v, a + k.len(), b);
    proof {
        assert(t.skip(k@.len() as int) =~= v@.subrange(a + k@.len(), b as int));
    }
    if r < b {
        assert(crate::text::trim_start_spec(t.skip(k@.len() as int))[0] == v@[r as int]);
        v[r] == '='
    } else {
        false
    }
}

/// A user.cfg assignment line: `key = value`.
pub open spec fn cfg_assignment(key: Seq<char>, value: Seq<char>) -> Seq<char> {
    key + " = "@ + value
}

/// Each line assigning `key` replaced by `target`.
pub open spec fn cfg_replaced(lines: Seq<Seq<char>>, key: Seq<char>, target: Seq<char>) -> Seq<
    Seq<char>,
> {
    Seq::new(lines.len(), |i: int| if cfg_key_line(lines[i], key) { target } else { lines[i] })
}

/// Lines joined with `\n` between them.
pub open spec fn join_lines(lines: Seq<Seq<char>>) -> Seq<char>
    decreases lines.len(),
{
    if lines.len() == 0 {
        Seq::empty()
    } else if lines.len() == 1 {
        lines[0]
    } else {
        join_lines(lines.drop_last()) + seq!['\n'] + lines.last()
    }
}

/// `s` with a `\n` appended unless it already ends in one.
pub open spec fn with_final_newline(s: Seq<char>) -> Seq<char> {
    if s.len() > 0 && s.last() == '\n' {
        s
    } else {
        s.push('\n')
    }
}

/// The content [`upsert_cfg_key`] produces.
pub open spec fn cfg_upserted(content: Seq<char>, key: Seq<char>, value: Seq<char>) -> Seq<char> {
    let lines = crate::text::lines_of_spec(content);
    let target = cfg_assignment(key, value);
    let replaced = cfg_replaced(lines, key, target);
    let all = if exists|i: int| 0 <= i < lines.len() && cfg_key_line(lines[i], key) {
        replaced
    } else {
        replaced.push(target)
    };
    with_final_newline(join_lines(all))
}

/// Join lines with `\n` separators.
fn join_with_newlines(lines: &Vec<String>) -> (r: String)
    ensures
        r@ == join_lines(texts(lines@)),
{
    let mut out = String::new();
    let mut i: usize = 0;
    while i < lines.len()
        invariant
            i <= lines@.len(),
            out@ == join_lines(texts(lines@.take(i as int))),
        decreases lines@.len() - i,
    {
        if i > 0 {
            out.push('\n');
        }
        out.append(lines[i].as_str());
        proof {
            let t = texts(lines@.take(i + 1));
            assert(t.drop_last() =~= texts(lines@.take(i as int)));
            if i == 0 {
                assert(t =~= seq![lines@[0]@]);
            }
        }
        i = i + 1;
    }
    assert(lines@.take(lines@.len() as int) =~= lines@);
    out
}

/// Insert or update a `key = value` line in user.cfg-style content,
/// preserving all other lines; the result ends in a newline.
pub fn upsert_cfg_key(content: &str, key: &str, value: &str) -> (r: String)
    ensures
        r@ == cfg_upserted(content@, key@, value@),
{
    let mut target = key.to_owned();
    target.append(" = ");
    target.append(value);
    let src = crate::text::split_lines(content);
    let ghost lines = crate::text::lines_of_spec(content@);
    assert(texts(src@) == lines);
    let mut out: Vec<String> = Vec::new();
    let mut found = false;
    let mut i: usize = 0;
    while i < src.len()
        invariant
            i <= src@.len(),
            texts(src@) == lines,
            target@ == cfg_assignment(key@, value@),
            texts(out@) =~= cfg_replaced(lines, key@, target@).take(i as int),
            found == exists|j: int| 0 <= j < i && cfg_key_line(lines[j], key@),
        decreases src@.len() - i,
    {
        assert(lines[i as int] == src@[i as int]@);
        let ghost prev = out@;
        if is_cfg_key_line(src[i].as_str(), key) {
            found = true;
            out.push(target.clone());
        } else {
            out.push(src[i].clone());
        }
        assert(texts(out@) =~= texts(prev).push(out@[i as int]@));
        assert(texts(out@) =~= cfg_replaced(lines, key@, target@).take(i + 1));
        i = i + 1;
    }
    assert(cfg_replaced(lines, key@, target@).take(src@.len() as int) =~= cfg_replaced(
        lines,
        key@,
        target@,
    ));
    if !found {
        out.push(target.clone());
        assert(texts(out@) =~= cfg_replaced(lines, key@, target@).push(target@));
    }
    let mut result = join_with_newlines(&out);
    let rv = chars_of(result.as_str());
    if !(rv.len() > 0 && rv[rv.len() - 1] == '\n') {
        result.push('\n');
    }
    result
}

/// Lines that don't assign `key`, in order.
pub open spec fn cfg_kept(lines: Seq<Seq<char>>, key: Seq<char>) -> Seq<Seq<char>>
    decreases lines.len(),
{
    if lines.len() == 0 {
        Seq::empty()
    } else {
        let prev = cfg_kept(lines.drop_last(), key);
        if cfg_key_line(lines.last(), key) {
            prev
        } else {
            prev.push(lines.last())
        }
    }
}

/// The content [`remove_cfg_key`] produces.
pub open spec fn cfg_removed(content: Seq<char>, key: Seq<char>) -> Seq<char> {
    let kept = cfg_kept(crate::text::lines_of_spec(content), key);
    if kept.len() == 0 {
        Seq::empty()
    } else {
        join_lines(kept).push('\n')
    }
}

/// Remove all lines assigning `key` from user.cfg-style content; the result
/// is empty when nothing is left, newline-terminated otherwise.
#[verifier::rlimit(40)]
pub fn remove_cfg_key(content: &str, key: &str) -> (r: String)
    ensures
        r@ == cfg_removed(content@, key@),
{
    let src = crate::text::split_lines(content);
    let ghost lines = crate::text::lines_of_spec(content@);
    let mut out: Vec<String> = Vec::new();
    let mut i: usize = 0;
    while i < src.len()
        invariant
            i <= src@.len(),
            texts(src@) == lines,
            texts(out@) =~= cfg_kept(lines.take(i as int), key@),
        decreases src@.len() - i,
    {
        assert(lines.take(i + 1).drop_last() =~= lines.take(i as int));
        assert(lines.take(i + 1).last() == src@[i as int]@);
        let ghost prev = out@;
        if !is_cfg_key_line(src[i].as_str(), key) {
            out.push(src[i].clone());
            assert(texts(out@) =~= texts(prev).push(src@[i as int]@));
        }
        i = i + 1;
    }
    assert(lines.take(src@.len() as int) =~= lines);
    if out.len() == 0 {
        return String::new();
    }
    let mut result = join_with_newlines(&out);
    result.push('\n');
    result
}

} // verus!

verus! {

// ── Override-file bookkeeping ───────────────────────────────────────────────

/// What becomes of `user.cfg` after the override is removed.
pub enum CfgUpdate {
    /// Nothing but whitespace is left: delete the file.
    Delete,
    /// Write this content.
    Write(String),
    /// Already without the language line.
    Keep,
}

/// The `user.cfg` content after writing the override: `g_language =
/// english` upserted; `None` when the content already says so.
pub fn cfg_after_write(existing: &str) -> (r: Option<String>)
    ensures
        match r {
            Some(c) => c@ == cfg_upserted(existing@, "g_language"@, "english"@) && c@ != existing@,
            None => cfg_upserted(existing@, "g_language"@, "english"@) == existing@,
        },
{
    let updated = upsert_cfg_key(existing, "g_language", "english");
    if crate::text::str_eq(updated.as_str(), existing) {
        None
    } else {
        Some(updated)
    }
}

/// What to do with `user.cfg` after removing the override: its
/// `g_language` lines dropped, the file deleted when nothing else is left.
pub fn cfg_after_remove(content: &str) -> (r: CfgUpdate)
    ensures
        ({
            let cleaned = cfg_removed(content@, "g_language"@);
            match r {
                CfgUpdate::Delete => crate::text::trim_spec(cleaned).len() == 0,
                CfgUpdate::Write(c) => crate::text::trim_spec(cleaned).len() > 0 && c@ == cleaned && cleaned
                    != content@,
                CfgUpdate::Keep => crate::text::trim_spec(cleaned).len() > 0 && cleaned == content@,
            }
        }),
{
    let cleaned = remove_cfg_key(content, "g_language");
    let trimmed = crate::text::trim_str(cleaned.as_str());
    if chars_of(trimmed.as_str()).len() == 0 {
        CfgUpdate::Delete
    } else if crate::text::str_eq(cleaned.as_str(), content) {
        CfgUpdate::Keep
    } else {
        CfgUpdate::Write(cleaned)
    }
}

} // verus!

verus! {

// ── Laws ────────────────────────────────────────────────────────────────────

/// `a=b` splits back into `a` and `b` when `a` holds no `=`.
pub proof fn lemma_kv_split_join(a: Seq<char>, b: Seq<char>)
    requires
        forall|i: int| 0 <= i < a.len() ==> a[i] != '=',
    ensures
        kv_split(a + seq!['='] + b) == Some((a, b)),
{
    let s = a + seq!['='] + b;
    assert(crate::text::is_first(s, '=', a.len() as int));
    crate::text::lemma_find_is(s, '=', a.len() as int);
    assert(s.take(a.len() as int) =~= a);
    assert(s.skip(a.len() as int + 1) =~= b);
}

/// The raw key `kv_split` yields holds no `=`.
pub proof fn lemma_raw_key_has_no_eq(line: Seq<char>)
    requires
        kv_split(line) is Some,
    ensures
        forall|i: int| 0 <= i < kv_split(line).unwrap().0.len() ==> kv_split(line).unwrap().0[i] != '=',
{
    let i = choose|i: int| crate::text::is_first(line, '=', i);
    crate::text::lemma_find_is(line, '=', i);
}

/// What every rewrite keeps of a `key=value` line: its raw key, `,`
/// marker included, so the output stays shape-compatible with the game's
/// parser; a line without `=` stays as it is.
pub open spec fn raw_key_kept(line: Seq<char>, out: Seq<char>) -> bool {
    match kv_split(line) {
        Some((raw, _)) => kv_split(out) matches Some((raw2, _)) && raw2 == raw,
        None => out == line,
    }
}

/// The patch, override and pack stages rewrite values only: each keeps
/// every line's raw key (`,P` marker included).
pub proof fn lemma_rewrites_keep_raw_key(
    line: Seq<char>,
    patches: Seq<(Seq<char>, Vec<PatchOp>)>,
    ov: Seq<(Seq<char>, String)>,
    pack: Seq<Seq<char>>,
)
    ensures
        raw_key_kept(line, patch_line(line, patches)),
        raw_key_kept(line, override_line(line, ov)),
        raw_key_kept(line, pack_line(line, pack)),
{
    match kv_split(line) {
        Some((raw, value)) => {
            lemma_raw_key_has_no_eq(line);
            match ops_for(patches, bare_key(raw)) {
                Some(ops) => {
                    lemma_kv_split_join(raw, apply_ops_spec(value, ops));
                },
                None => {},
            }
            match lookup(ov, bare_key(raw)) {
                Some(v) => {
                    lemma_kv_split_join(raw, v@);
                },
                None => {},
            }
            match pack_value(pack, bare_key(raw)) {
                Some(v) => {
                    lemma_kv_split_join(raw, v);
                },
                None => {},
            }
        },
        None => {},
    }
}

/// Placeholder sentinels are never patched: a line whose value is a
/// placeholder leaves the patch stage unchanged, whatever the ops.
pub proof fn lemma_placeholders_untouched(line: Seq<char>, patches: Seq<(Seq<char>, Vec<PatchOp>)>)
    requires
        kv_split(line) matches Some((_, value)) && is_placeholder(value),
    ensures
        patch_line(line, patches) == line,
{
}

/// A line whose key has no ops (or that has no `=`) leaves the patch stage
/// unchanged.
pub proof fn lemma_unpatched_lines_kept(line: Seq<char>, patches: Seq<(Seq<char>, Vec<PatchOp>)>)
    requires
        match kv_split(line) {
            Some((raw, _)) => ops_for(patches, bare_key(raw)) is None,
            None => true,
        },
    ensures
        patch_line(line, patches) == line,
{
}

/// Ops stack in order: the last `Replace` of a stack resets the value, so
/// the result is that replacement followed by the ops after it.
pub proof fn lemma_last_replace_wins(value: Seq<char>, ops: Seq<PatchOp>, i: int, r: String)
    requires
        0 <= i < ops.len(),
        ops[i] == PatchOp::Replace(r),
    ensures
        apply_ops_spec(value, ops) == apply_ops_spec(r@, ops.skip(i + 1)),
    decreases ops.len(),
{
    if i == ops.len() - 1 {
        assert(ops.skip(i + 1).len() == 0);
    } else {
        lemma_last_replace_wins(value, ops.drop_last(), i, r);
        assert(ops.drop_last().skip(i + 1) =~= ops.skip(i + 1).drop_last());
        assert(ops.skip(i + 1).last() == ops.last());
    }
}

/// A rename keeps the line's value and its `,` marker and gives the line
/// the new bare key (for a target without `=` or `,`).
pub proof fn lemma_rename_keeps_value(line: Seq<char>, renames: Seq<KeyRename>, to: Seq<char>)
    requires
        kv_split(line) is Some,
        rename_target(renames, bare_key(kv_split(line).unwrap().0)) == Some(to),
        forall|i: int| 0 <= i < to.len() ==> to[i] != '=' && to[i] != ',',
    ensures
        ({
            let (raw, value) = kv_split(line).unwrap();
            let out = kv_split(rename_line(line, renames));
            &&& out is Some
            &&& out.unwrap().1 == value
            &&& key_marker(out.unwrap().0) == key_marker(raw)
            &&& bare_key(out.unwrap().0) == to
        }),
{
    let (raw, value) = kv_split(line).unwrap();
    lemma_raw_key_has_no_eq(line);
    match find_spec(raw, ',') {
        Some(i) => {
            let k = choose|k: int| crate::text::is_first(raw, ',', k);
            crate::text::lemma_find_is(raw, ',', k);
            let marker = raw.skip(i + 1);
            let raw2 = to + seq![','] + marker;
            assert forall|j: int| 0 <= j < raw2.len() implies raw2[j] != '=' by {
                if j > to.len() {
                    assert(raw2[j] == raw[i + 1 + (j - to.len() - 1)]);
                }
            }
            lemma_kv_split_join(raw2, value);
            assert(crate::text::is_first(raw2, ',', to.len() as int));
            crate::text::lemma_find_is(raw2, ',', to.len() as int);
            assert(raw2.skip(to.len() as int + 1) =~= marker);
            assert(raw2.take(to.len() as int) =~= to);
        },
        None => {
            lemma_kv_split_join(to, value);
            assert(!exists|j: int| crate::text::is_first(to, ',', j));
        },
    }
}

} // verus!

verus! {

// ── Writing then removing the override keeps user.cfg ───────────────────────

/// A `c` somewhere in `s` means a first one.
proof fn lemma_has_first(s: Seq<char>, c: char, j: int)
    requires
        0 <= j < s.len(),
        s[j] == c,
    ensures
        find_spec(s, c) is Some,
    decreases j,
{
    if exists|k: int| 0 <= k < j && s[k] == c {
        let k = choose|k: int| 0 <= k < j && s[k] == c;
        lemma_has_first(s, c, k);
    } else {
        crate::text::lemma_find_is(s, c, j);
    }
}

/// `s` holds no `\n`.
pub open spec fn no_newline(s: Seq<char>) -> bool {
    forall|j: int| 0 <= j < s.len() ==> s[j] != '\n'
}

proof fn lemma_lines_no_newline(s: Seq<char>)
    ensures
        forall|i: int| 0 <= i < lines_of_spec(s).len() ==> no_newline(#[trigger] lines_of_spec(s)[i]),
    decreases s.len(),
{
    if s.len() > 0 {
        match find_spec(s, '\n') {
            Some(i) => {
                let k = choose|k: int| crate::text::is_first(s, '\n', k);
                lemma_lines_no_newline(s.skip(i + 1));
                let rest = lines_of_spec(s.skip(i + 1));
                assert forall|m: int| 0 <= m < lines_of_spec(s).len() implies no_newline(
                    #[trigger] lines_of_spec(s)[m],
                ) by {
                    if m > 0 {
                        assert(lines_of_spec(s)[m] == rest[m - 1]);
                    }
                }
            },
            None => {
                assert forall|j: int| 0 <= j < s.len() implies s[j] != '\n' by {
                    if s[j] == '\n' {
                        lemma_has_first(s, '\n', j);
                    }
                }
            },
        }
    }
}

/// Splitting front-first: the first line, `\n`, then the rest.
proof fn lemma_join_front(u: Seq<Seq<char>>)
    requires
        u.len() >= 2,
    ensures
        join_lines(u) == u[0] + seq!['\n'] + join_lines(u.drop_first()),
    decreases u.len(),
{
    if u.len() > 2 {
        lemma_join_front(u.drop_last());
        let d = u.drop_first();
        assert(u.drop_last().drop_first() =~= d.drop_last());
        assert(d.last() == u.last());
        assert(u.drop_last()[0] == u[0]);
        assert(join_lines(d) == join_lines(d.drop_last()) + seq!['\n'] + d.last());
        assert(join_lines(u) == join_lines(u.drop_last()) + seq!['\n'] + u.last());
        assert(join_lines(u) =~= u[0] + seq!['\n'] + join_lines(d));
    } else {
        assert(u.drop_last() =~= seq![u[0]]);
        assert(u.drop_first() =~= seq![u[1]]);
        assert(join_lines(u.drop_last()) == u[0]);
        assert(join_lines(u.drop_first()) == u[1]);
    }
}

/// Joined lines with a final `\n` split back into the same lines, when
/// none holds a `\n` or ends with `\r`.
proof fn lemma_split_join(u: Seq<Seq<char>>)
    requires
        u.len() > 0,
        forall|i: int| 0 <= i < u.len() ==> no_newline(#[trigger] u[i]),
        forall|i: int| 0 <= i < u.len() ==> strip_cr(#[trigger] u[i]) == u[i],
    ensures
        lines_of_spec(join_lines(u).push('\n')) == u,
    decreases u.len(),
{
    let s = join_lines(u).push('\n');
    let first = u[0];
    if u.len() == 1 {
        assert(s =~= first + seq!['\n']);
    } else {
        lemma_join_front(u);
        assert(s =~= first + seq!['\n'] + join_lines(u.drop_first()).push('\n'));
    }
    assert(crate::text::is_first(s, '\n', first.len() as int)) by {
        assert(no_newline(u[0]));
    }
    crate::text::lemma_find_is(s, '\n', first.len() as int);
    assert(s.take(first.len() as int) =~= first);
    if u.len() == 1 {
        assert(s.skip(first.len() as int + 1) =~= Seq::<char>::empty());
        assert(strip_cr(s.take(first.len() as int)) == first);
        assert(lines_of_spec(s.skip(first.len() as int + 1)) =~= Seq::<Seq<char>>::empty());
        assert(lines_of_spec(s) =~= seq![first]);
    } else {
        let t = u.drop_first();
        assert forall|i: int| 0 <= i < t.len() implies no_newline(#[trigger] t[i]) by {
            assert(t[i] == u[i + 1]);
        }
        assert forall|i: int| 0 <= i < t.len() implies strip_cr(#[trigger] t[i]) == t[i] by {
            assert(t[i] == u[i + 1]);
        }
        lemma_split_join(t);
        assert(s.skip(first.len() as int + 1) =~= join_lines(t).push('\n'));
        assert(strip_cr(s.take(first.len() as int)) == first);
        assert(lines_of_spec(s) =~= seq![first] + t);
    }
}

/// Dropping key lines after replacing them (and appending one more key
/// line) leaves what dropping them from the original leaves.
proof fn lemma_kept_replaced(lines: Seq<Seq<char>>, key: Seq<char>, target: Seq<char>)
    requires
        cfg_key_line(target, key),
    ensures
        cfg_kept(cfg_replaced(lines, key, target), key) == cfg_kept(lines, key),
        cfg_kept(cfg_replaced(lines, key, target).push(target), key) == cfg_kept(lines, key),
    decreases lines.len(),
{
    let r = cfg_replaced(lines, key, target);
    assert(r.push(target).drop_last() =~= r);
    if lines.len() > 0 {
        lemma_kept_replaced(lines.drop_last(), key, target);
        assert(r.drop_last() =~= cfg_replaced(lines.drop_last(), key, target));
    } else {
        assert(r =~= Seq::<Seq<char>>::empty());
    }
}

/// Where writing `key` then removing it can change user.cfg: a line that
/// stays ends in `\r` (it reads back without it), or the file has a `key`
/// line and ends in a blank line (the blank line is folded into the final
/// newline).
pub open spec fn cfg_roundtrip_breaks(content: Seq<char>, key: Seq<char>) -> bool {
    let lines = lines_of_spec(content);
    ||| exists|i: int| 0 <= i < lines.len() && !cfg_key_line(#[trigger] lines[i], key) && strip_cr(lines[i]) != lines[i]
    ||| (exists|i: int| 0 <= i < lines.len() && cfg_key_line(#[trigger] lines[i], key)) && lines.len() > 0
        && lines.last().len() == 0
}

/// Trailing whitespace stops at the last non-whitespace character.
proof fn lemma_trail_ws_bound(s: Seq<char>, p: int)
    requires
        0 <= p < s.len(),
        !crate::text::is_ws(s[p]),
    ensures
        crate::text::trail_ws(s) <= s.len() - 1 - p,
    decreases s.len(),
{
    if crate::text::is_ws(s.last()) {
        assert(p < s.len() - 1);
        assert(s.drop_last()[p] == s[p]);
        lemma_trail_ws_bound(s.drop_last(), p);
    }
}

/// `key = value` is a line assigning `key`, when `key` is empty or does
/// not start with whitespace.
proof fn lemma_assignment_is_key_line(key: Seq<char>, value: Seq<char>)
    requires
        key.len() == 0 || !crate::text::is_ws(key[0]),
    ensures
        cfg_key_line(cfg_assignment(key, value), key),
{
    reveal_strlit(" = ");
    let target = cfg_assignment(key, value);
    let n = key.len() as int;
    assert(target[n] == ' ' && target[n + 1] == '=' && target[n + 2] == ' ');
    reveal_with_fuel(crate::text::lead_ws, 2);
    if n > 0 {
        assert(target[0] == key[0]);
        assert(crate::text::lead_ws(target) == 0);
        let t = crate::text::trim_start_spec(target);
        assert(t =~= target);
        lemma_trail_ws_bound(t, n + 1);
        let tt = crate::text::trim_spec(target);
        assert(tt == t.take(t.len() - crate::text::trail_ws(t)));
        assert(tt.len() > n + 1);
        assert(tt.take(n) =~= key);
        let rest = tt.skip(n);
        assert(rest[0] == ' ' && rest[1] == '=');
        assert(rest.drop_first()[0] == '=');
        assert(crate::text::lead_ws(rest) == 1);
        assert(crate::text::trim_start_spec(rest)[0] == '=');
    } else {
        assert(target[0] == ' ' && target[1] == '=');
        assert(target.drop_first()[0] == '=');
        assert(crate::text::lead_ws(target) == 1);
        let t = crate::text::trim_start_spec(target);
        assert(t[0] == '=');
        lemma_trail_ws_bound(t, 0);
        let tt = crate::text::trim_spec(target);
        assert(tt.len() > 0 && tt[0] == '=');
        assert(tt.take(0) =~= key);
        assert(tt.skip(0) =~= tt);
        assert(crate::text::lead_ws(tt) == 0);
        assert(crate::text::trim_start_spec(tt.skip(0))[0] == '=');
    }
}

/// Writing `key = value` into user.cfg and then removing `key` leaves
/// user.cfg as removing it from the original would: every other line
/// survives, in order.
pub proof fn lemma_write_then_remove(content: Seq<char>, key: Seq<char>, value: Seq<char>)
    requires
        key.len() == 0 || !crate::text::is_ws(key[0]),
        no_newline(key),
        no_newline(value),
        value.len() == 0 || value.last() != '\r',
        !cfg_roundtrip_breaks(content, key),
    ensures
        cfg_removed(cfg_upserted(content, key, value), key) == cfg_removed(content, key),
{
    reveal_strlit(" = ");
    let target = cfg_assignment(key, value);
    let lines = lines_of_spec(content);
    let replaced = cfg_replaced(lines, key, target);
    let has_key = exists|i: int| 0 <= i < lines.len() && cfg_key_line(lines[i], key);
    let all = if has_key {
        replaced
    } else {
        replaced.push(target)
    };
    lemma_assignment_is_key_line(key, value);
    lemma_kept_replaced(lines, key, target);
    lemma_lines_no_newline(content);
    assert(no_newline(target)) by {
        assert forall|j: int| 0 <= j < target.len() implies target[j] != '\n' by {
            if j < key.len() {
                assert(target[j] == key[j]);
            } else if j >= key.len() + 3 {
                assert(target[j] == value[j - key.len() - 3]);
            }
        }
    }
    assert(target.last() != '\r') by {
        if value.len() > 0 {
            assert(target.last() == value.last());
        }
    }
    assert(strip_cr(target) == target);
    assert forall|i: int| 0 <= i < all.len() implies no_newline(#[trigger] all[i]) && strip_cr(all[i]) == all[i] by {
        if i < lines.len() {
            assert(all[i] == replaced[i]);
        }
    }
    assert(all.len() > 0);
    assert(all.last().len() > 0) by {
        if has_key {
            assert(all.last() == replaced[lines.len() - 1]);
        }
    }
    assert(join_lines(all).len() > 0 && join_lines(all).last() == all.last().last()) by {
        lemma_join_last(all);
    }
    lemma_split_join(all);
}

proof fn lemma_join_last(u: Seq<Seq<char>>)
    requires
        u.len() > 0,
        u.last().len() > 0,
    ensures
        join_lines(u).len() > 0,
        join_lines(u).last() == u.last().last(),
{
}

} // verus!

verus! {

// ── A second override pass changes nothing ──────────────────────────────────

/// The lines after [`apply_user_overrides`]: each line rewritten, then the
/// appended `key=value` lines.
pub open spec fn overridden(lines: Seq<Seq<char>>, ov: Seq<(Seq<char>, String)>) -> Seq<Seq<char>> {
    lines.map_values(|l: Seq<char>| override_line(l, ov)) + override_appends(ov, lines)
}

/// `k` holds neither `=` nor `,`: it reads back as the bare key of a
/// `k=value` line.
pub open spec fn plain_key(k: Seq<char>) -> bool {
    forall|i: int| 0 <= i < k.len() ==> k[i] != '=' && k[i] != ','
}

proof fn lemma_plain_bare(k: Seq<char>)
    requires
        plain_key(k),
    ensures
        bare_key(k) == k,
{
    if find_spec(k, ',') is Some {
        let i = choose|i: int| crate::text::is_first(k, ',', i);
        assert(k[i] == ',');
    }
}

/// An override line, rewritten again, stays as it is.
proof fn lemma_override_line_twice(l: Seq<char>, ov: Seq<(Seq<char>, String)>)
    ensures
        override_line(override_line(l, ov), ov) == override_line(l, ov),
{
    if let Some((raw, _)) = kv_split(l) {
        if let Some(v) = lookup(ov, bare_key(raw)) {
            lemma_raw_key_has_no_eq(l);
            lemma_kv_split_join(raw, v@);
        }
    }
}

/// The bare key of a line survives the override rewrite.
proof fn lemma_override_keeps_key(l: Seq<char>, ov: Seq<(Seq<char>, String)>)
    ensures
        line_key(override_line(l, ov)) == line_key(l),
{
    if let Some((raw, _)) = kv_split(l) {
        if let Some(v) = lookup(ov, bare_key(raw)) {
            lemma_raw_key_has_no_eq(l);
            lemma_kv_split_join(raw, v@);
        }
    }
}

/// Every appended line is `key=value` of some override entry.
proof fn lemma_appends_from(ov: Seq<(Seq<char>, String)>, base: Seq<Seq<char>>)
    ensures
        forall|m: int|
            0 <= m < override_appends(ov, base).len() ==> exists|j: int|
                0 <= j < ov.len() && #[trigger] override_appends(ov, base)[m] == ov[j].0 + seq!['='] + ov[j].1@,
    decreases ov.len(),
{
    if ov.len() > 0 {
        let t = ov.drop_last();
        lemma_appends_from(t, base);
        let a = override_appends(ov, base);
        assert forall|m: int| 0 <= m < a.len() implies exists|j: int|
            0 <= j < ov.len() && #[trigger] a[m] == ov[j].0 + seq!['='] + ov[j].1@ by {
            let p = override_appends(t, base);
            if m < p.len() {
                assert(a[m] == p[m]);
                let j = choose|j: int| 0 <= j < t.len() && #[trigger] p[m] == t[j].0 + seq!['='] + t[j].1@;
                assert(t[j] == ov[j]);
            } else {
                assert(a[m] == ov[ov.len() - 1].0 + seq!['='] + ov[ov.len() - 1].1@);
            }
        }
    }
}

/// An override key no base line carries gets its appended line.
proof fn lemma_appends_has(ov: Seq<(Seq<char>, String)>, base: Seq<Seq<char>>, j: int)
    requires
        0 <= j < ov.len(),
        !key_present(base, ov[j].0),
    ensures
        exists|m: int|
            0 <= m < override_appends(ov, base).len() && #[trigger] override_appends(ov, base)[m] == ov[j].0
                + seq!['='] + ov[j].1@,
    decreases ov.len(),
{
    let a = override_appends(ov, base);
    if j == ov.len() - 1 {
        assert(a[a.len() - 1] == ov[j].0 + seq!['='] + ov[j].1@);
    } else {
        let t = ov.drop_last();
        assert(t[j] == ov[j]);
        lemma_appends_has(t, base, j);
        let m = choose|m: int|
            0 <= m < override_appends(t, base).len() && #[trigger] override_appends(t, base)[m] == t[j].0
                + seq!['='] + t[j].1@;
        assert(a[m] == override_appends(t, base)[m]);
    }
}

/// Nothing is appended when every override key is present.
proof fn lemma_appends_none(ov: Seq<(Seq<char>, String)>, base: Seq<Seq<char>>)
    requires
        forall|j: int| 0 <= j < ov.len() ==> key_present(base, #[trigger] ov[j].0),
    ensures
        override_appends(ov, base).len() == 0,
    decreases ov.len(),
{
    if ov.len() > 0 {
        let t = ov.drop_last();
        assert forall|j: int| 0 <= j < t.len() implies key_present(base, #[trigger] t[j].0) by {
            assert(t[j] == ov[j]);
        }
        lemma_appends_none(t, base);
        assert(key_present(base, ov[ov.len() - 1].0));
    }
}

proof fn lemma_keys_present_after(lines: Seq<Seq<char>>, ov: Seq<(Seq<char>, String)>)
    requires
        forall|j: int| 0 <= j < ov.len() ==> plain_key(#[trigger] ov[j].0),
    ensures
        forall|j: int| 0 <= j < ov.len() ==> key_present(overridden(lines, ov), #[trigger] ov[j].0),
{
    let mapped = lines.map_values(|l: Seq<char>| override_line(l, ov));
    let apps = override_appends(ov, lines);
    let l1 = overridden(lines, ov);
    assert forall|j: int| 0 <= j < ov.len() implies key_present(l1, #[trigger] ov[j].0) by {
        if key_present(lines, ov[j].0) {
            let w = choose|w: int| 0 <= w < lines.len() && #[trigger] line_key(lines[w]) == Some(ov[j].0);
            lemma_override_keeps_key(lines[w], ov);
            assert(l1[w] == override_line(lines[w], ov));
            assert(line_key(l1[w]) == Some(ov[j].0));
        } else {
            lemma_appends_has(ov, lines, j);
            let m = choose|m: int| 0 <= m < apps.len() && #[trigger] apps[m] == ov[j].0 + seq!['='] + ov[j].1@;
            assert(l1[mapped.len() + m] == apps[m]);
            lemma_kv_split_join(ov[j].0, ov[j].1@);
            lemma_plain_bare(ov[j].0);
            assert(line_key(l1[mapped.len() + m]) == Some(ov[j].0));
        }
    }
}

proof fn lemma_lines_fixed_after(lines: Seq<Seq<char>>, ov: Seq<(Seq<char>, String)>)
    requires
        crate::strmap::entries_sorted(ov),
        forall|j: int| 0 <= j < ov.len() ==> plain_key(#[trigger] ov[j].0),
    ensures
        forall|i: int|
            0 <= i < overridden(lines, ov).len() ==> override_line(#[trigger] overridden(lines, ov)[i], ov)
                == overridden(lines, ov)[i],
{
    let mapped = lines.map_values(|l: Seq<char>| override_line(l, ov));
    let apps = override_appends(ov, lines);
    let l1 = overridden(lines, ov);
    lemma_appends_from(ov, lines);
    assert forall|i: int| 0 <= i < l1.len() implies override_line(#[trigger] l1[i], ov) == l1[i] by {
        if i < mapped.len() {
            lemma_override_line_twice(lines[i], ov);
        } else {
            let m = i - mapped.len();
            assert(l1[i] == apps[m]);
            let j = choose|j: int| 0 <= j < ov.len() && #[trigger] apps[m] == ov[j].0 + seq!['='] + ov[j].1@;
            lemma_kv_split_join(ov[j].0, ov[j].1@);
            lemma_plain_bare(ov[j].0);
            crate::strmap::lemma_lookup_at(ov, j);
        }
    }
}

/// Running the user overrides a second time changes nothing: every line
/// already carries its override value and every override key is present,
/// so nothing more is appended.
pub proof fn lemma_overrides_idempotent(lines: Seq<Seq<char>>, ov: Seq<(Seq<char>, String)>)
    requires
        crate::strmap::entries_sorted(ov),
        forall|j: int| 0 <= j < ov.len() ==> plain_key(#[trigger] ov[j].0),
    ensures
        overridden(overridden(lines, ov), ov) == overridden(lines, ov),
{
    let l1 = overridden(lines, ov);
    lemma_keys_present_after(lines, ov);
    lemma_appends_none(ov, l1);
    lemma_lines_fixed_after(lines, ov);
    assert(overridden(l1, ov) =~= l1);
}

} // verus!

verus! {

/// What [`apply_user_overrides`] states of its lines, read whole: the
/// lines after the call are [`overridden`] of the lines before.
pub proof fn lemma_apply_overrides_whole(before: Seq<String>, after: Seq<String>, ov: Seq<(Seq<char>, String)>)
    requires
        after.len() == before.len() + override_appends(ov, texts(before)).len(),
        forall|i: int| 0 <= i < before.len() ==> #[trigger] after[i]@ == override_line(before[i]@, ov),
        forall|j: int|
            0 <= j < override_appends(ov, texts(before)).len() ==> #[trigger] after[before.len() + j]@
                == override_appends(ov, texts(before))[j],
    ensures
        texts(after) == overridden(texts(before), ov),
{
    let o = overridden(texts(before), ov);
    assert forall|i: int| 0 <= i < after.len() implies texts(after)[i] == o[i] by {
        if i < before.len() {
            assert(after[i]@ == override_line(before[i]@, ov));
        } else {
            let j = i - before.len();
            assert(after[before.len() + j]@ == override_appends(ov, texts(before))[j]);
        }
    }
    assert(texts(after) =~= o);
}

} // verus!

verus! {

// ── Reading back what was written ───────────────────────────────────────────

/// Each line followed by `\n`, concatenated.
pub open spec fn lines_text(ls: Seq<Seq<char>>) -> Seq<char>
    decreases ls.len(),
{
    if ls.len() == 0 {
        Seq::empty()
    } else {
        lines_text(ls.drop_last()) + ls.last() + seq!['\n']
    }
}

/// Lines that read back as themselves once written: none holds a `\n` or
/// ends in `\r`, and the first does not start with U+FEFF.
pub open spec fn ini_roundtrip_ok(ls: Seq<Seq<char>>) -> bool {
    &&& forall|i: int| 0 <= i < ls.len() ==> no_newline(#[trigger] ls[i]) && strip_cr(ls[i]) == ls[i]
    &&& ls.len() > 0 && ls[0].len() > 0 ==> ls[0][0] as u32 != 0xFEFF
}

proof fn lemma_encode_concat(a: Seq<char>, b: Seq<char>)
    ensures
        vstd::utf8::encode_utf8(a + b) == vstd::utf8::encode_utf8(a) + vstd::utf8::encode_utf8(b),
    decreases a.len(),
{
    if a.len() == 0 {
        assert(a + b =~= b);
        assert(vstd::utf8::encode_utf8(a) =~= Seq::<u8>::empty());
        assert(Seq::<u8>::empty() + vstd::utf8::encode_utf8(b) =~= vstd::utf8::encode_utf8(b));
    } else {
        assert((a + b)[0] == a[0]);
        assert((a + b).drop_first() =~= a.drop_first() + b);
        lemma_encode_concat(a.drop_first(), b);
        let e0 = vstd::utf8::encode_scalar(a[0] as u32);
        assert(vstd::utf8::encode_utf8(a + b) == e0 + vstd::utf8::encode_utf8(a.drop_first() + b));
        assert(vstd::utf8::encode_utf8(a) == e0 + vstd::utf8::encode_utf8(a.drop_first()));
        assert(e0 + (vstd::utf8::encode_utf8(a.drop_first()) + vstd::utf8::encode_utf8(b)) =~= (e0
            + vstd::utf8::encode_utf8(a.drop_first())) + vstd::utf8::encode_utf8(b));
    }
}

proof fn lemma_encoded_lines_text(ls: Seq<Seq<char>>)
    ensures
        encoded_lines(ls) == vstd::utf8::encode_utf8(lines_text(ls)),
    decreases ls.len(),
{
    if ls.len() > 0 {
        lemma_encoded_lines_text(ls.drop_last());
        let p = lines_text(ls.drop_last());
        lemma_encode_concat(p, ls.last());
        lemma_encode_concat(p + ls.last(), seq!['\n']);
        assert(vstd::utf8::encode_utf8(seq!['\n']) =~= seq![0x0Au8]) by {
            assert(seq!['\n'].drop_first() =~= Seq::<char>::empty());
            assert(('\n' as u32) == 10u32);
            assert((10u32 & 0x7Fu32) as u8 == 0x0Au8) by (bit_vector);
            assert(vstd::utf8::encode_scalar(10u32) =~= seq![0x0Au8]);
            let nl = seq!['\n'];
            assert(nl[0] == '\n');
            assert(vstd::utf8::encode_utf8(nl.drop_first()) =~= Seq::<u8>::empty());
            assert(vstd::utf8::encode_utf8(nl) == vstd::utf8::encode_scalar(nl[0] as u32) + vstd::utf8::encode_utf8(
                nl.drop_first(),
            ));
        }
    }
}

proof fn lemma_lines_text_join(ls: Seq<Seq<char>>)
    requires
        ls.len() > 0,
    ensures
        lines_text(ls) == join_lines(ls).push('\n'),
    decreases ls.len(),
{
    if ls.len() == 1 {
        assert(ls.drop_last() =~= Seq::<Seq<char>>::empty());
        assert(lines_text(ls) =~= join_lines(ls).push('\n'));
    } else {
        lemma_lines_text_join(ls.drop_last());
        assert(lines_text(ls) == lines_text(ls.drop_last()) + ls.last() + seq!['\n']);
        assert(join_lines(ls) == join_lines(ls.drop_last()) + seq!['\n'] + ls.last());
        assert(lines_text(ls) =~= join_lines(ls).push('\n'));
    }
}

/// Reading the UTF-8-with-BOM encoding of lines: the BOM is detected and
/// skipped, and the body is the UTF-8 encoding of the lines' text, which
/// splits back into the lines.
proof fn lemma_written_ini(bytes: Seq<u8>, ls: Seq<Seq<char>>)
    requires
        bytes == utf8_bom() + encoded_lines(ls),
        ini_roundtrip_ok(ls),
    ensures
        ini_encoding_spec(bytes) == (IniEncoding::Utf8, 3int),
        bytes.skip(3) == vstd::utf8::encode_utf8(lines_text(ls)),
        vstd::utf8::valid_utf8(bytes.skip(3)),
        vstd::utf8::decode_utf8(bytes.skip(3)) == lines_text(ls),
        strip_feff(lines_text(ls)) == lines_text(ls),
        lines_of_spec(lines_text(ls)) == ls,
{
    lemma_encoded_lines_text(ls);
    assert(bytes.skip(3) =~= encoded_lines(ls));
    vstd::utf8::encode_utf8_valid_utf8(lines_text(ls));
    vstd::utf8::encode_utf8_decode_utf8(lines_text(ls));
    if ls.len() == 0 {
        assert(lines_text(ls) =~= Seq::<char>::empty());
        assert(lines_of_spec(lines_text(ls)) =~= ls);
    } else {
        lemma_lines_text_join(ls);
        lemma_split_join(ls);
        let t = lines_text(ls);
        assert(t.len() > 0);
        if ls[0].len() > 0 {
            assert(t[0] == ls[0][0]) by {
                lemma_join_first(ls);
            }
        } else {
            assert(t[0] == '\n') by {
                lemma_join_first(ls);
            }
        }
    }
}

/// The joined text starts with the first line (then `\n`, when there are
/// more lines or after the last).
proof fn lemma_join_first(ls: Seq<Seq<char>>)
    requires
        ls.len() > 0,
    ensures
        ls[0].len() > 0 ==> join_lines(ls).push('\n')[0] == ls[0][0],
        ls[0].len() == 0 ==> join_lines(ls).push('\n')[0] == '\n',
    decreases ls.len(),
{
    if ls.len() > 1 {
        lemma_join_front(ls);
        let rest = join_lines(ls.drop_first());
        assert(join_lines(ls).push('\n') =~= ls[0] + seq!['\n'] + rest.push('\n'));
    } else {
        assert(join_lines(ls) == ls[0]);
    }
}

} // verus!
