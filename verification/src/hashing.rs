//! Content hashing: SHA-256 (the `sha2` crate) rendered as lowercase hex
//! (the `hex` crate), and the stable configuration hash — SHA-256 over the
//! canonical JSON text of a configuration value.

use vstd::prelude::*;

use crate::ops::PatcherConfig;
use crate::strmap::StrMap;
use crate::text::join_with;

verus! {

/// The SHA-256 digest of `bytes`.
pub uninterp spec fn sha256_of(bytes: Seq<u8>) -> Seq<u8>;

/// SHA-256 of `data` (`sha2::Sha256::digest`): the digest named
/// [`sha256_of`], always 32 bytes long.
#[verifier::external_body]
fn sha256_digest(data: &[u8]) -> (r: Vec<u8>)
    ensures
        r@ == sha256_of(data@),
        r@.len() == 32,
{
    <sha2::Sha256 as sha2::Digest>::digest(data).to_vec()
}

/// The lowercase hex digit of `n < 16`.
pub open spec fn hex_digit(n: int) -> char {
    if n < 10 {
        (48 + n) as char
    } else {
        (87 + n) as char
    }
}

/// Lowercase hex rendering: two digits per byte, high nibble first.
pub open spec fn hex_spec(bytes: Seq<u8>) -> Seq<char>
    decreases bytes.len(),
{
    if bytes.len() == 0 {
        Seq::empty()
    } else {
        hex_spec(bytes.drop_last()) + seq![
            hex_digit(bytes.last() as int / 16),
            hex_digit(bytes.last() as int % 16),
        ]
    }
}

/// Lowercase hex encoding (`hex::encode`, which maps each byte to its
/// high-nibble then low-nibble digit from `0123456789abcdef`).
#[verifier::external_body]
fn hex_encode(data: &[u8]) -> (r: String)
    ensures
        r@ == hex_spec(data@),
{
    hex::encode(data)
}

/// sha256 of a byte buffer, lowercase hex.
pub fn sha256_bytes(bytes: &[u8]) -> (r: String)
    ensures
        r@ == hex_spec(sha256_of(bytes@)),
{
    let digest = sha256_digest(bytes);
    hex_encode(digest.as_slice())
}

// ── Canonical JSON ──────────────────────────────────────────────────────────

/// JSON escape of one character inside a string literal: `"` and `\`
/// backslashed, the short escapes `\b \f \n \r \t`, other control
/// characters as `\u00XX`.
pub open spec fn json_escape(c: char) -> Seq<char> {
    if c == '"' {
        seq!['\\', '"']
    } else if c == '\\' {
        seq!['\\', '\\']
    } else if c == '\x08' {
        seq!['\\', 'b']
    } else if c == '\x0c' {
        seq!['\\', 'f']
    } else if c == '\n' {
        seq!['\\', 'n']
    } else if c == '\r' {
        seq!['\\', 'r']
    } else if c == '\t' {
        seq!['\\', 't']
    } else if ' ' > c {
        seq!['\\', 'u', '0', '0', hex_digit(c as int / 16), hex_digit(c as int % 16)]
    } else {
        seq![c]
    }
}

/// The escaped body of a JSON string literal.
pub open spec fn json_escaped(s: Seq<char>) -> Seq<char>
    decreases s.len(),
{
    if s.len() == 0 {
        Seq::empty()
    } else {
        json_escaped(s.drop_last()) + json_escape(s.last())
    }
}

/// A JSON string literal.
pub open spec fn json_string(s: Seq<char>) -> Seq<char> {
    seq!['"'] + json_escaped(s) + seq!['"']
}

/// A JSON object from `(key, value JSON)` members, in order.
pub open spec fn json_object(members: Seq<(Seq<char>, Seq<char>)>) -> Seq<char> {
    seq!['{'] + join_with(
        members.map_values(|m: (Seq<char>, Seq<char>)| json_string(m.0) + seq![':'] + m.1),
        seq![','],
    ) + seq!['}']
}

/// JSON of `true` / `false` / `null`.
pub open spec fn json_opt_bool(b: Option<bool>) -> Seq<char> {
    match b {
        Some(true) => "true"@,
        Some(false) => "false"@,
        None => "null"@,
    }
}

/// JSON of a key-ordered string map.
pub open spec fn string_map_json(e: Seq<(Seq<char>, String)>) -> Seq<char> {
    json_object(e.map_values(|x: (Seq<char>, String)| (x.0, json_string(x.1@))))
}

/// JSON of a patcher configuration's parts: `{"enabled":…,"options":{…}}`.
pub open spec fn config_json(enabled: Option<bool>, options: Seq<(Seq<char>, String)>) -> Seq<char> {
    "{\"enabled\":"@ + json_opt_bool(enabled) + ",\"options\":"@ + string_map_json(options) + "}"@
}

/// JSON of a patcher configuration.
pub open spec fn patcher_config_json(c: PatcherConfig) -> Seq<char> {
    config_json(c.enabled, c.options@)
}

/// JSON of the per-patcher configuration map.
pub open spec fn patchers_json(e: Seq<(Seq<char>, PatcherConfig)>) -> Seq<char> {
    json_object(e.map_values(|x: (Seq<char>, PatcherConfig)| (x.0, patcher_config_json(x.1))))
}

/// The stable hash of a JSON text: SHA-256 of its UTF-8 bytes, lowercase hex.
pub open spec fn stable_hash_of(json: Seq<char>) -> Seq<char> {
    hex_spec(sha256_of(vstd::utf8::encode_utf8(json)))
}

/// The JSON string literal of `s` (`serde_json::to_string` on a `str`,
/// written by `format_escaped_str`): `s` between double quotes, with `"`
/// and `\` backslashed, `\b \t \n \f \r` for those five controls and
/// `\u00xx` (lowercase hex) for the other characters below U+0020; every
/// other character as is. Serialising a `str` does not fail, so the error
/// arm is never taken.
#[verifier::external_body]
fn json_string_literal(s: &str) -> (r: String)
    ensures
        r@ == json_string(s@),
{
    match serde_json::to_string(s) {
        Ok(t) => t,
        Err(_) => String::new(),
    }
}

/// Append the JSON string literal of `s`.
fn push_json_string(out: &mut String, s: &str)
    ensures
        final(out)@ == old(out)@ + json_string(s@),
{
    let lit = json_string_literal(s);
    let v = crate::text::chars_of(lit.as_str());
    crate::text::push_range(out, &v, 0, v.len());
    assert(v@.subrange(0, v@.len() as int) =~= v@);
}

/// The JSON text of a key-ordered string map.
fn string_map_json_exec(m: &StrMap<String>) -> (r: String)
    requires
        m.wf(),
    ensures
        r@ == string_map_json(m@),
{
    let ghost members = m@.map_values(|x: (Seq<char>, String)| (x.0, json_string(x.1@)));
    let ghost parts = members.map_values(
        |mm: (Seq<char>, Seq<char>)| json_string(mm.0) + seq![':'] + mm.1,
    );
    let mut body = String::new();
    let mut i: usize = 0;
    while i < m.len()
        invariant
            m.wf(),
            i <= m@.len(),
            members == m@.map_values(|x: (Seq<char>, String)| (x.0, json_string(x.1@))),
            parts == members.map_values(
                |mm: (Seq<char>, Seq<char>)| json_string(mm.0) + seq![':'] + mm.1,
            ),
            body@ == join_with(parts.take(i as int), seq![',']),
        decreases m@.len() - i,
    {
        let ghost before = body@;
        if i > 0 {
            body.push(',');
        }
        push_json_string(&mut body, m.key_at(i));
        body.push(':');
        push_json_string(&mut body, m.value_at(i).as_str());
        proof {
            let t = parts.take(i + 1);
            assert(t.drop_last() =~= parts.take(i as int));
            if i == 0 {
                assert(t =~= seq![parts[0]]);
            }
            assert(body@ =~= join_with(t, seq![',']));
        }
        i = i + 1;
    }
    assert(parts.take(m@.len() as int) =~= parts);
    let mut out = String::new();
    out.push('{');
    out.append(body.as_str());
    out.push('}');
    assert(out@ =~= string_map_json(m@));
    out
}

/// The JSON text of a patcher configuration.
fn patcher_config_json_exec(c: &PatcherConfig) -> (r: String)
    requires
        c.options.wf(),
    ensures
        r@ == patcher_config_json(*c),
{
    let mut out = String::new();
    out.append("{\"enabled\":");
    match c.enabled {
        Some(true) => out.append("true"),
        Some(false) => out.append("false"),
        None => out.append("null"),
    }
    out.append(",\"options\":");
    out.append(string_map_json_exec(&c.options).as_str());
    out.append("}");
    out
}

/// The stable hash of a patcher configuration (the op-set cache's options
/// hash).
pub fn config_hash(c: &PatcherConfig) -> (r: String)
    requires
        c.options.wf(),
    ensures
        r@ == stable_hash_of(patcher_config_json(*c)),
{
    let json = patcher_config_json_exec(c);
    sha256_bytes(json.as_str().as_bytes())
}

/// The stable hash of the per-patcher configuration map (the fingerprint's
/// config hash).
pub fn patchers_hash(m: &StrMap<PatcherConfig>) -> (r: String)
    requires
        m.wf(),
        forall|i: int| 0 <= i < m@.len() ==> (#[trigger] m@[i]).1.options.wf(),
    ensures
        r@ == stable_hash_of(patchers_json(m@)),
{
    let ghost members = m@.map_values(|x: (Seq<char>, PatcherConfig)| (x.0, patcher_config_json(x.1)));
    let ghost parts = members.map_values(
        |mm: (Seq<char>, Seq<char>)| json_string(mm.0) + seq![':'] + mm.1,
    );
    let mut body = String::new();
    let mut i: usize = 0;
    while i < m.len()
        invariant
            m.wf(),
            forall|j: int| 0 <= j < m@.len() ==> (#[trigger] m@[j]).1.options.wf(),
            i <= m@.len(),
            members == m@.map_values(|x: (Seq<char>, PatcherConfig)| (x.0, patcher_config_json(x.1))),
            parts == members.map_values(
                |mm: (Seq<char>, Seq<char>)| json_string(mm.0) + seq![':'] + mm.1,
            ),
            body@ == join_with(parts.take(i as int), seq![',']),
        decreases m@.len() - i,
    {
        if i > 0 {
            body.push(',');
        }
        push_json_string(&mut body, m.key_at(i));
        body.push(':');
        let cfg = m.value_at(i);
        assert(m@[i as int].1.options.wf());
        body.append(patcher_config_json_exec(cfg).as_str());
        proof {
            let t = parts.take(i + 1);
            assert(t.drop_last() =~= parts.take(i as int));
            if i == 0 {
                assert(t =~= seq![parts[0]]);
            }
            assert(body@ =~= join_with(t, seq![',']));
        }
        i = i + 1;
    }
    assert(parts.take(m@.len() as int) =~= parts);
    let mut json = String::new();
    json.push('{');
    json.append(body.as_str());
    json.push('}');
    assert(json@ =~= patchers_json(m@));
    sha256_bytes(json.as_str().as_bytes())
}

} // verus!
