//! The declarative patcher: rules from a TOML definition match locale keys
//! — exact (`key` / `keys`) or via a `key_pattern` glob where `*` matches
//! anything and `{name}` captures a run of non-`_` characters for reuse in
//! the op template — optionally gated on the current value
//! (`value_contains`) and on option values (`when`). `[[rename]]` entries
//! pass through as key renames.
//!
//! The TOML text is deserialized by the caller into a [`TomlFile`]; this
//! module validates and compiles it ([`Definition::parse`]) and derives
//! op-sets from it.

use vstd::prelude::*;

use crate::cooked::{CookedData, LocaleMap, strip_at, strip_at_spec};
use crate::ops::{
    ChoiceOption, OpSetView, ops_view, KeyRename, OpSet, OpView, OptionKind, PatchOp, PatcherConfig, PatcherOption, copy_options, option_same, option_str,
    patches_view,
};
use crate::state::opt_text;
use crate::strmap::{StrMap, lookup, lookup_text};
use crate::text::{
    KeyOrder, chars_of, compare_chars, contains_seq, find_spec, has_prefix, lex_lt, str_contains,
    str_eq,
};

verus! {

// ── Glob patterns ───────────────────────────────────────────────────────────

/// One compiled glob token.
#[derive(Debug, Clone)]
pub enum Token {
    Literal(String),
    Star,
    Capture(String),
}

/// The text-level reading of a [`Token`].
pub enum TokenView {
    Literal(Seq<char>),
    Star,
    Capture(Seq<char>),
}

impl View for Token {
    type V = TokenView;

    open spec fn view(&self) -> TokenView {
        match self {
            Token::Literal(l) => TokenView::Literal(l@),
            Token::Star => TokenView::Star,
            Token::Capture(n) => TokenView::Capture(n@),
        }
    }
}

/// The tokens read at text level.
pub open spec fn tokens_view(t: Seq<Token>) -> Seq<TokenView> {
    t.map_values(|x: Token| x@)
}

/// `acc` with the pending literal `lit` appended when non-empty.
pub open spec fn flush(acc: Seq<TokenView>, lit: Seq<char>) -> Seq<TokenView> {
    if lit.len() > 0 {
        acc.push(TokenView::Literal(lit))
    } else {
        acc
    }
}

/// Compile the pattern from position `i` on, with `lit` the literal run so
/// far and `acc` the tokens so far: `*` is a star, `{name}` a capture (an
/// unclosed capture fails first, then an empty one), anything else literal.
pub open spec fn glob_scan(p: Seq<char>, i: int, lit: Seq<char>, acc: Seq<TokenView>) -> Result<
    Seq<TokenView>,
    PatternError,
>
    decreases p.len() - i,
{
    if i < 0 || i >= p.len() {
        Ok(flush(acc, lit))
    } else if p[i] == '*' {
        glob_scan(p, i + 1, Seq::empty(), flush(acc, lit).push(TokenView::Star))
    } else if p[i] == '{' {
        match find_spec(p.skip(i + 1), '}') {
            None => Err(PatternError::Unclosed),
            Some(j) => if i + 1 + j >= p.len() {
                Err(PatternError::Unclosed)
            } else if j <= 0 {
                Err(PatternError::EmptyCapture)
            } else {
                glob_scan(
                    p,
                    i + 2 + j,
                    Seq::empty(),
                    flush(acc, lit).push(TokenView::Capture(p.subrange(i + 1, i + 1 + j))),
                )
            },
        }
    } else {
        glob_scan(p, i + 1, lit.push(p[i]), acc)
    }
}

/// The compiled tokens of a pattern, or why it does not compile.
pub open spec fn glob_compile(p: Seq<char>) -> Result<Seq<TokenView>, PatternError> {
    glob_scan(p, 0, Seq::empty(), Seq::empty())
}

/// A compiled `key_pattern`, anchored at both ends.
pub struct GlobPattern {
    pub tokens: Vec<Token>,
}

/// Why a pattern failed to compile.
#[derive(Debug, Clone, Copy, PartialEq, Eq, Structural)]
pub enum PatternError {
    Unclosed,
    EmptyCapture,
}

impl GlobPattern {
    /// Compile a pattern like `item_Name*_S{size}_*`.
    pub fn compile(pattern: &str) -> (r: Result<GlobPattern, PatternError>)
        ensures
            match r {
                Ok(g) => glob_compile(pattern@) == Ok::<Seq<TokenView>, PatternError>(tokens_view(g.tokens@)),
                Err(e) => glob_compile(pattern@) == Err::<Seq<TokenView>, PatternError>(e),
            },
    {
        let p = chars_of(pattern);
        let n = p.len();
        let mut tokens: Vec<Token> = Vec::new();
        let mut lit: Vec<char> = Vec::new();
        let mut i: usize = 0;
        assert(lit@ =~= Seq::<char>::empty());
        assert(tokens_view(tokens@) =~= Seq::<TokenView>::empty());
        while i < n
            invariant
                n == p@.len(),
                p@ == pattern@,
                i <= n,
                glob_compile(p@) == glob_scan(p@, i as int, lit@, tokens_view(tokens@)),
            decreases n - i,
        {
            let c = p[i];
            if c == '*' {
                let ghost before = flush(tokens_view(tokens@), lit@);
                if lit.len() > 0 {
                    tokens.push(Token::Literal(crate::text::string_of(&lit)));
                }
                tokens.push(Token::Star);
                assert(tokens_view(tokens@) =~= before.push(TokenView::Star));
                lit = Vec::new();
                i = i + 1;
            } else if c == '{' {
                let mut j: usize = i + 1;
                while j < n && p[j] != '}'
                    invariant
                        i + 1 <= j <= n,
                        n == p@.len(),
                        forall|k: int| i + 1 <= k < j ==> p@[k] != '}',
                    decreases n - j,
                {
                    j = j + 1;
                }
                let ghost rest = p@.skip(i + 1);
                if j == n {
                    proof {
                        assert(!exists|k: int| crate::text::is_first(rest, '}', k));
                    }
                    return Err(PatternError::Unclosed);
                }
                proof {
                    assert(crate::text::is_first(rest, '}', j - (i + 1)));
                    crate::text::lemma_find_is(rest, '}', j - (i + 1));
                }
                if j == i + 1 {
                    return Err(PatternError::EmptyCapture);
                }
                let ghost before = flush(tokens_view(tokens@), lit@);
                if lit.len() > 0 {
                    tokens.push(Token::Literal(crate::text::string_of(&lit)));
                }
                let name = crate::text::string_of_range(&p, i + 1, j);
                tokens.push(Token::Capture(name));
                assert(tokens_view(tokens@) =~= before.push(TokenView::Capture(p@.subrange(i + 1, j as int))));
                lit = Vec::new();
                i = j + 1;
            } else {
                lit.push(c);
                i = i + 1;
            }
        }
        let ghost before = tokens_view(tokens@);
        if lit.len() > 0 {
            tokens.push(Token::Literal(crate::text::string_of(&lit)));
        }
        assert(tokens_view(tokens@) =~= flush(before, lit@));
        Ok(GlobPattern { tokens })
    }
}

// ── Captures ────────────────────────────────────────────────────────────────

/// Captures as a key-ordered association list; `(name, value)` stored,
/// replacing an earlier value of the same name.
pub open spec fn cap_insert(caps: Seq<(Seq<char>, Seq<char>)>, name: Seq<char>, value: Seq<char>) -> Seq<
    (Seq<char>, Seq<char>),
>
    decreases caps.len(),
{
    if caps.len() == 0 {
        seq![(name, value)]
    } else if caps[0].0 == name {
        caps.update(0, (name, value))
    } else if lex_lt(name, caps[0].0) {
        seq![(name, value)] + caps
    } else {
        seq![caps[0]] + cap_insert(caps.drop_first(), name, value)
    }
}

/// The captures read at text level.
pub open spec fn caps_view(c: Seq<(String, String)>) -> Seq<(Seq<char>, Seq<char>)> {
    c.map_values(|x: (String, String)| (x.0@, x.1@))
}

/// Store `(name, value)` in the key-ordered capture list.
fn caps_insert(caps: &mut Vec<(String, String)>, name: &str, value: String)
    ensures
        caps_view(final(caps)@) == cap_insert(caps_view(old(caps)@), name@, value@),
{
    let ghost c0 = caps_view(caps@);
    let nv = chars_of(name);
    let mut i: usize = 0;
    assert(c0.skip(0) =~= c0);
    while i < caps.len()
        invariant
            i <= caps@.len(),
            nv@ == name@,
            c0 == caps_view(caps@),
            c0 == caps_view(old(caps)@),
            forall|k: int| 0 <= k < i ==> lex_lt(#[trigger] c0[k].0, name@),
            cap_insert(c0, name@, value@) == c0.take(i as int) + cap_insert(c0.skip(i as int), name@, value@),
        decreases caps@.len() - i,
    {
        let kv = chars_of(caps[i].0.as_str());
        assert(c0.skip(i as int)[0] == c0[i as int]);
        assert(c0[i as int].0 == caps@[i as int].0@);
        match compare_chars(&kv, &nv) {
            KeyOrder::Same => {
                proof {
                    let rest = c0.skip(i as int);
                    assert(rest.len() > 0);
                    assert(rest[0].0 == name@);
                    assert(cap_insert(rest, name@, value@) == rest.update(0, (name@, value@)));
                }
                caps.set(i, (name.to_owned(), value));
                proof {
                    assert(caps_view(caps@) =~= c0.take(i as int) + c0.skip(i as int).update(0, (name@, value@)));
                    assert(caps_view(caps@) == cap_insert(c0, name@, value@));
                }
                return;
            },
            KeyOrder::After => {
                proof {
                    let rest = c0.skip(i as int);
                    crate::text::lemma_lex_irreflexive(name@);
                    assert(rest.len() > 0);
                    assert(lex_lt(name@, rest[0].0));
                    assert(rest[0].0 != name@);
                    assert(cap_insert(rest, name@, value@) == seq![(name@, value@)] + rest);
                }
                caps.insert(i, (name.to_owned(), value));
                proof {
                    assert(caps_view(caps@) =~= c0.take(i as int) + (seq![(name@, value@)] + c0.skip(i as int)));
                    assert(caps_view(caps@) == cap_insert(c0, name@, value@));
                }
                return;
            },
            KeyOrder::Before => {
                proof {
                    crate::text::lemma_lex_asymmetric(c0[i as int].0, name@);
                    crate::text::lemma_lex_irreflexive(name@);
                    assert(c0.skip(i as int).drop_first() =~= c0.skip(i + 1));
                    assert(c0.take(i + 1) =~= c0.take(i as int).push(c0[i as int]));
                    assert(c0.take(i as int) + cap_insert(c0.skip(i as int), name@, value@) =~= c0.take(i + 1)
                        + cap_insert(c0.skip(i + 1), name@, value@));
                }
                i = i + 1;
            },
        }
    }
    assert(c0.take(caps@.len() as int) =~= c0);
    caps.push((name.to_owned(), value));
    assert(caps_view(caps@) =~= c0.push((name@, value@)));
}

// ── Matching ────────────────────────────────────────────────────────────────

/// Greedy backtracking match of `toks[t..]` against `text[pos..]` with the
/// captures so far: a literal must come next; a star tries the longest
/// remainder first; a capture takes the longest run of non-`_` characters
/// first. The first successful path's captures are the result.
pub open spec fn glob_match(
    toks: Seq<TokenView>,
    t: int,
    text: Seq<char>,
    pos: int,
    caps: Seq<(Seq<char>, Seq<char>)>,
) -> Option<Seq<(Seq<char>, Seq<char>)>>
    decreases toks.len() - t, text.len() - pos + 2,
{
    if t < 0 || pos < 0 || pos > text.len() {
        None
    } else if t >= toks.len() {
        if pos == text.len() {
            Some(caps)
        } else {
            None
        }
    } else {
        match toks[t] {
            TokenView::Literal(l) => if has_prefix(text.skip(pos), l) {
                glob_match(toks, t + 1, text, pos + l.len(), caps)
            } else {
                None
            },
            TokenView::Star => star_try(toks, t, text, pos, text.len() as int, caps),
            TokenView::Capture(name) => cap_try(toks, t, text, pos, run_end(text, pos), caps, name),
        }
    }
}

/// Star at `toks[t]`: try remainders starting at `i`, `i - 1`, …, `pos`.
pub open spec fn star_try(
    toks: Seq<TokenView>,
    t: int,
    text: Seq<char>,
    pos: int,
    i: int,
    caps: Seq<(Seq<char>, Seq<char>)>,
) -> Option<Seq<(Seq<char>, Seq<char>)>>
    decreases toks.len() - t, i - pos + 1,
{
    if t < 0 || t >= toks.len() || i < pos || pos < 0 || i > text.len() {
        None
    } else {
        match glob_match(toks, t + 1, text, i, caps) {
            Some(c) => Some(c),
            None => star_try(toks, t, text, pos, i - 1, caps),
        }
    }
}

/// End of the run of non-`_` characters starting at `pos`.
pub open spec fn run_end(text: Seq<char>, pos: int) -> int {
    match find_spec(text.skip(pos), '_') {
        Some(j) => pos + j,
        None => text.len() as int,
    }
}

/// Capture `name` at `toks[t]`: try `text[pos..end]`, `text[pos..end-1]`, …
pub open spec fn cap_try(
    toks: Seq<TokenView>,
    t: int,
    text: Seq<char>,
    pos: int,
    end: int,
    caps: Seq<(Seq<char>, Seq<char>)>,
    name: Seq<char>,
) -> Option<Seq<(Seq<char>, Seq<char>)>>
    decreases toks.len() - t, end - pos + 1,
{
    if t < 0 || t >= toks.len() || end < pos || pos < 0 || end > text.len() {
        None
    } else {
        match glob_match(toks, t + 1, text, end, cap_insert(caps, name, text.subrange(pos, end))) {
            Some(c) => Some(c),
            None => cap_try(toks, t, text, pos, end - 1, caps, name),
        }
    }
}

} // verus!

verus! {

/// A copy of the capture list.
fn copy_caps(c: &Vec<(String, String)>) -> (r: Vec<(String, String)>)
    ensures
        caps_view(r@) == caps_view(c@),
{
    let mut r: Vec<(String, String)> = Vec::new();
    let mut i: usize = 0;
    while i < c.len()
        invariant
            i <= c@.len(),
            caps_view(r@) == caps_view(c@.take(i as int)),
        decreases c@.len() - i,
    {
        let a = c[i].0.clone();
        let b = c[i].1.clone();
        let ghost before = r@;
        r.push((a, b));
        proof {
            assert(r@ =~= before.push((a, b)));
            assert(c@.take(i + 1) =~= c@.take(i as int).push(c@[i as int]));
            assert(caps_view(r@) =~= caps_view(before).push((c@[i as int].0@, c@[i as int].1@)));
        }
        i = i + 1;
        assert(caps_view(r@) =~= caps_view(c@.take(i as int)));
    }
    assert(c@.take(c@.len() as int) =~= c@);
    r
}

/// Where the run of non-`_` characters starting at `pos` ends.
fn run_end_exec(text: &Vec<char>, pos: usize) -> (r: usize)
    requires
        pos <= text@.len(),
    ensures
        r == run_end(text@, pos as int),
        pos <= r <= text@.len(),
{
    let mut j: usize = pos;
    while j < text.len() && text[j] != '_'
        invariant
            pos <= j <= text@.len(),
            forall|k: int| pos <= k < j ==> text@[k] != '_',
        decreases text@.len() - j,
    {
        j = j + 1;
    }
    let ghost rest = text@.skip(pos as int);
    if j < text.len() {
        proof {
            assert(crate::text::is_first(rest, '_', j - pos));
            crate::text::lemma_find_is(rest, '_', j - pos);
        }
    } else {
        proof {
            assert(!exists|k: int| crate::text::is_first(rest, '_', k));
        }
    }
    j
}

/// Match `toks[t..]` against `text[pos..]`, returning the captures of the
/// first successful path.
fn match_at(
    toks: &Vec<Token>,
    t: usize,
    text: &Vec<char>,
    pos: usize,
    caps: &Vec<(String, String)>,
) -> (r: Option<Vec<(String, String)>>)
    requires
        t <= toks@.len(),
        pos <= text@.len(),
    ensures
        match r {
            Some(c) => glob_match(tokens_view(toks@), t as int, text@, pos as int, caps_view(caps@))
                == Some(caps_view(c@)),
            None => glob_match(tokens_view(toks@), t as int, text@, pos as int, caps_view(caps@)) is None,
        },
    decreases toks@.len() - t,
{
    let ghost tv = tokens_view(toks@);
    if t >= toks.len() {
        if pos == text.len() {
            return Some(copy_caps(caps));
        }
        return None;
    }
    assert(tv[t as int] == toks@[t as int]@);
    match &toks[t] {
        Token::Literal(l) => {
            let lv = chars_of(l.as_str());
            if crate::text::prefix_at(text, pos, &lv) {
                let tl = text.len();
                assert(lv@.len() <= text@.skip(pos as int).len());
                assert(pos + lv@.len() <= tl);
                match_at(toks, t + 1, text, pos + lv.len(), caps)
            } else {
                None
            }
        },
        Token::Star => {
            let next = t + 1;
            let mut i: usize = text.len();
            loop
                invariant
                    pos <= i <= text@.len(),
                    t < toks@.len(),
                    next == t + 1,
                    tv == tokens_view(toks@),
                    tv[t as int] == TokenView::Star,
                    star_try(tv, t as int, text@, pos as int, text@.len() as int, caps_view(caps@))
                        == star_try(tv, t as int, text@, pos as int, i as int, caps_view(caps@)),
                decreases i - pos,
            {
                match match_at(toks, next, text, i, caps) {
                    Some(c) => {
                        return Some(c);
                    },
                    None => {},
                }
                if i == pos {
                    assert(star_try(tv, t as int, text@, pos as int, pos - 1, caps_view(caps@)) is None);
                    return None;
                }
                i = i - 1;
            }
        },
        Token::Capture(name) => {
            let next = t + 1;
            let end0 = run_end_exec(text, pos);
            let mut end: usize = end0;
            loop
                invariant
                    pos <= end <= end0 <= text@.len(),
                    t < toks@.len(),
                    next == t + 1,
                    tv == tokens_view(toks@),
                    tv[t as int] == TokenView::Capture(name@),
                    end0 == run_end(text@, pos as int),
                    cap_try(tv, t as int, text@, pos as int, end0 as int, caps_view(caps@), name@)
                        == cap_try(tv, t as int, text@, pos as int, end as int, caps_view(caps@), name@),
                decreases end - pos,
            {
                let mut c2 = copy_caps(caps);
                let v = crate::text::string_of_range(text, pos, end);
                caps_insert(&mut c2, name.as_str(), v);
                match match_at(toks, next, text, end, &c2) {
                    Some(c) => {
                        return Some(c);
                    },
                    None => {},
                }
                if end == pos {
                    assert(cap_try(tv, t as int, text@, pos as int, pos - 1, caps_view(caps@), name@) is None);
                    return None;
                }
                end = end - 1;
            }
        },
    }
}

impl GlobPattern {
    /// Match a whole key against the pattern; on success, the captured
    /// `{name}` values in name order.
    pub fn captures(&self, key: &str) -> (r: Option<Vec<(String, String)>>)
        ensures
            match r {
                Some(c) => glob_match(tokens_view(self.tokens@), 0, key@, 0, Seq::empty())
                    == Some(caps_view(c@)),
                None => glob_match(tokens_view(self.tokens@), 0, key@, 0, Seq::empty()) is None,
            },
    {
        let text = chars_of(key);
        let caps: Vec<(String, String)> = Vec::new();
        assert(caps_view(caps@) =~= Seq::empty());
        match_at(&self.tokens, 0, &text, 0, &caps)
    }
}

} // verus!

verus! {

// ── Templates ───────────────────────────────────────────────────────────────

/// Every non-overlapping occurrence of `pat` in `s`, scanning left to
/// right, replaced by `rep` (as `str::replace`, for a non-empty `pat`).
pub open spec fn replace_all(s: Seq<char>, pat: Seq<char>, rep: Seq<char>) -> Seq<char>
    decreases s.len(),
{
    if pat.len() == 0 || s.len() < pat.len() {
        s
    } else if s.take(pat.len() as int) == pat {
        rep + replace_all(s.skip(pat.len() as int), pat, rep)
    } else {
        seq![s[0]] + replace_all(s.skip(1), pat, rep)
    }
}

/// The placeholder `{name}`.
pub open spec fn placeholder(name: Seq<char>) -> Seq<char> {
    seq!['{'] + name + seq!['}']
}

/// `t` with each capture's placeholder replaced by its value, captures
/// taken in list (name) order.
pub open spec fn resolve_spec(t: Seq<char>, caps: Seq<(Seq<char>, Seq<char>)>) -> Seq<char>
    decreases caps.len(),
{
    if caps.len() == 0 {
        t
    } else {
        resolve_spec(replace_all(t, placeholder(caps[0].0), caps[0].1), caps.drop_first())
    }
}

/// `s` with every occurrence of the non-empty `pat` replaced by `rep`.
pub(crate) fn replace_all_exec(s: &Vec<char>, pat: &Vec<char>, rep: &Vec<char>) -> (r: String)
    requires
        pat@.len() > 0,
    ensures
        r@ == replace_all(s@, pat@, rep@),
{
    let n = s.len();
    let pl = pat.len();
    let mut out = String::new();
    let mut i: usize = 0;
    assert(s@.skip(0) =~= s@);
    assert(out@ + replace_all(s@, pat@, rep@) =~= replace_all(s@, pat@, rep@));
    while i < n
        invariant
            n == s@.len(),
            pl == pat@.len(),
            pl > 0,
            i <= n,
            out@ + replace_all(s@.skip(i as int), pat@, rep@) == replace_all(s@, pat@, rep@),
        decreases n - i,
    {
        let ghost rest = s@.skip(i as int);
        if n - i >= pl && crate::text::prefix_at(s, i, pat) {
            proof {
                assert(rest.skip(pl as int) =~= s@.skip(i + pl));
                assert(rest.take(pl as int) == pat@);
            }
            let ghost before = out@;
            crate::text::push_range(&mut out, rep, 0, rep.len());
            proof {
                assert(rep@.subrange(0, rep@.len() as int) =~= rep@);
                assert(out@ + replace_all(s@.skip(i + pl), pat@, rep@) =~= before + (rep@ + replace_all(
                    rest.skip(pl as int),
                    pat@,
                    rep@,
                )));
            }
            i = i + pl;
        } else {
            proof {
                assert(rest.skip(1) =~= s@.skip(i + 1));
                if rest.len() < pl {
                    assert(replace_all(s@.skip(i + 1), pat@, rep@) == s@.skip(i + 1));
                    assert(rest =~= seq![rest[0]] + rest.skip(1));
                }
            }
            let ghost before = out@;
            out.push(s[i]);
            proof {
                assert(out@ + replace_all(s@.skip(i + 1), pat@, rep@) =~= before + (seq![rest[0]] + replace_all(
                    rest.skip(1),
                    pat@,
                    rep@,
                )));
            }
            i = i + 1;
        }
    }
    proof {
        assert(s@.skip(n as int).len() == 0);
        assert(out@ + replace_all(s@.skip(n as int), pat@, rep@) =~= out@);
    }
    out
}

/// Substitute `{name}` placeholders in `template` with captured values.
pub fn resolve_template(template: &str, caps: &Vec<(String, String)>) -> (r: String)
    ensures
        r@ == resolve_spec(template@, caps_view(caps@)),
{
    let ghost cv = caps_view(caps@);
    let mut cur = template.to_owned();
    let mut i: usize = 0;
    assert(cv.skip(0) =~= cv);
    while i < caps.len()
        invariant
            i <= caps@.len(),
            cv == caps_view(caps@),
            resolve_spec(template@, cv) == resolve_spec(cur@, cv.skip(i as int)),
        decreases caps@.len() - i,
    {
        let name = chars_of(caps[i].0.as_str());
        let mut pat: Vec<char> = Vec::new();
        pat.push('{');
        let mut k: usize = 0;
        while k < name.len()
            invariant
                k <= name@.len(),
                pat@ == seq!['{'] + name@.take(k as int),
            decreases name@.len() - k,
        {
            pat.push(name[k]);
            k = k + 1;
            assert(pat@ =~= seq!['{'] + name@.take(k as int));
        }
        pat.push('}');
        assert(name@.take(name@.len() as int) =~= name@);
        assert(pat@ =~= placeholder(cv[i as int].0));
        let cur_chars = chars_of(cur.as_str());
        let rep = chars_of(caps[i].1.as_str());
        cur = replace_all_exec(&cur_chars, &pat, &rep);
        proof {
            assert(cv.skip(i as int).drop_first() =~= cv.skip(i + 1));
            assert(cv.skip(i as int)[0] == cv[i as int]);
        }
        i = i + 1;
    }
    assert(cv.skip(caps@.len() as int).len() == 0);
    cur
}

} // verus!

verus! {

// ── Definition input ────────────────────────────────────────────────────────

/// `[module]`: the patcher's metadata. Absent `default_enabled` means
/// enabled; absent `priority` means 100.
pub struct TomlMeta {
    pub name: String,
    pub description: String,
    pub default_enabled: Option<bool>,
    pub priority: Option<u32>,
}

#[derive(Debug, Clone, Copy, PartialEq, Eq, Structural)]
pub enum TomlOptionKind {
    Bool,
    Choice,
}

pub struct TomlChoice {
    pub value: String,
    pub label: String,
}

/// `[[option]]`: an option the definition declares.
pub struct TomlOption {
    pub id: String,
    pub label: String,
    pub description: String,
    pub kind: TomlOptionKind,
    pub choices: Vec<TomlChoice>,
    /// Stringly default: bools are `"true"`/`"false"`, choices the value.
    pub default: String,
}

/// `[[patch]]`: one rule, before validation.
pub struct TomlPatchEntry {
    /// Single exact key.
    pub key: Option<String>,
    /// Multiple exact keys.
    pub keys: Option<Vec<String>>,
    /// Glob-style pattern with optional `{name}` captures.
    pub key_pattern: Option<String>,
    /// Only apply if the current value contains this string.
    pub value_contains: Option<String>,
    /// Only apply if every listed option has this effective value.
    pub when: Vec<(String, String)>,
    /// Patch operations (exactly one must be set).
    pub replace: Option<String>,
    pub prefix: Option<String>,
    pub suffix: Option<String>,
}

/// `[[rename]]`: a key rename passed through.
pub struct TomlRenameEntry {
    pub from: String,
    pub to: String,
}

/// A whole definition file.
pub struct TomlFile {
    pub module: TomlMeta,
    pub option: Vec<TomlOption>,
    pub patch: Vec<TomlPatchEntry>,
    pub rename: Vec<TomlRenameEntry>,
}

// ── Compiled definition ─────────────────────────────────────────────────────

#[derive(Debug, Clone, Copy, PartialEq, Eq, Structural)]
pub enum OpKind {
    Replace,
    Prefix,
    Suffix,
}

/// How a rule picks keys.
pub enum KeyMatcher {
    /// Specific keys, `@` stripped.
    Exact(Vec<String>),
    /// A compiled glob with named captures.
    Pattern(GlobPattern),
}

pub enum MatcherView {
    Exact(Seq<Seq<char>>),
    Pattern(Seq<TokenView>),
}

impl View for KeyMatcher {
    type V = MatcherView;

    open spec fn view(&self) -> MatcherView {
        match self {
            KeyMatcher::Exact(keys) => MatcherView::Exact(keys@.map_values(|k: String| k@)),
            KeyMatcher::Pattern(g) => MatcherView::Pattern(tokens_view(g.tokens@)),
        }
    }
}

/// One validated rule.
pub struct CompiledRule {
    pub matcher: KeyMatcher,
    pub value_contains: Option<String>,
    pub when: Vec<(String, String)>,
    /// Template that may hold `{capture}` placeholders.
    pub template: String,
    pub op_kind: OpKind,
}

pub struct RuleView {
    pub matcher: MatcherView,
    pub value_contains: Option<Seq<char>>,
    pub when: Seq<(Seq<char>, Seq<char>)>,
    pub template: Seq<char>,
    pub kind: OpKind,
}

impl View for CompiledRule {
    type V = RuleView;

    open spec fn view(&self) -> RuleView {
        RuleView {
            matcher: self.matcher@,
            value_contains: opt_text(self.value_contains),
            when: caps_view(self.when@),
            template: self.template@,
            kind: self.op_kind,
        }
    }
}

pub open spec fn rules_view(r: Seq<CompiledRule>) -> Seq<RuleView> {
    r.map_values(|x: CompiledRule| x@)
}

/// One parsed and compiled definition.
pub struct Definition {
    pub id: String,
    pub name: String,
    pub description: String,
    pub default_enabled: bool,
    pub priority: u32,
    pub uses_replace: bool,
    pub options: Vec<PatcherOption>,
    pub rules: Vec<CompiledRule>,
    pub renames: Vec<KeyRename>,
}

/// Why a rule is invalid.
#[derive(Debug, Clone, Copy, PartialEq, Eq, Structural)]
pub enum RuleError {
    NoOp,
    TwoOps,
    NoMatcher,
    TwoMatchers,
    Pattern(PatternError),
}

/// Why a definition is invalid.
pub enum DefinitionError {
    /// A choice option (by id) that declares no choices.
    NoChoices(String),
    Rule(RuleError),
}

pub enum DefinitionErrorView {
    NoChoices(Seq<char>),
    Rule(RuleError),
}

impl View for DefinitionError {
    type V = DefinitionErrorView;

    open spec fn view(&self) -> DefinitionErrorView {
        match self {
            DefinitionError::NoChoices(id) => DefinitionErrorView::NoChoices(id@),
            DefinitionError::Rule(e) => DefinitionErrorView::Rule(*e),
        }
    }
}

// ── Validation, as specification ────────────────────────────────────────────

/// How many of replace / prefix / suffix an entry sets.
pub open spec fn op_count(e: TomlPatchEntry) -> int {
    (if e.replace is Some { 1int } else { 0 }) + (if e.prefix is Some { 1int } else { 0 }) + (if e.suffix
        is Some { 1int } else { 0 })
}

/// The entry's op text and kind (meaningful when exactly one is set).
pub open spec fn entry_op(e: TomlPatchEntry) -> (Seq<char>, OpKind) {
    match e.replace {
        Some(v) => (v@, OpKind::Replace),
        None => match e.prefix {
            Some(v) => (v@, OpKind::Prefix),
            None => match e.suffix {
                Some(v) => (v@, OpKind::Suffix),
                None => (Seq::empty(), OpKind::Replace),
            },
        },
    }
}

/// The first thing wrong with an entry: its op, then its key selector.
pub open spec fn entry_error(e: TomlPatchEntry) -> Option<RuleError> {
    if op_count(e) == 0 {
        Some(RuleError::NoOp)
    } else if op_count(e) > 1 {
        Some(RuleError::TwoOps)
    } else if e.key is Some && e.keys is None && e.key_pattern is None {
        None
    } else if e.key is None && e.keys is Some && e.key_pattern is None {
        None
    } else if e.key is None && e.keys is None && e.key_pattern is Some {
        match glob_compile(e.key_pattern.unwrap()@) {
            Ok(_) => None,
            Err(pe) => Some(RuleError::Pattern(pe)),
        }
    } else if e.key is None && e.keys is None && e.key_pattern is None {
        Some(RuleError::NoMatcher)
    } else {
        Some(RuleError::TwoMatchers)
    }
}

/// The key selector a valid entry compiles to.
pub open spec fn entry_matcher(e: TomlPatchEntry) -> MatcherView {
    match e.key {
        Some(k) => MatcherView::Exact(seq![strip_at_spec(k@)]),
        None => match e.keys {
            Some(ks) => MatcherView::Exact(ks@.map_values(|k: String| strip_at_spec(k@))),
            None => match e.key_pattern {
                Some(p) => match glob_compile(p@) {
                    Ok(t) => MatcherView::Pattern(t),
                    Err(_) => MatcherView::Exact(Seq::empty()),
                },
                None => MatcherView::Exact(Seq::empty()),
            },
        },
    }
}

/// The rule a valid entry compiles to.
pub open spec fn entry_rule(e: TomlPatchEntry) -> RuleView {
    RuleView {
        matcher: entry_matcher(e),
        value_contains: opt_text(e.value_contains),
        when: caps_view(e.when@),
        template: entry_op(e).0,
        kind: entry_op(e).1,
    }
}

/// The first invalid rule's error, in file order.
pub open spec fn first_rule_error(es: Seq<TomlPatchEntry>) -> Option<RuleError>
    decreases es.len(),
{
    if es.len() == 0 {
        None
    } else {
        match entry_error(es[0]) {
            Some(x) => Some(x),
            None => first_rule_error(es.drop_first()),
        }
    }
}

/// The id of the first choice option without choices.
pub open spec fn first_option_error(os: Seq<TomlOption>) -> Option<Seq<char>>
    decreases os.len(),
{
    if os.len() == 0 {
        None
    } else if os[0].kind == TomlOptionKind::Choice && os[0].choices@.len() == 0 {
        Some(os[0].id@)
    } else {
        first_option_error(os.drop_first())
    }
}

/// Why a file does not parse: options are checked before rules.
pub open spec fn parse_error(f: TomlFile) -> Option<DefinitionErrorView> {
    match first_option_error(f.option@) {
        Some(id) => Some(DefinitionErrorView::NoChoices(id)),
        None => match first_rule_error(f.patch@) {
            Some(x) => Some(DefinitionErrorView::Rule(x)),
            None => None,
        },
    }
}

pub open spec fn choices_view(c: Seq<ChoiceOption>) -> Seq<(Seq<char>, Seq<char>)> {
    c.map_values(|x: ChoiceOption| (x.value@, x.label@))
}

pub open spec fn toml_choices_view(c: Seq<TomlChoice>) -> Seq<(Seq<char>, Seq<char>)> {
    c.map_values(|x: TomlChoice| (x.value@, x.label@))
}

/// `o` is the option that `t` declares.
pub open spec fn option_from(o: PatcherOption, t: TomlOption) -> bool {
    &&& o.id@ == t.id@
    &&& o.label@ == t.label@
    &&& o.description@ == t.description@
    &&& o.default@ == t.default@
    &&& match t.kind {
        TomlOptionKind::Bool => o.kind is Bool,
        TomlOptionKind::Choice => match o.kind {
            OptionKind::Choice { choices } => choices_view(choices@) == toml_choices_view(t.choices@),
            OptionKind::Bool => false,
        },
    }
}

pub open spec fn renames_view(r: Seq<KeyRename>) -> Seq<(Seq<char>, Seq<char>)> {
    r.map_values(|x: KeyRename| (x.from@, x.to@))
}

/// The renames a file declares, `@` stripped from both sides.
pub open spec fn file_renames(r: Seq<TomlRenameEntry>) -> Seq<(Seq<char>, Seq<char>)> {
    r.map_values(|x: TomlRenameEntry| (strip_at_spec(x.from@), strip_at_spec(x.to@)))
}

/// Some rule of the file replaces.
pub open spec fn file_uses_replace(es: Seq<TomlPatchEntry>) -> bool {
    exists|i: int| 0 <= i < es.len() && (#[trigger] entry_op(es[i])).1 == OpKind::Replace
}

} // verus!

verus! {

// ── Validation and compilation ──────────────────────────────────────────────

/// Mapping over a pushed sequence pushes the mapped element.
proof fn lemma_map_push<A, B>(s: Seq<A>, x: A, f: spec_fn(A) -> B)
    ensures
        s.push(x).map_values(f) == s.map_values(f).push(f(x)),
{
    assert(s.push(x).map_values(f) =~= s.map_values(f).push(f(x)));
}

fn copy_opt(o: &Option<String>) -> (r: Option<String>)
    ensures
        opt_text(r) == opt_text(*o),
{
    match o {
        Some(s) => Some(s.clone()),
        None => None,
    }
}

fn copy_pairs(w: &Vec<(String, String)>) -> (r: Vec<(String, String)>)
    ensures
        caps_view(r@) == caps_view(w@),
{
    copy_caps(w)
}

/// The entry's op: exactly one of replace, prefix, suffix.
fn resolve_op(e: &TomlPatchEntry) -> (r: Result<(String, OpKind), RuleError>)
    ensures
        match r {
            Ok((t, k)) => op_count(*e) == 1 && (t@, k) == entry_op(*e),
            Err(x) => (op_count(*e) == 0 && x == RuleError::NoOp) || (op_count(*e) > 1 && x
                == RuleError::TwoOps),
        },
{
    let n: u32 = (if e.replace.is_some() { 1 } else { 0 }) + (if e.prefix.is_some() { 1 } else { 0 }) + (
    if e.suffix.is_some() { 1 } else { 0 });
    if n == 0 {
        return Err(RuleError::NoOp);
    }
    if n > 1 {
        return Err(RuleError::TwoOps);
    }
    match &e.replace {
        Some(v) => Ok((v.clone(), OpKind::Replace)),
        None => match &e.prefix {
            Some(v) => Ok((v.clone(), OpKind::Prefix)),
            None => match &e.suffix {
                Some(v) => Ok((v.clone(), OpKind::Suffix)),
                None => Err(RuleError::NoOp),
            },
        },
    }
}

/// The keys of an exact selector, `@` stripped.
fn stripped_keys(ks: &Vec<String>) -> (r: Vec<String>)
    ensures
        r@.map_values(|k: String| k@) == ks@.map_values(|k: String| strip_at_spec(k@)),
{
    let mut r: Vec<String> = Vec::new();
    let mut i: usize = 0;
    while i < ks.len()
        invariant
            i <= ks@.len(),
            r@.map_values(|k: String| k@) == ks@.take(i as int).map_values(|k: String| strip_at_spec(k@)),
        decreases ks@.len() - i,
    {
        let ghost before = r@;
        let s = strip_at(ks[i].as_str());
        let ghost sv = s;
        r.push(s);
        proof {
            assert(ks@.take(i + 1) =~= ks@.take(i as int).push(ks@[i as int]));
            lemma_map_push(before, sv, |k: String| k@);
            lemma_map_push(ks@.take(i as int), ks@[i as int], |k: String| strip_at_spec(k@));
        }
        i = i + 1;
    }
    assert(ks@.take(ks@.len() as int) =~= ks@);
    r
}

/// The entry's key selector: exactly one of key, keys, key_pattern.
fn resolve_matcher(e: &TomlPatchEntry) -> (r: Result<KeyMatcher, RuleError>)
    requires
        op_count(*e) == 1,
    ensures
        match r {
            Ok(m) => entry_error(*e) is None && m@ == entry_matcher(*e),
            Err(x) => entry_error(*e) == Some(x),
        },
{
    match (&e.key, &e.keys, &e.key_pattern) {
        (Some(k), None, None) => {
            let mut v: Vec<String> = Vec::new();
            v.push(strip_at(k.as_str()));
            assert(v@.map_values(|k: String| k@) =~= seq![strip_at_spec(k@)]);
            Ok(KeyMatcher::Exact(v))
        },
        (None, Some(ks), None) => Ok(KeyMatcher::Exact(stripped_keys(ks))),
        (None, None, Some(p)) => match GlobPattern::compile(p.as_str()) {
            Ok(g) => Ok(KeyMatcher::Pattern(g)),
            Err(pe) => Err(RuleError::Pattern(pe)),
        },
        (None, None, None) => Err(RuleError::NoMatcher),
        _ => Err(RuleError::TwoMatchers),
    }
}

/// Validate and compile one entry.
fn compile_rule(e: &TomlPatchEntry) -> (r: Result<CompiledRule, RuleError>)
    ensures
        match r {
            Ok(c) => entry_error(*e) is None && c@ == entry_rule(*e),
            Err(x) => entry_error(*e) == Some(x),
        },
{
    let (template, op_kind) = match resolve_op(e) {
        Ok(p) => p,
        Err(x) => {
            return Err(x);
        },
    };
    let matcher = match resolve_matcher(e) {
        Ok(m) => m,
        Err(x) => {
            return Err(x);
        },
    };
    Ok(CompiledRule {
        matcher,
        value_contains: copy_opt(&e.value_contains),
        when: copy_pairs(&e.when),
        template,
        op_kind,
    })
}

fn copy_choices(c: &Vec<TomlChoice>) -> (r: Vec<ChoiceOption>)
    ensures
        choices_view(r@) == toml_choices_view(c@),
{
    let mut r: Vec<ChoiceOption> = Vec::new();
    let mut i: usize = 0;
    while i < c.len()
        invariant
            i <= c@.len(),
            choices_view(r@) == toml_choices_view(c@.take(i as int)),
        decreases c@.len() - i,
    {
        let ghost before = r@;
        let x = ChoiceOption { value: c[i].value.clone(), label: c[i].label.clone() };
        let ghost xv = x;
        r.push(x);
        proof {
            assert(c@.take(i + 1) =~= c@.take(i as int).push(c@[i as int]));
            lemma_map_push(before, xv, |x: ChoiceOption| (x.value@, x.label@));
            lemma_map_push(c@.take(i as int), c@[i as int], |x: TomlChoice| (x.value@, x.label@));
        }
        i = i + 1;
    }
    assert(c@.take(c@.len() as int) =~= c@);
    r
}

impl Definition {
    /// Validate and compile a definition file: options first (a choice
    /// option must declare choices), then each rule in order (exactly one
    /// op, exactly one key selector, a well-formed pattern).
    pub fn parse(id: &str, file: &TomlFile) -> (r: Result<Definition, DefinitionError>)
        ensures
            match r {
                Ok(d) => {
                    &&& parse_error(*file) is None
                    &&& d.id@ == id@
                    &&& d.name@ == file.module.name@
                    &&& d.description@ == file.module.description@
                    &&& d.default_enabled == match file.module.default_enabled {
                        Some(b) => b,
                        None => true,
                    }
                    &&& d.priority == match file.module.priority {
                        Some(p) => p,
                        None => 100u32,
                    }
                    &&& d.options@.len() == file.option@.len()
                    &&& forall|i: int|
                        0 <= i < d.options@.len() ==> option_from(#[trigger] d.options@[i], file.option@[i])
                    &&& rules_view(d.rules@) == file.patch@.map_values(|e: TomlPatchEntry| entry_rule(e))
                    &&& renames_view(d.renames@) == file_renames(file.rename@)
                    &&& d.uses_replace == file_uses_replace(file.patch@)
                },
                Err(x) => parse_error(*file) == Some(x@),
            },
    {
        let mut options: Vec<PatcherOption> = Vec::new();
        let mut i: usize = 0;
        assert(file.option@.skip(0) =~= file.option@);
        while i < file.option.len()
            invariant
                i <= file.option@.len(),
                options@.len() == i,
                forall|j: int| 0 <= j < i ==> option_from(#[trigger] options@[j], file.option@[j]),
                first_option_error(file.option@) == first_option_error(file.option@.skip(i as int)),
            decreases file.option@.len() - i,
        {
            let o = &file.option[i];
            proof {
                assert(file.option@.skip(i as int)[0] == file.option@[i as int]);
                assert(file.option@.skip(i as int).drop_first() =~= file.option@.skip(i + 1));
            }
            let kind = match o.kind {
                TomlOptionKind::Bool => OptionKind::Bool,
                TomlOptionKind::Choice => {
                    if o.choices.len() == 0 {
                        return Err(DefinitionError::NoChoices(o.id.clone()));
                    }
                    OptionKind::Choice { choices: copy_choices(&o.choices) }
                },
            };
            options.push(
                PatcherOption {
                    id: o.id.clone(),
                    label: o.label.clone(),
                    description: o.description.clone(),
                    kind,
                    default: o.default.clone(),
                },
            );
            i = i + 1;
        }
        assert(file.option@.skip(file.option@.len() as int).len() == 0);
        let mut rules: Vec<CompiledRule> = Vec::new();
        let mut uses_replace = false;
        let mut j: usize = 0;
        assert(file.patch@.skip(0) =~= file.patch@);
        while j < file.patch.len()
            invariant
                j <= file.patch@.len(),
                first_option_error(file.option@) is None,
                rules_view(rules@) == file.patch@.take(j as int).map_values(|e: TomlPatchEntry| entry_rule(e)),
                first_rule_error(file.patch@) == first_rule_error(file.patch@.skip(j as int)),
                uses_replace == exists|k: int| 0 <= k < j && (#[trigger] entry_op(file.patch@[k])).1 == OpKind::Replace,
            decreases file.patch@.len() - j,
        {
            proof {
                assert(file.patch@.skip(j as int)[0] == file.patch@[j as int]);
                assert(file.patch@.skip(j as int).drop_first() =~= file.patch@.skip(j + 1));
            }
            let c = match compile_rule(&file.patch[j]) {
                Ok(c) => c,
                Err(x) => {
                    return Err(DefinitionError::Rule(x));
                },
            };
            let is_replace = match c.op_kind {
                OpKind::Replace => true,
                _ => false,
            };
            let ghost before = rules@;
            let ghost cv = c;
            rules.push(c);
            proof {
                assert(file.patch@.take(j + 1) =~= file.patch@.take(j as int).push(file.patch@[j as int]));
                lemma_map_push(before, cv, |x: CompiledRule| x@);
                lemma_map_push(file.patch@.take(j as int), file.patch@[j as int], |e: TomlPatchEntry| entry_rule(e));
            }
            uses_replace = uses_replace || is_replace;
            j = j + 1;
        }
        proof {
            assert(file.patch@.skip(file.patch@.len() as int).len() == 0);
            assert(file.patch@.take(file.patch@.len() as int) =~= file.patch@);
        }
        let mut renames: Vec<KeyRename> = Vec::new();
        let mut k: usize = 0;
        while k < file.rename.len()
            invariant
                k <= file.rename@.len(),
                renames_view(renames@) == file_renames(file.rename@.take(k as int)),
            decreases file.rename@.len() - k,
        {
            let ghost before = renames@;
            let x = KeyRename {
                from: strip_at(file.rename[k].from.as_str()),
                to: strip_at(file.rename[k].to.as_str()),
            };
            let ghost xv = x;
            renames.push(x);
            proof {
                assert(file.rename@.take(k + 1) =~= file.rename@.take(k as int).push(file.rename@[k as int]));
                lemma_map_push(before, xv, |x: KeyRename| (x.from@, x.to@));
                lemma_map_push(
                    file.rename@.take(k as int),
                    file.rename@[k as int],
                    |x: TomlRenameEntry| (strip_at_spec(x.from@), strip_at_spec(x.to@)),
                );
            }
            k = k + 1;
        }
        assert(file.rename@.take(file.rename@.len() as int) =~= file.rename@);
        let default_enabled = match file.module.default_enabled {
            Some(b) => b,
            None => true,
        };
        let priority = match file.module.priority {
            Some(p) => p,
            None => 100,
        };
        Ok(Definition {
            id: id.to_owned(),
            name: file.module.name.clone(),
            description: file.module.description.clone(),
            default_enabled,
            priority,
            uses_replace,
            options,
            rules,
            renames,
        })
    }
}

} // verus!

verus! {

// ── Deriving ────────────────────────────────────────────────────────────────

/// The default the last declaration of option `id` gives; empty when
/// undeclared.
pub open spec fn declared_default(opts: Seq<PatcherOption>, id: Seq<char>) -> Seq<char>
    decreases opts.len(),
{
    if opts.len() == 0 {
        Seq::empty()
    } else if opts.last().id@ == id {
        opts.last().default@
    } else {
        declared_default(opts.drop_last(), id)
    }
}

/// Every `when` entry holds: the option's effective value (configured, else
/// declared default) equals the required value.
pub open spec fn when_ok(when: Seq<(Seq<char>, Seq<char>)>, opts: Seq<PatcherOption>, config: PatcherConfig) -> bool {
    forall|i: int|
        0 <= i < when.len() ==> option_str(config, #[trigger] when[i].0, declared_default(opts, when[i].0))
            == when[i].1
}

/// The value passes the rule's `value_contains` filter.
pub open spec fn value_ok(needle: Option<Seq<char>>, value: Seq<char>) -> bool {
    match needle {
        Some(n) => contains_seq(value, n),
        None => true,
    }
}

/// The op of kind `kind` carrying `text`.
pub open spec fn op_of(kind: OpKind, text: Seq<char>) -> OpView {
    match kind {
        OpKind::Replace => OpView::Replace(text),
        OpKind::Prefix => OpView::Prefix(text),
        OpKind::Suffix => OpView::Suffix(text),
    }
}

/// The patch an exact key yields: present and passing the value filter.
pub open spec fn key_hit(k: Seq<char>, locale: Seq<(Seq<char>, String)>, r: RuleView) -> Seq<(Seq<char>, OpView)> {
    match lookup_text(locale, k) {
        Some(v) => if value_ok(r.value_contains, v) {
            seq![(k, op_of(r.kind, r.template))]
        } else {
            Seq::empty()
        },
        None => Seq::empty(),
    }
}

/// The patches a list of exact keys yields, in list order.
pub open spec fn exact_hits(keys: Seq<Seq<char>>, locale: Seq<(Seq<char>, String)>, r: RuleView) -> Seq<
    (Seq<char>, OpView),
>
    decreases keys.len(),
{
    if keys.len() == 0 {
        Seq::empty()
    } else {
        exact_hits(keys.drop_last(), locale, r) + key_hit(keys.last(), locale, r)
    }
}

/// The patch a locale entry yields under a pattern rule: the whole key
/// matches and the value passes the filter; the template is resolved with
/// the captures.
pub open spec fn entry_hit(toks: Seq<TokenView>, e: (Seq<char>, String), r: RuleView) -> Seq<(Seq<char>, OpView)> {
    match glob_match(toks, 0, e.0, 0, Seq::empty()) {
        Some(c) => if value_ok(r.value_contains, e.1@) {
            seq![(e.0, op_of(r.kind, resolve_spec(r.template, c)))]
        } else {
            Seq::empty()
        },
        None => Seq::empty(),
    }
}

/// The patches a pattern rule yields over locale entries, in entry (key)
/// order.
pub open spec fn pattern_hits(toks: Seq<TokenView>, entries: Seq<(Seq<char>, String)>, r: RuleView) -> Seq<
    (Seq<char>, OpView),
>
    decreases entries.len(),
{
    if entries.len() == 0 {
        Seq::empty()
    } else {
        pattern_hits(toks, entries.drop_last(), r) + entry_hit(toks, entries.last(), r)
    }
}

/// The patches one rule yields: none when its `when` fails.
pub open spec fn rule_hits(
    r: RuleView,
    opts: Seq<PatcherOption>,
    locale: Seq<(Seq<char>, String)>,
    config: PatcherConfig,
) -> Seq<(Seq<char>, OpView)> {
    if !when_ok(r.when, opts, config) {
        Seq::empty()
    } else {
        match r.matcher {
            MatcherView::Exact(ks) => exact_hits(ks, locale, r),
            MatcherView::Pattern(t) => pattern_hits(t, locale, r),
        }
    }
}

/// The patches of all rules, rule by rule.
pub open spec fn derive_hits(
    rules: Seq<RuleView>,
    opts: Seq<PatcherOption>,
    locale: Seq<(Seq<char>, String)>,
    config: PatcherConfig,
) -> Seq<(Seq<char>, OpView)>
    decreases rules.len(),
{
    if rules.len() == 0 {
        Seq::empty()
    } else {
        derive_hits(rules.drop_last(), opts, locale, config) + rule_hits(rules.last(), opts, locale, config)
    }
}

fn make_op(kind: OpKind, text: String) -> (r: PatchOp)
    ensures
        r@ == op_of(kind, text@),
{
    match kind {
        OpKind::Replace => PatchOp::Replace(text),
        OpKind::Prefix => PatchOp::Prefix(text),
        OpKind::Suffix => PatchOp::Suffix(text),
    }
}

fn value_matches(needle: &Option<String>, value: &str) -> (b: bool)
    ensures
        b == value_ok(opt_text(*needle), value@),
{
    match needle {
        Some(n) => str_contains(value, n.as_str()),
        None => true,
    }
}

fn push_patch(out: &mut Vec<(String, PatchOp)>, key: String, op: PatchOp)
    ensures
        patches_view(final(out)@) == patches_view(old(out)@).push((key@, op@)),
{
    let ghost before = out@;
    let ghost x = (key, op);
    out.push((key, op));
    proof {
        lemma_map_push(before, x, |x: (String, PatchOp)| (x.0@, x.1@));
    }
}

impl Definition {
    /// The declared default of option `id`.
    fn option_default(&self, id: &str) -> (r: &str)
        ensures
            r@ == declared_default(self.options@, id@),
    {
        let mut i: usize = self.options.len();
        assert(self.options@.take(i as int) =~= self.options@);
        while i > 0
            invariant
                i <= self.options@.len(),
                declared_default(self.options@, id@) == declared_default(self.options@.take(i as int), id@),
            decreases i,
        {
            proof {
                let t = self.options@.take(i as int);
                assert(t.drop_last() =~= self.options@.take(i - 1));
                assert(t.last() == self.options@[i - 1]);
            }
            if str_eq(self.options[i - 1].id.as_str(), id) {
                return self.options[i - 1].default.as_str();
            }
            i = i - 1;
        }
        proof {
            reveal_strlit("");
            assert(self.options@.take(0).len() == 0);
        }
        ""
    }

    /// Every `when` entry matches the option's effective value.
    fn when_satisfied(&self, conds: &Vec<(String, String)>, config: &PatcherConfig) -> (b: bool)
        requires
            config.options.wf(),
        ensures
            b == when_ok(caps_view(conds@), self.options@, *config),
    {
        let ghost w = caps_view(conds@);
        let mut i: usize = 0;
        while i < conds.len()
            invariant
                i <= conds@.len(),
                w == caps_view(conds@),
                config.options.wf(),
                forall|k: int|
                    0 <= k < i ==> option_str(*config, #[trigger] w[k].0, declared_default(self.options@, w[k].0))
                        == w[k].1,
            decreases conds@.len() - i,
        {
            let id = conds[i].0.as_str();
            let d = self.option_default(id);
            let v = config.get_str(id, d);
            if !str_eq(v, conds[i].1.as_str()) {
                assert(option_str(*config, w[i as int].0, declared_default(self.options@, w[i as int].0)) != w[i as int].1);
                return false;
            }
            i = i + 1;
        }
        true
    }

    /// Append one rule's patches to `out`.
    fn rule_patches(
        &self,
        rule: &CompiledRule,
        locale: &LocaleMap,
        config: &PatcherConfig,
        out: &mut Vec<(String, PatchOp)>,
    )
        requires
            locale.entries.wf(),
            config.options.wf(),
        ensures
            patches_view(final(out)@) == patches_view(old(out)@) + rule_hits(
                rule@,
                self.options@,
                locale.entries@,
                *config,
            ),
    {
        let ghost rv = rule@;
        if !self.when_satisfied(&rule.when, config) {
            assert(patches_view(out@) =~= patches_view(out@) + Seq::<(Seq<char>, OpView)>::empty());
            return;
        }
        match &rule.matcher {
            KeyMatcher::Exact(keys) => {
                let ghost kv = keys@.map_values(|k: String| k@);
                let mut i: usize = 0;
                assert(kv.take(0) =~= Seq::<Seq<char>>::empty());
                assert(patches_view(out@) =~= patches_view(old(out)@) + exact_hits(kv.take(0), locale.entries@, rv));
                while i < keys.len()
                    invariant
                        i <= keys@.len(),
                        kv == keys@.map_values(|k: String| k@),
                        rv == rule@,
                        locale.entries.wf(),
                        patches_view(out@) == patches_view(old(out)@) + exact_hits(kv.take(i as int), locale.entries@, rv),
                    decreases keys@.len() - i,
                {
                    proof {
                        assert(kv.take(i + 1).drop_last() =~= kv.take(i as int));
                        assert(kv.take(i + 1).last() == keys@[i as int]@);
                    }
                    let ghost before = patches_view(out@);
                    match locale.get(keys[i].as_str()) {
                        Some(v) => {
                            if value_matches(&rule.value_contains, v.as_str()) {
                                let op = make_op(rule.op_kind, rule.template.clone());
                                push_patch(out, keys[i].clone(), op);
                            }
                        },
                        None => {},
                    }
                    proof {
                        assert(patches_view(out@) =~= patches_view(old(out)@) + exact_hits(kv.take(i + 1), locale.entries@, rv));
                    }
                    i = i + 1;
                }
                assert(kv.take(keys@.len() as int) =~= kv);
            },
            KeyMatcher::Pattern(glob) => {
                let ghost toks = tokens_view(glob.tokens@);
                let ghost es = locale.entries@;
                let n = locale.entries.len();
                let mut i: usize = 0;
                assert(es.take(0) =~= Seq::<(Seq<char>, String)>::empty());
                assert(patches_view(out@) =~= patches_view(old(out)@) + pattern_hits(toks, es.take(0), rv));
                while i < n
                    invariant
                        i <= n,
                        n == es.len(),
                        es == locale.entries@,
                        toks == tokens_view(glob.tokens@),
                        rv == rule@,
                        locale.entries.wf(),
                        patches_view(out@) == patches_view(old(out)@) + pattern_hits(toks, es.take(i as int), rv),
                    decreases n - i,
                {
                    proof {
                        assert(es.take(i + 1).drop_last() =~= es.take(i as int));
                        assert(es.take(i + 1).last() == es[i as int]);
                    }
                    let key = locale.entries.key_at(i);
                    let value = locale.entries.value_at(i);
                    match glob.captures(key) {
                        Some(caps) => {
                            if value_matches(&rule.value_contains, value.as_str()) {
                                let text = resolve_template(rule.template.as_str(), &caps);
                                let op = make_op(rule.op_kind, text);
                                push_patch(out, key.to_owned(), op);
                            }
                        },
                        None => {},
                    }
                    proof {
                        assert(patches_view(out@) =~= patches_view(old(out)@) + pattern_hits(toks, es.take(i + 1), rv));
                    }
                    i = i + 1;
                }
                assert(es.take(n as int) =~= es);
            },
        }
    }

    /// Derive the op-set against the parsed base locale.
    pub fn derive(&self, locale: &LocaleMap, config: &PatcherConfig) -> (r: OpSet)
        requires
            locale.entries.wf(),
            config.options.wf(),
        ensures
            patches_view(r.patches@) == derive_hits(rules_view(self.rules@), self.options@, locale.entries@, *config),
            renames_view(r.renames@) == renames_view(self.renames@),
    {
        let ghost rv = rules_view(self.rules@);
        let mut patches: Vec<(String, PatchOp)> = Vec::new();
        let mut i: usize = 0;
        assert(patches_view(patches@) =~= derive_hits(rv.take(0), self.options@, locale.entries@, *config));
        while i < self.rules.len()
            invariant
                i <= self.rules@.len(),
                rv == rules_view(self.rules@),
                locale.entries.wf(),
                config.options.wf(),
                patches_view(patches@) == derive_hits(rv.take(i as int), self.options@, locale.entries@, *config),
            decreases self.rules@.len() - i,
        {
            proof {
                assert(rv.take(i + 1).drop_last() =~= rv.take(i as int));
                assert(rv.take(i + 1).last() == self.rules@[i as int]@);
            }
            self.rule_patches(&self.rules[i], locale, config, &mut patches);
            i = i + 1;
        }
        assert(rv.take(self.rules@.len() as int) =~= rv);
        let mut renames: Vec<KeyRename> = Vec::new();
        let mut k: usize = 0;
        while k < self.renames.len()
            invariant
                k <= self.renames@.len(),
                renames_view(renames@) == renames_view(self.renames@.take(k as int)),
            decreases self.renames@.len() - k,
        {
            let ghost before = renames@;
            let x = KeyRename { from: self.renames[k].from.clone(), to: self.renames[k].to.clone() };
            let ghost xv = x;
            renames.push(x);
            proof {
                assert(self.renames@.take(k + 1) =~= self.renames@.take(k as int).push(self.renames@[k as int]));
                lemma_map_push(before, xv, |x: KeyRename| (x.from@, x.to@));
                lemma_map_push(self.renames@.take(k as int), self.renames@[k as int], |x: KeyRename| (x.from@, x.to@));
            }
            k = k + 1;
        }
        assert(self.renames@.take(self.renames@.len() as int) =~= self.renames@);
        OpSet { renames, patches }
    }
}

} // verus!

verus! {

// ── The Patcher wrapper ─────────────────────────────────────────────────────

/// A [`crate::Patcher`] over a parsed [`Definition`].
pub struct TomlPatcher {
    pub def: Definition,
}

impl crate::Patcher for TomlPatcher {
    open spec fn spec_derive_ok(&self, cooked: CookedData, config: PatcherConfig, r: Result<OpSetView, Seq<char>>) -> bool {
        match r {
            Ok(v) => exists|ops: OpSet| #[trigger] ops_view(ops) == v && patches_view(ops.patches@) == derive_hits(
                rules_view(self.def.rules@),
                self.def.options@,
                cooked.locale.entries@,
                config,
            ) && renames_view(ops.renames@) == renames_view(self.def.renames@),
            Err(_) => false,
        }
    }

    open spec fn spec_id(&self) -> Seq<char> {
        self.def.id@
    }

    open spec fn spec_default_enabled(&self) -> bool {
        self.def.default_enabled
    }

    open spec fn spec_priority(&self) -> u32 {
        self.def.priority
    }

    open spec fn spec_name(&self) -> Seq<char> {
        self.def.name@
    }

    open spec fn spec_description(&self) -> Seq<char> {
        self.def.description@
    }

    open spec fn spec_uses_replace_ops(&self) -> bool {
        self.def.uses_replace
    }

    open spec fn spec_options(&self) -> Seq<crate::ops::OptionText> {
        crate::ops::options_text(self.def.options@)
    }

    fn id(&self) -> (r: &str) {
        self.def.id.as_str()
    }

    fn name(&self) -> (r: &str)
        ensures
            r@ == self.def.name@,
    {
        self.def.name.as_str()
    }

    fn description(&self) -> (r: &str)
        ensures
            r@ == self.def.description@,
    {
        self.def.description.as_str()
    }

    fn default_enabled(&self) -> (b: bool) {
        self.def.default_enabled
    }

    fn uses_replace_ops(&self) -> (b: bool)
        ensures
            b == self.def.uses_replace,
    {
        self.def.uses_replace
    }

    fn priority(&self) -> (p: u32) {
        self.def.priority
    }

    fn options(&self) -> (r: Vec<PatcherOption>)
        ensures
            r@.len() == self.def.options@.len(),
            forall|i: int| 0 <= i < r@.len() ==> option_same(#[trigger] r@[i], self.def.options@[i]),
    {
        let r = copy_options(&self.def.options);
        assert(crate::ops::options_text(r@) =~= crate::ops::options_text(self.def.options@));
        r
    }

    fn derive(&self, cooked: &CookedData, config: &PatcherConfig) -> (r: Result<OpSet, String>)
        ensures
            r matches Ok(ops) && patches_view(ops.patches@) == derive_hits(
                rules_view(self.def.rules@),
                self.def.options@,
                cooked.locale.entries@,
                *config,
            ) && renames_view(ops.renames@) == renames_view(self.def.renames@),
    {
        Ok(self.def.derive(&cooked.locale, config))
    }
}

} // verus!

verus! {

// ── Laws ────────────────────────────────────────────────────────────────────

/// Every key a pattern rule patches is at most the last entry's key, and the
/// patched keys are strictly increasing.
proof fn lemma_pattern_hits_bounded(toks: Seq<TokenView>, es: Seq<(Seq<char>, String)>, r: RuleView)
    requires
        crate::strmap::entries_sorted(es),
    ensures
        ({
            let h = pattern_hits(toks, es, r);
            &&& forall|i: int, j: int| 0 <= i < j < h.len() ==> lex_lt(h[i].0, h[j].0)
            &&& es.len() > 0 ==> forall|i: int|
                0 <= i < h.len() ==> h[i].0 == es.last().0 || lex_lt(#[trigger] h[i].0, es.last().0)
        }),
    decreases es.len(),
{
    if es.len() > 0 {
        let init = es.drop_last();
        assert(crate::strmap::entries_sorted(init));
        lemma_pattern_hits_bounded(toks, init, r);
        let h0 = pattern_hits(toks, init, r);
        let h = pattern_hits(toks, es, r);
        let last = entry_hit(toks, es.last(), r);
        assert(h == h0 + last);
        assert forall|i: int| 0 <= i < h0.len() implies lex_lt(#[trigger] h0[i].0, es.last().0) by {
            assert(init.len() > 0);
            assert(lex_lt(init.last().0, es.last().0));
            if h0[i].0 != init.last().0 {
                crate::text::lemma_lex_transitive(h0[i].0, init.last().0, es.last().0);
            }
        }
        assert forall|i: int, j: int| 0 <= i < j < h.len() implies lex_lt(h[i].0, h[j].0) by {
            if j >= h0.len() {
                assert(h[j].0 == es.last().0);
                assert(h[i] == h0[i]);
            } else {
                assert(h[i] == h0[i] && h[j] == h0[j]);
            }
        }
        assert forall|i: int| 0 <= i < h.len() implies h[i].0 == es.last().0 || lex_lt(
            #[trigger] h[i].0,
            es.last().0,
        ) by {
            if i < h0.len() {
                assert(h[i] == h0[i]);
            }
        }
    }
}

/// A pattern rule's patches come out strictly sorted by key, whatever the
/// locale holds, so a derive is deterministic.
pub proof fn lemma_pattern_patches_sorted(
    toks: Seq<TokenView>,
    locale: LocaleMap,
    r: RuleView,
)
    requires
        locale.entries.wf(),
    ensures
        forall|i: int, j: int|
            0 <= i < j < pattern_hits(toks, locale.entries@, r).len() ==> lex_lt(
                pattern_hits(toks, locale.entries@, r)[i].0,
                pattern_hits(toks, locale.entries@, r)[j].0,
            ),
{
    locale.entries.lemma_wf_sorted();
    lemma_pattern_hits_bounded(toks, locale.entries@, r);
}

} // verus!

verus! {

// ── The built-in label fixes ────────────────────────────────────────────────

/// An exact-key rule that replaces the key's text.
pub open spec fn replace_rule(key: Seq<char>, text: Seq<char>) -> RuleView {
    RuleView {
        matcher: MatcherView::Exact(seq![key]),
        value_contains: None,
        when: Seq::empty(),
        template: text,
        kind: OpKind::Replace,
    }
}

/// The label fixes' rules: `hud_mining_scanning_instability` →
/// `Instab.:`, `items_commodities_hephaestanite` → `Heph`.
pub open spec fn label_fix_rules() -> Seq<RuleView> {
    seq![
        replace_rule("hud_mining_scanning_instability"@, "Instab.:"@),
        replace_rule("items_commodities_hephaestanite"@, "Heph"@),
    ]
}

fn replace_entry(key: &str, text: &str) -> (e: TomlPatchEntry)
    ensures
        e.key matches Some(k) && k@ == key@,
        e.keys is None,
        e.key_pattern is None,
        e.value_contains is None,
        e.when@.len() == 0,
        e.replace matches Some(r) && r@ == text@,
        e.prefix is None,
        e.suffix is None,
{
    TomlPatchEntry {
        key: Some(key.to_owned()),
        keys: None,
        key_pattern: None,
        value_contains: None,
        when: Vec::new(),
        replace: Some(text.to_owned()),
        prefix: None,
        suffix: None,
    }
}

/// The maintainer-curated label fixes: labels shortened where they overlap
/// other text in the game UI. On by default, priority 100, replacing.
pub fn label_fixes() -> (p: TomlPatcher)
    ensures
        p.def.id@ == "label_fixes"@,
        p.def.name@ == "Label Fixes"@,
        p.def.description@ == "Shorten labels that cause text overlap in the game UI"@,
        p.def.default_enabled,
        p.def.priority == 100,
        p.def.uses_replace,
        p.def.options@.len() == 0,
        p.def.renames@.len() == 0,
        rules_view(p.def.rules@) == label_fix_rules(),
{
    let mut patch: Vec<TomlPatchEntry> = Vec::new();
    patch.push(replace_entry("hud_mining_scanning_instability", "Instab.:"));
    patch.push(replace_entry("items_commodities_hephaestanite", "Heph"));
    let file = TomlFile {
        module: TomlMeta {
            name: "Label Fixes".to_owned(),
            description: "Shorten labels that cause text overlap in the game UI".to_owned(),
            default_enabled: None,
            priority: None,
        },
        option: Vec::new(),
        patch,
        rename: Vec::new(),
    };
    proof {
        reveal_strlit("hud_mining_scanning_instability");
        reveal_strlit("items_commodities_hephaestanite");
        let es = file.patch@;
        assert(entry_error(es[0]) is None);
        assert(entry_error(es[1]) is None);
        assert(es.drop_first().drop_first() =~= Seq::<TomlPatchEntry>::empty());
        assert(first_rule_error(es.drop_first().drop_first()) is None);
        assert(first_rule_error(es.drop_first()) is None);
        assert(first_rule_error(es) is None);
        assert(parse_error(file) is None);
        assert(entry_op(es[0]).1 == OpKind::Replace);
        assert(strip_at_spec(es[0].key.unwrap()@) == es[0].key.unwrap()@);
        assert(strip_at_spec(es[1].key.unwrap()@) == es[1].key.unwrap()@);
        assert(caps_view(es[0].when@) =~= Seq::<(Seq<char>, Seq<char>)>::empty());
        assert(caps_view(es[1].when@) =~= Seq::<(Seq<char>, Seq<char>)>::empty());
        assert(entry_matcher(es[0]) == MatcherView::Exact(seq!["hud_mining_scanning_instability"@]));
        assert(entry_matcher(es[1]) == MatcherView::Exact(seq!["items_commodities_hephaestanite"@]));
        assert(entry_rule(es[0]) == replace_rule("hud_mining_scanning_instability"@, "Instab.:"@));
        assert(entry_rule(es[1]) == replace_rule("items_commodities_hephaestanite"@, "Heph"@));
        assert(es.map_values(|e: TomlPatchEntry| entry_rule(e)) =~= label_fix_rules());
        assert(file_renames(file.rename@) =~= Seq::<(Seq<char>, Seq<char>)>::empty());
    }
    match Definition::parse("label_fixes", &file) {
        Ok(def) => {
            assert(renames_view(def.renames@).len() == 0);
            TomlPatcher { def }
        },
        Err(_) => {
            proof {
                assert(false);
            }
            TomlPatcher {
                def: Definition {
                    id: String::new(),
                    name: String::new(),
                    description: String::new(),
                    default_enabled: true,
                    priority: 100,
                    uses_replace: true,
                    options: Vec::new(),
                    rules: Vec::new(),
                    renames: Vec::new(),
                },
            }
        },
    }
}

} // verus!
