//! The apply pipeline as one function: base lines, optional language-pack
//! overlay, every enabled patcher's renames, their patch ops stacked per
//! key in patcher-priority order (`Replace` resets the running value,
//! `Prefix`/`Suffix` compose), then user overrides — last, always winning —
//! and the UTF-8+BOM encoding of the result.

use vstd::prelude::*;

use crate::derive::PatcherOps;
use crate::merge::{
    apply_language_pack, apply_patches, apply_renames, apply_user_overrides, bare_key,
    encode_utf8_bom, encoded_lines, is_placeholder, kv_split, ops_for, override_appends,
    override_line, pack_appends, pack_line, patch_line, rename_line, texts, utf8_bom,
};
use crate::ops::{KeyRename, OpView, PatchOp, apply_ops_spec};
use crate::strmap::{StrMap, lookup};

verus! {

// ── The stages, as specification ────────────────────────────────────────────

/// Lines after the language-pack overlay (none: unchanged).
pub open spec fn pack_stage(base: Seq<Seq<char>>, pack: Option<Seq<Seq<char>>>) -> Seq<Seq<char>> {
    match pack {
        None => base,
        Some(p) => base.map_values(|l: Seq<char>| pack_line(l, p)) + pack_appends(p, base, p),
    }
}

/// Every patcher's renames, patcher by patcher.
pub open spec fn all_renames(ops: Seq<PatcherOps>) -> Seq<KeyRename>
    decreases ops.len(),
{
    if ops.len() == 0 {
        Seq::empty()
    } else {
        all_renames(ops.drop_last()) + ops.last().ops.renames@
    }
}

/// The ops one patcher emits for key `k`, in emission order.
pub open spec fn key_ops(ps: Seq<(String, PatchOp)>, k: Seq<char>) -> Seq<OpView>
    decreases ps.len(),
{
    if ps.len() == 0 {
        Seq::empty()
    } else if ps.last().0@ == k {
        key_ops(ps.drop_last(), k).push(ps.last().1@)
    } else {
        key_ops(ps.drop_last(), k)
    }
}

/// The op stack for key `k`: every patcher's ops for it, patcher by
/// patcher.
pub open spec fn op_stack(ops: Seq<PatcherOps>, k: Seq<char>) -> Seq<OpView>
    decreases ops.len(),
{
    if ops.len() == 0 {
        Seq::empty()
    } else {
        op_stack(ops.drop_last(), k) + key_ops(ops.last().ops.patches@, k)
    }
}

/// One op applied to a value.
pub open spec fn apply_view(value: Seq<char>, op: OpView) -> Seq<char> {
    match op {
        OpView::Replace(v) => v,
        OpView::Prefix(p) => p + value,
        OpView::Suffix(s) => value + s,
    }
}

/// A stack of ops applied to a value, first to last.
pub open spec fn apply_views(value: Seq<char>, ops: Seq<OpView>) -> Seq<char>
    decreases ops.len(),
{
    if ops.len() == 0 {
        value
    } else {
        apply_view(apply_views(value, ops.drop_last()), ops.last())
    }
}

/// One line after the patch stage: a line whose key has ops gets its value
/// run through the stack, raw key kept, unless the value is a placeholder.
pub open spec fn stacked_line(line: Seq<char>, ops: Seq<PatcherOps>) -> Seq<char> {
    match kv_split(line) {
        Some((raw, value)) => if op_stack(ops, bare_key(raw)).len() > 0 && !is_placeholder(value) {
            raw + seq!['='] + apply_views(value, op_stack(ops, bare_key(raw)))
        } else {
            line
        },
        None => line,
    }
}

/// The lines the pipeline produces.
pub open spec fn composed_lines(
    base: Seq<Seq<char>>,
    pack: Option<Seq<Seq<char>>>,
    ops: Seq<PatcherOps>,
    ov: Seq<(Seq<char>, String)>,
) -> Seq<Seq<char>> {
    let overlaid = pack_stage(base, pack);
    let renamed = overlaid.map_values(|l: Seq<char>| rename_line(l, all_renames(ops)));
    let patched = renamed.map_values(|l: Seq<char>| stacked_line(l, ops));
    patched.map_values(|l: Seq<char>| override_line(l, ov)) + override_appends(ov, patched)
}

pub open spec fn opt_texts(p: Option<&Vec<String>>) -> Option<Seq<Seq<char>>> {
    match p {
        Some(v) => Some(texts(v@)),
        None => None,
    }
}

/// The pack adds at most one line per pack line.
proof fn lemma_pack_appends_len(pack: Seq<Seq<char>>, base: Seq<Seq<char>>, full: Seq<Seq<char>>)
    ensures
        pack_appends(pack, base, full).len() <= pack.len(),
    decreases pack.len(),
{
    if pack.len() > 0 {
        lemma_pack_appends_len(pack.drop_last(), base, full);
    }
}

// ── Building the op table ───────────────────────────────────────────────────

/// `t` holds exactly the stack `s` under `k` (nothing when `s` is empty).
pub open spec fn table_holds(t: Seq<(Seq<char>, Vec<PatchOp>)>, k: Seq<char>, s: Seq<OpView>) -> bool {
    match ops_for(t, k) {
        Some(x) => s.len() > 0 && x.map_values(|o: PatchOp| o@) == s,
        None => s.len() == 0,
    }
}

proof fn lemma_apply_views(value: Seq<char>, ops: Seq<PatchOp>)
    ensures
        apply_ops_spec(value, ops) == apply_views(value, ops.map_values(|o: PatchOp| o@)),
    decreases ops.len(),
{
    if ops.len() > 0 {
        lemma_apply_views(value, ops.drop_last());
        assert(ops.drop_last().map_values(|o: PatchOp| o@) =~= ops.map_values(|o: PatchOp| o@).drop_last());
    }
}

proof fn lemma_stacked_line(line: Seq<char>, t: Seq<(Seq<char>, Vec<PatchOp>)>, ops: Seq<PatcherOps>)
    requires
        forall|k: Seq<char>| table_holds(t, k, #[trigger] op_stack(ops, k)),
    ensures
        patch_line(line, t) == stacked_line(line, ops),
{
    match kv_split(line) {
        Some((raw, value)) => {
            let k = bare_key(raw);
            assert(table_holds(t, k, op_stack(ops, k)));
            match ops_for(t, k) {
                Some(x) => {
                    lemma_apply_views(value, x);
                },
                None => {},
            }
        },
        None => {},
    }
}

/// Stack every patcher's ops per key, patcher by patcher.
fn op_table(ops: &Vec<PatcherOps>) -> (t: StrMap<Vec<PatchOp>>)
    ensures
        t.wf(),
        forall|k: Seq<char>| table_holds(t@, k, #[trigger] op_stack(ops@, k)),
{
    let mut t: StrMap<Vec<PatchOp>> = StrMap::new();
    let mut i: usize = 0;
    while i < ops.len()
        invariant
            i <= ops@.len(),
            t.wf(),
            forall|k: Seq<char>| table_holds(t@, k, #[trigger] op_stack(ops@.take(i as int), k)),
        decreases ops@.len() - i,
    {
        let ps = &ops[i].ops.patches;
        let ghost pv = ps@;
        let mut j: usize = 0;
        proof {
            assert forall|k: Seq<char>|
                table_holds(t@, k, #[trigger] (op_stack(ops@.take(i as int), k) + key_ops(pv.take(0), k))) by {
                assert(pv.take(0).len() == 0);
                assert(op_stack(ops@.take(i as int), k) + key_ops(pv.take(0), k) =~= op_stack(ops@.take(i as int), k));
            }
        }
        while j < ps.len()
            invariant
                i < ops@.len(),
                pv == ops@[i as int].ops.patches@,
                pv == ps@,
                j <= pv.len(),
                t.wf(),
                forall|k: Seq<char>|
                    table_holds(t@, k, #[trigger] (op_stack(ops@.take(i as int), k) + key_ops(pv.take(j as int), k))),
            decreases pv.len() - j,
        {
            let key = ps[j].0.as_str();
            let op = ps[j].1.copy_op();
            let ghost t0 = t@;
            t.push_to(key, op);
            proof {
                assert(pv.take(j + 1).drop_last() =~= pv.take(j as int));
                assert(pv.take(j + 1).last() == pv[j as int]);
                assert(key@ == pv[j as int].0@);
                assert(op@ == pv[j as int].1@);
                assert forall|k: Seq<char>|
                    table_holds(t@, k, #[trigger] (op_stack(ops@.take(i as int), k) + key_ops(pv.take(j + 1), k))) by {
                    let base = op_stack(ops@.take(i as int), k);
                    let before = base + key_ops(pv.take(j as int), k);
                    assert(table_holds(t0, k, before));
                    if k == key@ {
                        let now = base + key_ops(pv.take(j + 1), k);
                        assert(key_ops(pv.take(j + 1), k) == key_ops(pv.take(j as int), k).push(op@));
                        assert(now =~= before.push(op@));
                        let w_view: Seq<PatchOp> = match lookup(t0, k) {
                            Some(w) => w@,
                            None => Seq::<PatchOp>::empty(),
                        };
                        assert(w_view.map_values(|o: PatchOp| o@) =~= before);
                        assert(lookup(t@, k) matches Some(v) && v@ == w_view.push(op));
                        assert(w_view.push(op).map_values(|o: PatchOp| o@) =~= w_view.map_values(|o: PatchOp| o@).push(op@));
                    } else {
                        assert(key_ops(pv.take(j + 1), k) == key_ops(pv.take(j as int), k));
                        assert(lookup(t@, k) == lookup(t0, k));
                    }
                }
            }
            j = j + 1;
        }
        proof {
            assert(pv.take(pv.len() as int) =~= pv);
            assert(ops@.take(i + 1).drop_last() =~= ops@.take(i as int));
            assert(ops@.take(i + 1).last() == ops@[i as int]);
            assert forall|k: Seq<char>| table_holds(t@, k, #[trigger] op_stack(ops@.take(i + 1), k)) by {
                assert(op_stack(ops@.take(i + 1), k) == op_stack(ops@.take(i as int), k) + key_ops(
                    pv.take(pv.len() as int),
                    k,
                ));
            }
        }
        i = i + 1;
    }
    assert(ops@.take(ops@.len() as int) =~= ops@);
    t
}

/// Every patcher's renames, in patcher order.
fn collect_renames(ops: &Vec<PatcherOps>) -> (r: Vec<KeyRename>)
    ensures
        r@ == all_renames(ops@),
{
    let mut r: Vec<KeyRename> = Vec::new();
    let mut i: usize = 0;
    while i < ops.len()
        invariant
            i <= ops@.len(),
            r@ == all_renames(ops@.take(i as int)),
        decreases ops@.len() - i,
    {
        let rs = &ops[i].ops.renames;
        let ghost r0 = r@;
        let mut j: usize = 0;
        while j < rs.len()
            invariant
                j <= rs@.len(),
                r@ == r0 + rs@.take(j as int),
            decreases rs@.len() - j,
        {
            r.push(KeyRename { from: rs[j].from.clone(), to: rs[j].to.clone() });
            assert(rs@.take(j + 1) =~= rs@.take(j as int).push(rs@[j as int]));
            assert(r@ =~= r0 + rs@.take(j + 1));
            j = j + 1;
        }
        proof {
            assert(rs@.take(rs@.len() as int) =~= rs@);
            assert(ops@.take(i + 1).drop_last() =~= ops@.take(i as int));
            assert(ops@.take(i + 1).last() == ops@[i as int]);
        }
        i = i + 1;
    }
    assert(ops@.take(ops@.len() as int) =~= ops@);
    r
}

// ── The pipeline ────────────────────────────────────────────────────────────

/// Build the override file's bytes: the base lines overlaid with the
/// language pack (if any), renamed, patched with the op stacks of `ops`
/// (in the order given — derive returns them priority-sorted), then the
/// user overrides, encoded as UTF-8 with BOM.
pub fn compose_override(
    base: Vec<String>,
    pack: Option<&Vec<String>>,
    ops: &Vec<PatcherOps>,
    overrides: &StrMap<String>,
) -> (out: Vec<u8>)
    requires
        overrides.wf(),
        base@.len() + (match pack {
            Some(p) => p@.len(),
            None => 0,
        }) + overrides@.len() <= usize::MAX,
    ensures
        out@ == utf8_bom() + encoded_lines(composed_lines(texts(base@), opt_texts(pack), ops@, overrides@)),
{
    let ghost b = texts(base@);
    let mut lines = base;
    match pack {
        Some(p) => {
            apply_language_pack(&mut lines, p.as_slice());
            proof {
                let pk = texts(p@);
                let app = pack_appends(pk, b, pk);
                lemma_pack_appends_len(pk, b, pk);
                assert forall|i: int| 0 <= i < lines@.len() implies texts(lines@)[i] == (b.map_values(
                    |l: Seq<char>| pack_line(l, pk),
                ) + app)[i] by {
                    if i >= b.len() {
                        assert(lines@[b.len() + (i - b.len())]@ == app[i - b.len()]);
                    } else {
                        assert(lines@[i]@ == pack_line(b[i], pk));
                    }
                }
                assert(texts(lines@) =~= b.map_values(|l: Seq<char>| pack_line(l, pk)) + app);
            }
        },
        None => {},
    }
    let ghost overlaid = texts(lines@);
    assert(overlaid == pack_stage(b, opt_texts(pack)));
    let renames = collect_renames(ops);
    apply_renames(&mut lines, renames.as_slice());
    let ghost renamed = texts(lines@);
    assert(renamed =~= overlaid.map_values(|l: Seq<char>| rename_line(l, all_renames(ops@))));
    let table = op_table(ops);
    apply_patches(&mut lines, &table);
    let ghost patched = texts(lines@);
    proof {
        assert forall|i: int| 0 <= i < patched.len() implies patched[i] == stacked_line(renamed[i], ops@) by {
            lemma_stacked_line(renamed[i], table@, ops@);
        }
        assert(patched =~= renamed.map_values(|l: Seq<char>| stacked_line(l, ops@)));
    }
    apply_user_overrides(&mut lines, overrides);
    proof {
        let ov = overrides@;
        let fin = texts(lines@);
        let app = override_appends(ov, patched);
        assert forall|i: int| 0 <= i < fin.len() implies fin[i] == (patched.map_values(
            |l: Seq<char>| override_line(l, ov),
        ) + app)[i] by {
            if i >= patched.len() {
                assert(fin[i] == lines@[i]@);
                assert(lines@[patched.len() + (i - patched.len())]@ == app[i - patched.len()]);
            }
        }
        assert(fin =~= patched.map_values(|l: Seq<char>| override_line(l, ov)) + app);
    }
    encode_utf8_bom(lines.as_slice())
}

} // verus!

verus! {

// ── Laws ────────────────────────────────────────────────────────────────────

/// A key without `,` is its own bare key.
proof fn lemma_bare_key_plain(k: Seq<char>)
    requires
        forall|i: int| 0 <= i < k.len() ==> k[i] != ',',
    ensures
        bare_key(k) == k,
{
    assert(!exists|i: int| crate::text::is_first(k, ',', i));
}

/// An override whose key no line carries is appended as `key=value`.
proof fn lemma_override_appended(ov: Seq<(Seq<char>, String)>, lines: Seq<Seq<char>>, j: int)
    requires
        0 <= j < ov.len(),
        !crate::merge::key_present(lines, ov[j].0),
    ensures
        exists|m: int|
            0 <= m < override_appends(ov, lines).len() && #[trigger] override_appends(ov, lines)[m] == ov[j].0
                + seq!['='] + ov[j].1@,
    decreases ov.len(),
{
    if j < ov.len() - 1 {
        lemma_override_appended(ov.drop_last(), lines, j);
        let prev = override_appends(ov.drop_last(), lines);
        let m = choose|m: int| 0 <= m < prev.len() && #[trigger] prev[m] == ov[j].0 + seq!['='] + ov[j].1@;
        assert(override_appends(ov, lines)[m] == prev[m]);
    } else {
        let prev = override_appends(ov.drop_last(), lines);
        assert(override_appends(ov, lines)[prev.len() as int] == ov[j].0 + seq!['='] + ov[j].1@);
    }
}

/// `line` is a `key=value` line with bare key `k` and value `v`.
pub open spec fn carries(line: Seq<char>, k: Seq<char>, v: Seq<char>) -> bool {
    match kv_split(line) {
        Some((raw, val)) => bare_key(raw) == k && val == v,
        None => false,
    }
}

/// User overrides always win: whatever the base, the pack and the patchers
/// did, every override `key = value` (a key without `=` or `,`) is carried
/// by some line of the composed file whose bare key is `key` and whose
/// value is exactly `value`.
pub proof fn lemma_overrides_win(
    base: Seq<Seq<char>>,
    pack: Option<Seq<Seq<char>>>,
    ops: Seq<PatcherOps>,
    overrides: StrMap<String>,
    j: int,
)
    requires
        overrides.wf(),
        0 <= j < overrides@.len(),
        forall|i: int|
            0 <= i < overrides@[j].0.len() ==> overrides@[j].0[i] != '=' && overrides@[j].0[i] != ',',
    ensures
        exists|i: int|
            0 <= i < composed_lines(base, pack, ops, overrides@).len() && #[trigger] carries(
                composed_lines(base, pack, ops, overrides@)[i],
                overrides@[j].0,
                overrides@[j].1@,
            ),
{
    let ov = overrides@;
    let k = ov[j].0;
    let v = ov[j].1;
    let overlaid = pack_stage(base, pack);
    let renamed = overlaid.map_values(|l: Seq<char>| rename_line(l, all_renames(ops)));
    let patched = renamed.map_values(|l: Seq<char>| stacked_line(l, ops));
    let out = composed_lines(base, pack, ops, ov);
    overrides.lemma_wf_sorted();
    crate::strmap::lemma_lookup_at(ov, j);
    if crate::merge::key_present(patched, k) {
        let i = choose|i: int| 0 <= i < patched.len() && #[trigger] crate::merge::line_key(patched[i]) == Some(k);
        let raw = kv_split(patched[i]).unwrap().0;
        crate::merge::lemma_raw_key_has_no_eq(patched[i]);
        assert(out[i] == override_line(patched[i], ov));
        assert(out[i] == raw + seq!['='] + v@);
        crate::merge::lemma_kv_split_join(raw, v@);
        assert(carries(out[i], k, v@));
    } else {
        lemma_override_appended(ov, patched, j);
        let app = override_appends(ov, patched);
        let m = choose|m: int| 0 <= m < app.len() && #[trigger] app[m] == k + seq!['='] + v@;
        assert(out[patched.len() + m] == app[m]);
        crate::merge::lemma_kv_split_join(k, v@);
        lemma_bare_key_plain(k);
        assert(carries(out[patched.len() + m], k, v@));
    }
}

} // verus!
