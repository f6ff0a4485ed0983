//! The built-in patcher registry.

pub mod component_grades;
pub mod illegal_goods;
pub mod weapons;
pub mod missions;
pub mod mission_titles;

use vstd::prelude::*;

use crate::Patcher;
use crate::ops::PatchOp;
use crate::strmap::{StrMap, lookup_text};
use crate::text::lex_lt;

verus! {

/// `op` replaces a value with exactly `v`.
pub open spec fn replaces_with(op: PatchOp, v: Seq<char>) -> bool {
    match op {
        PatchOp::Replace(s) => s@ == v,
        _ => false,
    }
}

/// `patches` is the key-ordered list of `Replace` ops that sets each key of
/// `m` to its value, one per key.
pub open spec fn replace_patches_of(patches: Seq<(String, PatchOp)>, m: Map<Seq<char>, Seq<char>>) -> bool {
    &&& forall|i: int, j: int| 0 <= i < j < patches.len() ==> lex_lt(patches[i].0@, patches[j].0@)
    &&& forall|i: int|
        0 <= i < patches.len() ==> m.dom().contains(#[trigger] patches[i].0@) && replaces_with(
            patches[i].1,
            m[patches[i].0@],
        )
    &&& forall|k: Seq<char>| m.dom().contains(k) ==> exists|i: int| 0 <= i < patches.len() && #[trigger] patches[i].0@ == k
}

/// The key-ordered `Replace` ops that set each key of `m` to its text.
pub fn replace_patches(m: &StrMap<String>) -> (r: Vec<(String, PatchOp)>)
    requires
        m.wf(),
    ensures
        forall|mm: Map<Seq<char>, Seq<char>>|
            (forall|k: Seq<char>| #[trigger] lookup_text(m@, k) == mm.get(k)) ==> replace_patches_of(r@, mm),
{
    let mut out: Vec<(String, PatchOp)> = Vec::new();
    let mut i: usize = 0;
    while i < m.len()
        invariant
            m.wf(),
            i <= m@.len(),
            out@.len() == i,
            forall|j: int| 0 <= j < i ==> (#[trigger] out@[j]).0@ == m@[j].0 && replaces_with(out@[j].1, m@[j].1@),
        decreases m@.len() - i,
    {
        out.push((m.key_at(i).to_owned(), PatchOp::Replace(m.value_at(i).clone())));
        i = i + 1;
    }
    proof {
        m.lemma_wf_sorted();
        assert forall|mm: Map<Seq<char>, Seq<char>>|
            (forall|k: Seq<char>| #[trigger] lookup_text(m@, k) == mm.get(k)) implies replace_patches_of(out@, mm) by {
            assert forall|a: int, b: int| 0 <= a < b < out@.len() implies lex_lt(out@[a].0@, out@[b].0@) by {
                assert(out@[a].0@ == m@[a].0);
                assert(out@[b].0@ == m@[b].0);
            }
            assert forall|a: int| 0 <= a < out@.len() implies mm.dom().contains(#[trigger] out@[a].0@) && replaces_with(
                out@[a].1,
                mm[out@[a].0@],
            ) by {
                crate::strmap::lemma_lookup_at(m@, a);
                assert(lookup_text(m@, m@[a].0) == mm.get(m@[a].0));
            }
            assert forall|k: Seq<char>| mm.dom().contains(k) implies exists|a: int| 0 <= a < out@.len() && #[trigger] out@[a].0@ == k by {
                assert(mm.get(k) is Some);
                assert(lookup_text(m@, k) is Some);
                let a = choose|a: int| 0 <= a < m@.len() && m@[a].0 == k;
                assert(out@[a].0@ == k);
            }
        }
    }
    out
}

/// Every built-in patcher, in registry order: component grades, illegal
/// goods, weapons, label fixes.
pub fn builtin_patchers() -> (r: Vec<Box<dyn Patcher>>)
    ensures
        r@.len() == 4,
{
    let a: Box<dyn Patcher> = Box::new(component_grades::ComponentGrades);
    let b: Box<dyn Patcher> = Box::new(illegal_goods::IllegalGoods);
    let c: Box<dyn Patcher> = Box::new(weapons::WeaponEnhancer);
    let d: Box<dyn Patcher> = Box::new(crate::toml_patcher::label_fixes());
    vec![a, b, c, d]
}

} // verus!

