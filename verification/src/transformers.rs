//! The two normalization passes and the sort.
//!
//! The merge pass combines relative imports sharing an origin into the
//! first-occurring entry, unioning their identifier sets; the split pass
//! turns each multi-module absolute import into one statement per module;
//! the sort orders the list under the total import order.  Each pass is a
//! pure whole-list rewrite, pinned to a specification-level function.

use vstd::prelude::*;
use vstd::multiset::Multiset;
use vstd::pervasive::unreached;

use crate::import::Import;
use crate::import::ImportV;
use crate::import::ModuleList;
use crate::import::RelativeModule;
use crate::import::RelativeModuleV;
use crate::import::ident_set_insert;
use crate::import::view_imports;
use crate::import::view_tokens;
use crate::order::Ord3;
use crate::order::cmp_import;
use crate::order::cmp_import_exec;
use crate::order::cmp_rel_exec;
use crate::order::lemma_cmp_rel_eq;

verus! {

/// The identifier set `ids` after inserting the first `k` elements of
/// `xs` in order.
pub open spec fn merge_upto(ids: Seq<Seq<u8>>, xs: Seq<Seq<u8>>, k: int) -> Seq<Seq<u8>>
    decreases k,
{
    if k <= 0 {
        ids
    } else {
        ident_set_insert(merge_upto(ids, xs, k - 1), xs[k - 1])
    }
}

/// The identifier set `ids` after inserting every element of `xs`.
pub open spec fn merge_ids(ids: Seq<Seq<u8>>, xs: Seq<Seq<u8>>) -> Seq<Seq<u8>> {
    merge_upto(ids, xs, xs.len() as int)
}

/// Whether `v` is a relative import whose origin is exactly `f`.
pub open spec fn is_rel_of(v: ImportV, f: RelativeModuleV) -> bool {
    v matches ImportV::Relative { from, .. } && from == f
}

/// The first index at or after `k` holding a relative import with origin
/// `f`.
pub open spec fn find_rel_from(acc: Seq<ImportV>, f: RelativeModuleV, k: int) -> Option<int>
    decreases acc.len() - k,
{
    if k < 0 || k >= acc.len() {
        None
    } else if is_rel_of(acc[k], f) {
        Some(k)
    } else {
        find_rel_from(acc, f, k + 1)
    }
}

/// The first index holding a relative import with origin `f`.
pub open spec fn find_rel(acc: Seq<ImportV>, f: RelativeModuleV) -> Option<int> {
    find_rel_from(acc, f, 0)
}

proof fn lemma_find_rel_from(acc: Seq<ImportV>, f: RelativeModuleV, j: int, k: int)
    requires
        0 <= j <= k <= acc.len(),
        forall|m: int| j <= m < k ==> !is_rel_of(acc[m], f),
    ensures
        k == acc.len() ==> find_rel_from(acc, f, j) is None,
        k < acc.len() && is_rel_of(acc[k], f) ==> find_rel_from(acc, f, j) == Some(k),
    decreases k - j,
{
    if j < k {
        lemma_find_rel_from(acc, f, j + 1, k);
    }
}

/// One step of the merge pass: a relative import whose origin already
/// occurs merges its identifiers into the first entry with that origin;
/// everything else is appended unchanged.
pub open spec fn combine_step(acc: Seq<ImportV>, imp: ImportV) -> Seq<ImportV> {
    match imp {
        ImportV::Relative { from, identifiers, comment } => match find_rel(acc, from) {
            Some(k) => match acc[k] {
                ImportV::Relative { from: f0, identifiers: ids0, comment: c0 } => acc.update(
                    k,
                    ImportV::Relative {
                        from: f0,
                        identifiers: merge_ids(ids0, identifiers),
                        comment: c0,
                    },
                ),
                _ => acc,
            },
            None => acc.push(imp),
        },
        _ => acc.push(imp),
    }
}

/// The merge pass applied to the first `k` entries.
pub open spec fn combine_upto(s: Seq<ImportV>, k: int) -> Seq<ImportV>
    decreases k,
{
    if k <= 0 {
        Seq::empty()
    } else {
        combine_step(combine_upto(s, k - 1), s[k - 1])
    }
}

/// The merge pass: relative imports sharing an origin are combined into
/// the first-occurring entry, keeping its comment and dropping the
/// others'.
pub open spec fn spec_combine(s: Seq<ImportV>) -> Seq<ImportV> {
    combine_upto(s, s.len() as int)
}

proof fn lemma_view_imports_remove0(s: Seq<Import>)
    requires
        s.len() > 0,
    ensures
        view_imports(s.remove(0)) == view_imports(s).skip(1),
        s[0]@ == view_imports(s)[0],
{
    assert(view_imports(s.remove(0)) =~= view_imports(s).skip(1));
}

/// Whether `imp` is a relative import with the same origin as `f`.
fn rel_matches(imp: &Import, f: &RelativeModule) -> (r: bool)
    ensures
        r == is_rel_of(imp@, f@),
{
    match imp {
        Import::Relative { from, .. } => {
            let c = cmp_rel_exec(from, f);
            proof {
                lemma_cmp_rel_eq(from@, f@);
            }
            matches!(c, Ord3::Eq)
        },
        _ => false,
    }
}

/// Combines relative imports from the same origin into a single relative
/// statement: the first-occurring entry receives the union of the
/// identifier sets, the others are dropped, and only the first entry's
/// comment survives.
pub fn combine_relative_imports(imports: &mut Vec<Import>)
    ensures
        view_imports(final(imports)@) == spec_combine(view_imports(old(imports)@)),
{
    let ghost input = view_imports(old(imports)@);
    let mut out: Vec<Import> = Vec::new();
    proof {
        assert(view_imports(out@) =~= Seq::<ImportV>::empty());
        assert(view_imports(imports@) =~= input.skip(0));
    }
    loop
        invariant
            imports@.len() <= input.len(),
            view_imports(imports@) == input.skip(input.len() - imports@.len()),
            view_imports(out@) == combine_upto(input, input.len() - imports@.len()),
        ensures
            view_imports(out@) == combine_upto(input, input.len() as int),
        decreases imports@.len(),
    {
        if imports.len() == 0 {
            break ;
        }
        let ghost p = input.len() - imports@.len();
        let ghost outv = view_imports(out@);
        let ghost before = imports@;
        let imp = imports.remove(0);
        proof {
            lemma_view_imports_remove0(before);
            assert(input.skip(p).skip(1) =~= input.skip(p + 1));
            assert(imp@ == input[p]);
            assert(view_imports(imports@) == input.skip(input.len() - imports@.len()));
        }
        match imp {
            Import::Relative { from, identifiers, comment } => {
                let mut j: usize = 0;
                loop
                    invariant
                        0 <= j <= out@.len(),
                        outv == view_imports(out@),
                        forall|m: int| 0 <= m < j ==> !is_rel_of(outv[m], from@),
                    ensures
                        0 <= j <= out@.len(),
                        outv == view_imports(out@),
                        forall|m: int| 0 <= m < j ==> !is_rel_of(outv[m], from@),
                        j < out@.len() ==> is_rel_of(outv[j as int], from@),
                    decreases out@.len() - j,
                {
                    if j >= out.len() {
                        break ;
                    }
                    if rel_matches(&out[j], &from) {
                        proof {
                            assert(out@[j as int]@ == outv[j as int]);
                        }
                        break ;
                    }
                    proof {
                        assert(out@[j as int]@ == outv[j as int]);
                    }
                    j = j + 1;
                }
                if j < out.len() {
                    proof {
                        lemma_find_rel_from(outv, from@, 0, j as int);
                    }
                    let target = out.remove(j);
                    proof {
                        assert(target@ == outv[j as int]);
                    }
                    match target {
                        Import::Relative { from: f0, identifiers: mut ids0, comment: c0 } => {
                            let ghost ids0_start = ids0@;
                            let ghost xs_start = identifiers@;
                            let mut xs = identifiers;
                            loop
                                invariant
                                    xs.items@.len() <= xs_start.len(),
                                    view_tokens(xs.items@) == xs_start.skip(
                                        xs_start.len() - xs.items@.len(),
                                    ),
                                    ids0@ == merge_upto(
                                        ids0_start,
                                        xs_start,
                                        xs_start.len() - xs.items@.len(),
                                    ),
                                ensures
                                    ids0@ == merge_ids(ids0_start, xs_start),
                                decreases xs.items@.len(),
                            {
                                if xs.items.len() == 0 {
                                    break ;
                                }
                                let ghost q = xs_start.len() - xs.items@.len();
                                let ghost items_before = xs.items@;
                                let t = xs.items.remove(0);
                                proof {
                                    assert(view_tokens(items_before.remove(0)) =~= view_tokens(
                                        items_before,
                                    ).skip(1));
                                    assert(xs_start.skip(q).skip(1) =~= xs_start.skip(q + 1));
                                    assert(t@ == view_tokens(items_before)[0]);
                                    assert(t@ == xs_start[q]);
                                }
                                ids0.insert(t);
                            }
                            let merged = Import::Relative {
                                from: f0,
                                identifiers: ids0,
                                comment: c0,
                            };
                            let ghost mergedv = merged@;
                            out.insert(j, merged);
                            proof {
                                assert(view_imports(out@) =~= outv.update(j as int, mergedv));
                                assert(combine_upto(input, p + 1) == combine_step(outv, input[p]));
                                assert(combine_step(outv, input[p]) == outv.update(
                                    j as int,
                                    mergedv,
                                ));
                            }
                        },
                        _ => unreached(),
                    }
                } else {
                    proof {
                        lemma_find_rel_from(outv, from@, 0, out@.len() as int);
                    }
                    let ghost impv = ImportV::Relative {
                        from: from@,
                        identifiers: identifiers@,
                        comment: crate::import::view_opt_token(comment),
                    };
                    out.push(Import::Relative { from, identifiers, comment });
                    proof {
                        assert(view_imports(out@) =~= outv.push(impv));
                        assert(combine_upto(input, p + 1) == combine_step(outv, input[p]));
                    }
                }
            },
            Import::Absolute { modules, comment } => {
                out.push(Import::Absolute { modules, comment });
                proof {
                    assert(view_imports(out@) =~= outv.push(input[p]));
                    assert(combine_upto(input, p + 1) == combine_step(outv, input[p]));
                }
            },
            Import::Wildcard { from, comment } => {
                out.push(Import::Wildcard { from, comment });
                proof {
                    assert(view_imports(out@) =~= outv.push(input[p]));
                    assert(combine_upto(input, p + 1) == combine_step(outv, input[p]));
                }
            },
        }
    }
    *imports = out;
}

/// What stays in place under the split pass: a multi-module absolute
/// import keeps only its first module (and its comment); everything else
/// is unchanged.
pub open spec fn split_first(v: ImportV) -> ImportV {
    match v {
        ImportV::Absolute { modules, comment } => if modules.len() > 1 {
            ImportV::Absolute { modules: seq![modules[0]], comment }
        } else {
            v
        },
        _ => v,
    }
}

/// What an entry appends under the split pass: one single-module,
/// comment-free absolute import for each module after the first.
pub open spec fn split_tail_of(v: ImportV) -> Seq<ImportV> {
    match v {
        ImportV::Absolute { modules, comment } => if modules.len() > 1 {
            modules.skip(1).map_values(
                |m: crate::import::ModuleV| ImportV::Absolute { modules: seq![m], comment: None },
            )
        } else {
            Seq::empty()
        },
        _ => Seq::empty(),
    }
}

/// The appended entries contributed by the first `k` list entries, in
/// order.
pub open spec fn split_tails_upto(s: Seq<ImportV>, k: int) -> Seq<ImportV>
    decreases k,
{
    if k <= 0 {
        Seq::empty()
    } else {
        split_tails_upto(s, k - 1) + split_tail_of(s[k - 1])
    }
}

/// The split pass: each entry keeps at most one module in place, and the
/// remaining modules of each multi-module absolute import are appended at
/// the end as single-module entries.
pub open spec fn spec_split(s: Seq<ImportV>) -> Seq<ImportV> {
    s.map_values(|v: ImportV| split_first(v)) + split_tails_upto(s, s.len() as int)
}

/// Whether `imp` is an absolute import naming more than one module.
fn absolute_multi(imp: &Import) -> (r: bool)
    ensures
        r == (imp@ matches ImportV::Absolute { modules, .. } && modules.len() > 1),
{
    match imp {
        Import::Absolute { modules, .. } => modules.items.len() > 1,
        _ => false,
    }
}

/// Separates each absolute import into single-module absolute imports:
/// the first module stays in place with the entry's comment, the rest are
/// appended at the end without comments.
#[verifier::loop_isolation(false)]
pub fn separate_absolute_imports(imports: &mut Vec<Import>)
    ensures
        view_imports(final(imports)@) == spec_split(view_imports(old(imports)@)),
{
    let ghost input = view_imports(old(imports)@);
    let ghost firsts = input.map_values(|v: ImportV| split_first(v));
    let mut to_sep: Vec<Import> = Vec::new();
    let mut idx: usize = 0;
    proof {
        assert(firsts.len() == input.len());
        assert(forall|q: int| 0 <= q < input.len() ==> firsts[q] == split_first(#[trigger] input[q]));
        assert(view_imports(to_sep@) =~= Seq::<ImportV>::empty());
        assert(view_imports(imports@) =~= firsts.take(0) + input.skip(0));
    }
    while idx < imports.len()
        invariant
            0 <= idx as int <= input.len(),
            imports@.len() == input.len(),
            view_imports(imports@) == firsts.take(idx as int) + input.skip(idx as int),
            view_imports(to_sep@) == split_tails_upto(input, idx as int),
        decreases input.len() - idx,
    {
        let ghost impv = input[idx as int];
        proof {
            assert(firsts.len() == input.len());
            assert(firsts[idx as int] == split_first(input[idx as int]));
            assert((firsts.take(idx as int) + input.skip(idx as int))[idx as int] == input.skip(
                idx as int,
            )[0]);
            assert(view_imports(imports@)[idx as int] == impv);
            assert(imports@[idx as int]@ == impv);
        }
        if absolute_multi(&imports[idx]) {
            let ghost listv = view_imports(imports@);
            let imp = imports.remove(idx);
            proof {
                assert(imp@ == impv);
            }
            match imp {
                Import::Absolute { modules, comment } => {
                    let ghost modsv = modules@;
                    let mut items = modules.items;
                    let mut rest = items.split_off(1);
                    let kept = Import::Absolute { modules: ModuleList { items }, comment };
                    let ghost keptv = kept@;
                    proof {
                        assert(keptv matches ImportV::Absolute { modules: m, .. } && m =~= seq![
                            modsv[0],
                        ]);
                        assert(keptv == split_first(impv));
                    }
                    imports.insert(idx, kept);
                    proof {
                        assert(view_imports(imports@) =~= listv.update(idx as int, keptv));
                        assert(listv.update(idx as int, keptv) =~= firsts.take(idx + 1) + input.skip(
                            idx + 1,
                        ));
                    }
                    let ghost tail = split_tail_of(impv);
                    let ghost sep0 = view_imports(to_sep@);
                    while rest.len() > 0
                        invariant
                            rest@.len() <= tail.len(),
                            tail.len() == modsv.len() - 1,
                            forall|q: int|
                                0 <= q < rest@.len() ==> rest@[q]@ == modsv[
                                    tail.len() - rest@.len() + 1 + q
                                ],
                            view_imports(to_sep@) == sep0 + tail.take(tail.len() - rest@.len()),
                        decreases rest@.len(),
                    {
                        let ghost q = tail.len() - rest@.len();
                        let ghost rest_before = rest@;
                        let ghost sep_before = view_imports(to_sep@);
                        let m = rest.remove(0);
                        let single = Import::Absolute {
                            modules: ModuleList { items: vec![m] },
                            comment: None,
                        };
                        let ghost singlev = single@;
                        proof {
                            assert(rest_before[0]@ == modsv[q + 1]);
                            assert(modsv.skip(1)[q] == modsv[q + 1]);
                            assert(singlev matches ImportV::Absolute { modules: mm, comment: cc }
                                && mm =~= seq![modsv[q + 1]] && cc is None);
                            assert(tail[q] == (ImportV::Absolute {
                                modules: seq![modsv.skip(1)[q]],
                                comment: None,
                            }));
                            assert(tail[q] =~~= singlev);
                        }
                        to_sep.push(single);
                        proof {
                            assert(view_imports(to_sep@) =~= sep_before.push(singlev));
                            assert(sep_before.push(singlev) =~= sep0 + tail.take(q + 1));
                            assert(forall|q2: int|
                                0 <= q2 < rest@.len() ==> rest@[q2] == rest_before[q2 + 1]);
                        }
                    }
                    proof {
                        assert(sep0 + tail.take(tail.len() as int) =~= sep0 + tail);
                        assert(split_tails_upto(input, idx + 1) == split_tails_upto(input, idx as int)
                            + tail);
                    }
                },
                _ => unreached(),
            }
        } else {
            proof {
                assert(split_first(impv) == impv);
                assert(firsts[idx as int] == split_first(input[idx as int]));
                assert(firsts.take(idx + 1) + input.skip(idx + 1) =~= firsts.take(idx as int)
                    + input.skip(idx as int));
                assert(split_tail_of(impv) =~= Seq::<ImportV>::empty());
                assert(split_tails_upto(input, idx + 1) =~= split_tails_upto(input, idx as int));
            }
        }
        idx = idx + 1;
    }
    proof {
        assert(firsts.len() == input.len());
        assert(firsts.take(input.len() as int) + input.skip(input.len() as int) =~= firsts);
    }
    let ghost tails = split_tails_upto(input, input.len() as int);
    proof {
        assert(view_imports(to_sep@) =~= tails.skip(tails.len() - to_sep@.len()));
        assert(view_imports(imports@) =~= firsts + tails.take(tails.len() - to_sep@.len()));
    }
    while to_sep.len() > 0
        invariant
            to_sep@.len() <= tails.len(),
            view_imports(to_sep@) == tails.skip(tails.len() - to_sep@.len()),
            view_imports(imports@) == firsts + tails.take(tails.len() - to_sep@.len()),
        decreases to_sep@.len(),
    {
        let ghost k = tails.len() - to_sep@.len();
        let ghost sep_before = to_sep@;
        let ghost listv = view_imports(imports@);
        let imp = to_sep.remove(0);
        proof {
            lemma_view_imports_remove0(sep_before);
            assert(tails.skip(k).skip(1) =~= tails.skip(k + 1));
            assert(imp@ == tails[k]);
        }
        imports.push(imp);
        proof {
            assert(view_imports(imports@) =~= listv.push(tails[k]));
            assert(listv.push(tails[k]) =~= firsts + tails.take(k + 1));
        }
    }
    proof {
        assert(firsts + tails.take(tails.len() as int) =~= firsts + tails);
    }
}

/// Inserts an import into a sorted sequence, after every entry that does
/// not sort strictly after it.
pub open spec fn insert_sorted(s: Seq<ImportV>, x: ImportV) -> Seq<ImportV>
    decreases s.len(),
{
    if s.len() == 0 {
        seq![x]
    } else if cmp_import(s[0], x) == Ord3::Gt {
        seq![x] + s
    } else {
        seq![s[0]] + insert_sorted(s.skip(1), x)
    }
}

/// The first `k` entries of `s`, insertion-sorted.
pub open spec fn sort_upto(s: Seq<ImportV>, k: int) -> Seq<ImportV>
    decreases k,
{
    if k <= 0 {
        Seq::empty()
    } else {
        insert_sorted(sort_upto(s, k - 1), s[k - 1])
    }
}

/// The list sorted under the total import order, stably.
pub open spec fn spec_sort(s: Seq<ImportV>) -> Seq<ImportV> {
    sort_upto(s, s.len() as int)
}

/// Whether a sequence of imports is sorted under the total import order.
pub open spec fn sorted_imports(s: Seq<ImportV>) -> bool {
    forall|i: int, j: int| 0 <= i < j < s.len() ==> cmp_import(s[i], s[j]) != Ord3::Gt
}

proof fn lemma_insert_sorted_at(s: Seq<ImportV>, x: ImportV, k: int)
    requires
        0 <= k <= s.len(),
        forall|j: int| 0 <= j < k ==> cmp_import(s[j], x) != Ord3::Gt,
        k < s.len() ==> cmp_import(s[k], x) == Ord3::Gt,
    ensures
        insert_sorted(s, x) == s.take(k) + seq![x] + s.skip(k),
    decreases k,
{
    if k == 0 {
        if s.len() == 0 {
            assert(insert_sorted(s, x) =~= s.take(0) + seq![x] + s.skip(0));
        } else {
            assert(seq![x] + s =~= s.take(0) + seq![x] + s.skip(0));
        }
    } else {
        lemma_insert_sorted_at(s.skip(1), x, k - 1);
        assert(seq![s[0]] + (s.skip(1).take(k - 1) + seq![x] + s.skip(1).skip(k - 1)) =~= s.take(k)
            + seq![x] + s.skip(k));
    }
}

/// Sorts the list under the total import order with a stable insertion
/// sort.
pub fn sort_imports(imports: &mut Vec<Import>)
    ensures
        view_imports(final(imports)@) == spec_sort(view_imports(old(imports)@)),
{
    let ghost input = view_imports(old(imports)@);
    let mut out: Vec<Import> = Vec::new();
    proof {
        assert(view_imports(out@) =~= Seq::<ImportV>::empty());
        assert(view_imports(imports@) =~= input.skip(0));
    }
    loop
        invariant
            imports@.len() <= input.len(),
            view_imports(imports@) == input.skip(input.len() - imports@.len()),
            view_imports(out@) == sort_upto(input, input.len() - imports@.len()),
        ensures
            view_imports(out@) == sort_upto(input, input.len() as int),
        decreases imports@.len(),
    {
        if imports.len() == 0 {
            break ;
        }
        let ghost p = input.len() - imports@.len();
        let ghost outv = view_imports(out@);
        let ghost before = imports@;
        let imp = imports.remove(0);
        proof {
            lemma_view_imports_remove0(before);
            assert(input.skip(p).skip(1) =~= input.skip(p + 1));
            assert(imp@ == input[p]);
        }
        let mut j: usize = 0;
        loop
            invariant
                0 <= j <= out@.len(),
                outv == view_imports(out@),
                forall|m: int| 0 <= m < j ==> cmp_import(outv[m], imp@) != Ord3::Gt,
            ensures
                0 <= j <= out@.len(),
                outv == view_imports(out@),
                forall|m: int| 0 <= m < j ==> cmp_import(outv[m], imp@) != Ord3::Gt,
                j < out@.len() ==> cmp_import(outv[j as int], imp@) == Ord3::Gt,
            decreases out@.len() - j,
        {
            if j >= out.len() {
                break ;
            }
            let c = cmp_import_exec(&out[j], &imp);
            proof {
                assert(out@[j as int]@ == outv[j as int]);
            }
            if matches!(c, Ord3::Gt) {
                break ;
            }
            j = j + 1;
        }
        let ghost impv = imp@;
        out.insert(j, imp);
        proof {
            lemma_insert_sorted_at(outv, impv, j as int);
            assert(view_imports(out@) =~= outv.take(j as int) + seq![impv] + outv.skip(j as int));
        }
    }
    *imports = out;
}

proof fn lemma_insert_sorted_props(s: Seq<ImportV>, x: ImportV)
    ensures
        sorted_imports(s) ==> sorted_imports(insert_sorted(s, x)),
        insert_sorted(s, x).to_multiset() == s.to_multiset().insert(x),
        insert_sorted(s, x).len() == s.len() + 1,
        forall|y: ImportV| #[trigger] insert_sorted(s, x).contains(y) <==> (s.contains(y) || y
            == x),
    decreases s.len(),
{
    broadcast use vstd::seq_lib::group_to_multiset_ensures;

    if s.len() == 0 {
        assert(insert_sorted(s, x) =~= Seq::<ImportV>::empty().push(x));
        assert(insert_sorted(s, x).to_multiset() =~= s.to_multiset().insert(x));
        assert forall|y: ImportV| #[trigger]
            insert_sorted(s, x).contains(y) <==> (s.contains(y) || y == x) by {
            if insert_sorted(s, x).contains(y) {
                assert(insert_sorted(s, x)[0] == y);
            }
            if y == x {
                assert(insert_sorted(s, x)[0] == y);
            }
        }
    } else if cmp_import(s[0], x) == Ord3::Gt {
        let t = seq![x] + s;
        assert(t =~= s.insert(0, x));
        assert(t.to_multiset() =~= s.to_multiset().insert(x)) by {
            assert(s.insert(0, x).to_multiset() =~= s.to_multiset().insert(x));
        }
        assert forall|y: ImportV| #[trigger] t.contains(y) <==> (s.contains(y) || y == x) by {
            if t.contains(y) {
                let i = choose|i: int| 0 <= i < t.len() && t[i] == y;
                if i > 0 {
                    assert(s[i - 1] == y);
                }
            }
            if y == x {
                assert(t[0] == y);
            }
            if s.contains(y) {
                let i = choose|i: int| 0 <= i < s.len() && s[i] == y;
                assert(t[i + 1] == y);
            }
        }
        if sorted_imports(s) {
            assert forall|i: int, j: int| 0 <= i < j < t.len() implies cmp_import(t[i], t[j])
                != Ord3::Gt by {
                if i == 0 {
                    crate::order::lemma_cmp_import_flip(s[0], x);
                    if j > 1 {
                        assert(cmp_import(s[0], s[j - 1]) != Ord3::Gt);
                        if cmp_import(s[0], s[j - 1]) == Ord3::Lt {
                            crate::order::lemma_cmp_import_trans(x, s[0], s[j - 1]);
                        } else {
                            crate::order::lemma_cmp_import_eq_congruent(s[0], s[j - 1], x);
                            crate::order::lemma_cmp_import_flip(s[j - 1], x);
                        }
                    }
                }
            }
        }
    } else {
        lemma_insert_sorted_props(s.skip(1), x);
        let t0 = insert_sorted(s.skip(1), x);
        let t = seq![s[0]] + t0;
        assert(seq![s[0]] + s.skip(1) =~= s);
        assert(t.to_multiset() =~= s.to_multiset().insert(x)) by {
            vstd::seq_lib::lemma_multiset_commutative(seq![s[0]], t0);
            vstd::seq_lib::lemma_multiset_commutative(seq![s[0]], s.skip(1));
            assert(t0.to_multiset() == s.skip(1).to_multiset().insert(x));
        }
        assert forall|y: ImportV| #[trigger] t.contains(y) <==> (s.contains(y) || y == x) by {
            if t.contains(y) {
                let i = choose|i: int| 0 <= i < t.len() && t[i] == y;
                if i == 0 {
                    assert(s[0] == y);
                } else {
                    assert(t0[i - 1] == y);
                    assert(t0.contains(y));
                }
            }
            if y == x {
                assert(t0.contains(y));
                let i = choose|i: int| 0 <= i < t0.len() && t0[i] == y;
                assert(t[i + 1] == y);
            }
            if s.contains(y) {
                let i = choose|i: int| 0 <= i < s.len() && s[i] == y;
                if i == 0 {
                    assert(t[0] == y);
                } else {
                    assert(s.skip(1)[i - 1] == y);
                    assert(s.skip(1).contains(y));
                    assert(t0.contains(y));
                    let m = choose|m: int| 0 <= m < t0.len() && t0[m] == y;
                    assert(t[m + 1] == y);
                }
            }
        }
        if sorted_imports(s) {
            assert(sorted_imports(s.skip(1))) by {
                assert(forall|i: int, j: int|
                    0 <= i < j < s.skip(1).len() ==> cmp_import(
                        #[trigger] s.skip(1)[i],
                        #[trigger] s.skip(1)[j],
                    ) == cmp_import(s[i + 1], s[j + 1]));
            }
            assert forall|i: int, j: int| 0 <= i < j < t.len() implies cmp_import(t[i], t[j])
                != Ord3::Gt by {
                if i == 0 {
                    assert(t0.contains(t0[j - 1]));
                    if t0[j - 1] == x {
                        assert(cmp_import(s[0], x) != Ord3::Gt);
                    } else {
                        assert(s.skip(1).contains(t0[j - 1]));
                        let m = choose|m: int| 0 <= m < s.skip(1).len() && s.skip(1)[m] == t0[j
                            - 1];
                        assert(s[m + 1] == t0[j - 1]);
                        assert(cmp_import(s[0], s[m + 1]) != Ord3::Gt);
                    }
                }
            }
        }
    }
}

/// Sorting yields a sorted rearrangement: the result is ordered under the
/// total import order and holds exactly the same entries, multiplicity
/// included.
pub proof fn lemma_sort_sorted(s: Seq<ImportV>)
    ensures
        sorted_imports(spec_sort(s)),
        spec_sort(s).to_multiset() == s.to_multiset(),
    decreases s.len(),
{
    broadcast use vstd::seq_lib::group_to_multiset_ensures;

    lemma_sort_upto_props(s, s.len() as int);
    assert(s.take(s.len() as int) =~= s);
}

proof fn lemma_sort_upto_props(s: Seq<ImportV>, k: int)
    requires
        0 <= k <= s.len(),
    ensures
        sorted_imports(sort_upto(s, k)),
        sort_upto(s, k).to_multiset() == s.take(k).to_multiset(),
    decreases k,
{
    broadcast use vstd::seq_lib::group_to_multiset_ensures;

    if k > 0 {
        lemma_sort_upto_props(s, k - 1);
        lemma_insert_sorted_props(sort_upto(s, k - 1), s[k - 1]);
        assert(s.take(k) =~= s.take(k - 1).push(s[k - 1]));
    }
}

/// Sorting a list already sorted under the total import order leaves it
/// exactly as it is: the sort is idempotent.
pub proof fn lemma_sort_of_sorted(s: Seq<ImportV>)
    requires
        sorted_imports(s),
    ensures
        spec_sort(s) == s,
{
    lemma_sort_upto_identity(s, s.len() as int);
    assert(s.take(s.len() as int) =~= s);
}

proof fn lemma_sort_upto_identity(s: Seq<ImportV>, k: int)
    requires
        sorted_imports(s),
        0 <= k <= s.len(),
    ensures
        sort_upto(s, k) == s.take(k),
    decreases k,
{
    if k > 0 {
        lemma_sort_upto_identity(s, k - 1);
        assert forall|j: int| 0 <= j < s.take(k - 1).len() implies cmp_import(
            #[trigger] s.take(k - 1)[j],
            s[k - 1],
        ) != Ord3::Gt by {
            assert(s.take(k - 1)[j] == s[j]);
        }
        lemma_insert_sorted_at(s.take(k - 1), s[k - 1], k - 1);
        assert(s.take(k - 1).take(k - 1) + seq![s[k - 1]] + s.take(k - 1).skip(k - 1) =~= s.take(
            k,
        ));
    }
}

proof fn lemma_find_rel_some(acc: Seq<ImportV>, f: RelativeModuleV, k: int)
    requires
        0 <= k,
    ensures
        find_rel_from(acc, f, k) matches Some(j) ==> k <= j < acc.len() && is_rel_of(acc[j], f),
    decreases acc.len() - k,
{
    if k < acc.len() && !is_rel_of(acc[k], f) {
        lemma_find_rel_some(acc, f, k + 1);
    }
}

/// Merging leaves a list whose relative origins are already pairwise
/// distinct exactly as it is: together with the split and sort facts, the
/// normalization passes are idempotent.
pub proof fn lemma_combine_of_distinct(s: Seq<ImportV>)
    requires
        forall|i: int, j: int, f: RelativeModuleV|
            0 <= i < j < s.len() && #[trigger] is_rel_of(s[i], f) ==> !#[trigger] is_rel_of(
                s[j],
                f,
            ),
    ensures
        spec_combine(s) == s,
{
    lemma_combine_upto_distinct(s, s.len() as int);
    assert(s.take(s.len() as int) =~= s);
}

proof fn lemma_combine_upto_distinct(s: Seq<ImportV>, k: int)
    requires
        0 <= k <= s.len(),
        forall|i: int, j: int, f: RelativeModuleV|
            0 <= i < j < s.len() && #[trigger] is_rel_of(s[i], f) ==> !#[trigger] is_rel_of(
                s[j],
                f,
            ),
    ensures
        combine_upto(s, k) == s.take(k),
    decreases k,
{
    if k > 0 {
        lemma_combine_upto_distinct(s, k - 1);
        match s[k - 1] {
            ImportV::Relative { from, .. } => {
                lemma_find_rel_some(s.take(k - 1), from, 0);
                match find_rel(s.take(k - 1), from) {
                    Some(j) => {
                        assert(is_rel_of(s.take(k - 1)[j], from));
                        assert(is_rel_of(s[j], from));
                        assert(is_rel_of(s[k - 1], from));
                        assert(false);
                    },
                    None => {},
                }
                assert(s.take(k - 1).push(s[k - 1]) =~= s.take(k));
            },
            _ => {
                assert(s.take(k - 1).push(s[k - 1]) =~= s.take(k));
            },
        }
    }
}

/// Splitting a list whose absolute imports each name at most one module
/// leaves it exactly as it is.
pub proof fn lemma_split_of_single(s: Seq<ImportV>)
    requires
        forall|i: int| 0 <= i < s.len() ==> (#[trigger] s[i] matches ImportV::Absolute {
            modules,
            ..
        } ==> modules.len() <= 1),
    ensures
        spec_split(s) == s,
{
    lemma_split_tails_empty(s, s.len() as int);
    assert(s.map_values(|v: ImportV| split_first(v)) =~= s);
    assert(spec_split(s) =~= s);
}

proof fn lemma_split_tails_empty(s: Seq<ImportV>, k: int)
    requires
        0 <= k <= s.len(),
        forall|i: int| 0 <= i < s.len() ==> (#[trigger] s[i] matches ImportV::Absolute {
            modules,
            ..
        } ==> modules.len() <= 1),
    ensures
        split_tails_upto(s, k) == Seq::<ImportV>::empty(),
    decreases k,
{
    if k > 0 {
        lemma_split_tails_empty(s, k - 1);
        assert(split_tail_of(s[k - 1]) =~= Seq::<ImportV>::empty());
        assert(split_tails_upto(s, k - 1) + split_tail_of(s[k - 1])
            =~= Seq::<ImportV>::empty());
    }
}

/// After the split pass every absolute import names exactly one module,
/// provided every absolute import named at least one to begin with.
pub proof fn lemma_split_all_single(s: Seq<ImportV>)
    requires
        forall|i: int| 0 <= i < s.len() ==> (#[trigger] s[i] matches ImportV::Absolute {
            modules,
            ..
        } ==> modules.len() >= 1),
    ensures
        forall|j: int|
            0 <= j < spec_split(s).len() ==> (#[trigger] spec_split(s)[j] matches
                ImportV::Absolute { modules, .. } ==> modules.len() == 1),
{
    let firsts = s.map_values(|v: ImportV| split_first(v));
    lemma_split_tails_single(s, s.len() as int);
    assert forall|j: int|
        0 <= j < spec_split(s).len() implies (#[trigger] spec_split(s)[j] matches
        ImportV::Absolute { modules, .. } ==> modules.len() == 1) by {
        if j < firsts.len() {
            assert(spec_split(s)[j] == firsts[j]);
            assert(firsts[j] == split_first(s[j]));
        } else {
            assert(spec_split(s)[j] == split_tails_upto(s, s.len() as int)[j - firsts.len()]);
        }
    }
}

proof fn lemma_split_tails_single(s: Seq<ImportV>, k: int)
    requires
        0 <= k <= s.len(),
    ensures
        forall|q: int|
            0 <= q < split_tails_upto(s, k).len() ==> (#[trigger] split_tails_upto(s, k)[q]
                matches ImportV::Absolute { modules, .. } && modules.len() == 1),
    decreases k,
{
    if k > 0 {
        lemma_split_tails_single(s, k - 1);
        let pre = split_tails_upto(s, k - 1);
        let tail = split_tail_of(s[k - 1]);
        assert forall|q: int|
            0 <= q < split_tails_upto(s, k).len() implies (#[trigger] split_tails_upto(s, k)[q]
            matches ImportV::Absolute { modules, .. } && modules.len() == 1) by {
            if q < pre.len() {
                assert(split_tails_upto(s, k)[q] == pre[q]);
            } else {
                assert(split_tails_upto(s, k)[q] == tail[q - pre.len()]);
                match s[k - 1] {
                    ImportV::Absolute { modules, .. } => {
                        if modules.len() > 1 {
                            assert(tail[q - pre.len()] == (ImportV::Absolute {
                                modules: seq![modules.skip(1)[q - pre.len()]],
                                comment: None,
                            }));
                        }
                    },
                    _ => {},
                }
            }
        }
    }
}

/// The identifier set of a relative import, and the empty set for
/// everything else.
pub open spec fn ids_of(v: ImportV) -> Seq<Seq<u8>> {
    match v {
        ImportV::Relative { identifiers, .. } => identifiers,
        _ => Seq::empty(),
    }
}

/// Whether `v` is a relative import with origin `f` naming `x`.
pub open spec fn rel_has(v: ImportV, f: RelativeModuleV, x: Seq<u8>) -> bool {
    is_rel_of(v, f) && ids_of(v).contains(x)
}

/// Whether some entry is a relative import with origin `f`.
pub open spec fn some_rel_of(s: Seq<ImportV>, f: RelativeModuleV) -> bool {
    exists|i: int| 0 <= i < s.len() && is_rel_of(#[trigger] s[i], f)
}

/// Whether some relative import with origin `f` names `x`.
pub open spec fn some_rel_has(s: Seq<ImportV>, f: RelativeModuleV, x: Seq<u8>) -> bool {
    exists|i: int| 0 <= i < s.len() && rel_has(#[trigger] s[i], f, x)
}

/// Whether every relative import's identifier set is strictly sorted, as
/// the parser and the set type guarantee.
pub open spec fn rel_wf(s: Seq<ImportV>) -> bool {
    forall|i: int| 0 <= i < s.len() ==> crate::import::strictly_sorted_ids(ids_of(#[trigger] s[i]))
}

proof fn lemma_merge_ids_props(ids: Seq<Seq<u8>>, xs: Seq<Seq<u8>>, k: int)
    requires
        0 <= k <= xs.len(),
    ensures
        forall|y: Seq<u8>| #[trigger]
            merge_upto(ids, xs, k).contains(y) <==> (ids.contains(y) || xs.take(k).contains(y)),
        crate::import::strictly_sorted_ids(ids) ==> crate::import::strictly_sorted_ids(
            merge_upto(ids, xs, k),
        ),
    decreases k,
{
    if k > 0 {
        lemma_merge_ids_props(ids, xs, k - 1);
        crate::import::lemma_ident_set_insert_props(merge_upto(ids, xs, k - 1), xs[k - 1]);
        assert forall|y: Seq<u8>| #[trigger]
            merge_upto(ids, xs, k).contains(y) <==> (ids.contains(y) || xs.take(k).contains(
            y,
        )) by {
            assert(xs.take(k) =~= xs.take(k - 1).push(xs[k - 1]));
            if xs.take(k).contains(y) {
                let m = choose|m: int| 0 <= m < k && #[trigger] xs.take(k)[m] == y;
                if m < k - 1 {
                    assert(xs.take(k - 1)[m] == y);
                } else {
                    assert(y == xs[k - 1]);
                }
            }
            if xs.take(k - 1).contains(y) {
                let m = choose|m: int| 0 <= m < k - 1 && #[trigger] xs.take(k - 1)[m] == y;
                assert(xs.take(k)[m] == y);
            }
            if y == xs[k - 1] {
                assert(xs.take(k)[k - 1] == y);
            }
        }
    } else {
        assert(xs.take(0) =~= Seq::<Seq<u8>>::empty());
    }
}

proof fn lemma_find_rel_none(acc: Seq<ImportV>, f: RelativeModuleV, k: int)
    requires
        0 <= k,
    ensures
        find_rel_from(acc, f, k) is None ==> forall|j: int|
            k <= j < acc.len() ==> !is_rel_of(#[trigger] acc[j], f),
    decreases acc.len() - k,
{
    if k < acc.len() && !is_rel_of(acc[k], f) {
        lemma_find_rel_none(acc, f, k + 1);
    }
}

proof fn lemma_combine_upto_correct(s: Seq<ImportV>, f: RelativeModuleV, k: int)
    requires
        0 <= k <= s.len(),
        rel_wf(s),
    ensures
        ({
            let acc = combine_upto(s, k);
            &&& forall|j1: int, j2: int|
                0 <= j1 < j2 < acc.len() && is_rel_of(#[trigger] acc[j1], f) ==> !is_rel_of(
                    #[trigger] acc[j2],
                    f,
                )
            &&& some_rel_of(acc, f) <==> some_rel_of(s.take(k), f)
            &&& forall|j: int|
                0 <= j < acc.len() ==> crate::import::strictly_sorted_ids(ids_of(
                    #[trigger] acc[j],
                ))
            &&& forall|j: int, x: Seq<u8>|
                0 <= j < acc.len() && is_rel_of(#[trigger] acc[j], f) ==> (#[trigger] ids_of(
                    acc[j],
                ).contains(x) <==> some_rel_has(s.take(k), f, x))
        }),
    decreases k,
{
    if k == 0 {
        assert(s.take(0) =~= Seq::<ImportV>::empty());
    } else {
        lemma_combine_upto_correct(s, f, k - 1);
        let acc0 = combine_upto(s, k - 1);
        let imp = s[k - 1];
        let acc = combine_upto(s, k);
        assert(crate::import::strictly_sorted_ids(ids_of(imp)));
        assert(s.take(k) =~= s.take(k - 1).push(imp));
        assert(s.take(k - 1) =~= s.take(k).take(k - 1));
        assert forall|i: int| 0 <= i < k - 1 implies s.take(k - 1)[i] == s.take(k)[i] by {}
        match imp {
            ImportV::Relative { from: g, identifiers: ids, comment: c } => {
                lemma_find_rel_some(acc0, g, 0);
                lemma_find_rel_none(acc0, g, 0);
                match find_rel(acc0, g) {
                    None => {
                        assert(acc == acc0.push(imp));
                        assert(acc[acc0.len() as int] == imp);
                        assert forall|j: int| 0 <= j < acc0.len() implies acc[j] == acc0[j] by {}
                        if g == f {
                            assert(!some_rel_of(acc0, f));
                            assert(!some_rel_of(s.take(k - 1), f));
                            assert(is_rel_of(imp, f));
                            assert(some_rel_of(acc, f));
                            assert(some_rel_of(s.take(k), f)) by {
                                assert(is_rel_of(s.take(k)[k - 1], f));
                            }
                            assert forall|j: int, x: Seq<u8>|
                                0 <= j < acc.len() && is_rel_of(#[trigger] acc[j], f) implies (
                            #[trigger] ids_of(acc[j]).contains(x) <==> some_rel_has(
                                s.take(k),
                                f,
                                x,
                            )) by {
                                assert(j == acc0.len());
                                if ids_of(acc[j]).contains(x) {
                                    assert(rel_has(s.take(k)[k - 1], f, x));
                                }
                                if some_rel_has(s.take(k), f, x) {
                                    let m = choose|m: int|
                                        0 <= m < k && rel_has(#[trigger] s.take(k)[m], f, x);
                                    if m < k - 1 {
                                        assert(rel_has(s.take(k - 1)[m], f, x));
                                        assert(some_rel_has(s.take(k - 1), f, x));
                                        assert(false);
                                    } else {
                                        assert(ids_of(acc[j]).contains(x));
                                    }
                                }
                            }
                        } else {
                            assert(!is_rel_of(imp, f));
                            assert(some_rel_of(acc, f) <==> some_rel_of(s.take(k), f)) by {
                                if some_rel_of(acc, f) {
                                    let m = choose|m: int|
                                        0 <= m < acc.len() && is_rel_of(#[trigger] acc[m], f);
                                    assert(is_rel_of(acc0[m], f));
                                    let m2 = choose|m2: int|
                                        0 <= m2 < k - 1 && is_rel_of(
                                            #[trigger] s.take(k - 1)[m2],
                                            f,
                                        );
                                    assert(is_rel_of(s.take(k)[m2], f));
                                }
                                if some_rel_of(s.take(k), f) {
                                    let m = choose|m: int|
                                        0 <= m < k && is_rel_of(#[trigger] s.take(k)[m], f);
                                    assert(m < k - 1);
                                    assert(is_rel_of(s.take(k - 1)[m], f));
                                    let m2 = choose|m2: int|
                                        0 <= m2 < acc0.len() && is_rel_of(#[trigger] acc0[m2], f);
                                    assert(is_rel_of(acc[m2], f));
                                }
                            }
                            assert forall|j: int, x: Seq<u8>|
                                0 <= j < acc.len() && is_rel_of(#[trigger] acc[j], f) implies (
                            #[trigger] ids_of(acc[j]).contains(x) <==> some_rel_has(
                                s.take(k),
                                f,
                                x,
                            )) by {
                                assert(j < acc0.len());
                                assert(is_rel_of(acc0[j], f));
                                assert(some_rel_has(s.take(k - 1), f, x) <==> some_rel_has(
                                    s.take(k),
                                    f,
                                    x,
                                )) by {
                                    if some_rel_has(s.take(k - 1), f, x) {
                                        let m = choose|m: int|
                                            0 <= m < k - 1 && rel_has(
                                                #[trigger] s.take(k - 1)[m],
                                                f,
                                                x,
                                            );
                                        assert(rel_has(s.take(k)[m], f, x));
                                    }
                                    if some_rel_has(s.take(k), f, x) {
                                        let m = choose|m: int|
                                            0 <= m < k && rel_has(#[trigger] s.take(k)[m], f, x);
                                        assert(m < k - 1);
                                        assert(rel_has(s.take(k - 1)[m], f, x));
                                    }
                                }
                            }
                        }
                    },
                    Some(j0) => {
                        assert(is_rel_of(acc0[j0], g));
                        match acc0[j0] {
                            ImportV::Relative { from: f0, identifiers: ids0, comment: c0 } => {
                                let merged = ImportV::Relative {
                                    from: f0,
                                    identifiers: merge_ids(ids0, ids),
                                    comment: c0,
                                };
                                assert(acc == acc0.update(j0, merged));
                                assert(f0 == g);
                                assert(crate::import::strictly_sorted_ids(ids_of(acc0[j0])));
                                assert(crate::import::strictly_sorted_ids(ids0));
                                lemma_merge_ids_props(ids0, ids, ids.len() as int);
                                assert(ids.take(ids.len() as int) =~= ids);
                                assert(is_rel_of(merged, g));
                                assert forall|m: int| 0 <= m < acc.len() && m != j0 implies acc[m]
                                    == acc0[m] by {}
                                if g == f {
                                    assert(some_rel_of(acc, f)) by {
                                        assert(is_rel_of(acc[j0], f));
                                    }
                                    assert(some_rel_of(s.take(k), f)) by {
                                        assert(is_rel_of(s.take(k)[k - 1], f));
                                    }
                                    assert forall|m: int|
                                        0 <= m < acc0.len() && m != j0 implies !is_rel_of(
                                        #[trigger] acc0[m],
                                        f,
                                    ) by {
                                        if is_rel_of(acc0[m], f) {
                                            if m < j0 {
                                                assert(is_rel_of(acc0[m], f) && is_rel_of(
                                                    acc0[j0],
                                                    f,
                                                ));
                                            } else {
                                                assert(is_rel_of(acc0[j0], f) && is_rel_of(
                                                    acc0[m],
                                                    f,
                                                ));
                                            }
                                        }
                                    }
                                    assert forall|j: int, x: Seq<u8>|
                                        0 <= j < acc.len() && is_rel_of(#[trigger] acc[j], f)
                                        implies (#[trigger] ids_of(acc[j]).contains(x)
                                        <==> some_rel_has(s.take(k), f, x)) by {
                                        assert(j == j0);
                                        assert(ids_of(acc[j]) == merge_ids(ids0, ids));
                                        assert(merge_ids(ids0, ids).contains(x) <==> (
                                        ids0.contains(x) || ids.contains(x)));
                                        if ids0.contains(x) {
                                            assert(some_rel_has(s.take(k - 1), f, x));
                                            let m = choose|m: int|
                                                0 <= m < k - 1 && rel_has(
                                                    #[trigger] s.take(k - 1)[m],
                                                    f,
                                                    x,
                                                );
                                            assert(rel_has(s.take(k)[m], f, x));
                                        }
                                        if ids.contains(x) {
                                            assert(rel_has(s.take(k)[k - 1], f, x));
                                        }
                                        if some_rel_has(s.take(k), f, x) {
                                            let m = choose|m: int|
                                                0 <= m < k && rel_has(#[trigger] s.take(k)[m], f, x);
                                            if m < k - 1 {
                                                assert(rel_has(s.take(k - 1)[m], f, x));
                                                assert(some_rel_has(s.take(k - 1), f, x));
                                                assert(ids0.contains(x));
                                            } else {
                                                assert(ids.contains(x));
                                            }
                                        }
                                    }
                                } else {
                                    assert(!is_rel_of(acc0[j0], f));
                                    assert(!is_rel_of(merged, f));
                                    assert(some_rel_of(acc, f) <==> some_rel_of(s.take(k), f)) by {
                                        if some_rel_of(acc, f) {
                                            let m = choose|m: int|
                                                0 <= m < acc.len() && is_rel_of(
                                                    #[trigger] acc[m],
                                                    f,
                                                );
                                            assert(m != j0);
                                            assert(is_rel_of(acc0[m], f));
                                            let m2 = choose|m2: int|
                                                0 <= m2 < k - 1 && is_rel_of(
                                                    #[trigger] s.take(k - 1)[m2],
                                                    f,
                                                );
                                            assert(is_rel_of(s.take(k)[m2], f));
                                        }
                                        if some_rel_of(s.take(k), f) {
                                            let m = choose|m: int|
                                                0 <= m < k && is_rel_of(#[trigger] s.take(k)[m], f);
                                            assert(m < k - 1);
                                            assert(is_rel_of(s.take(k - 1)[m], f));
                                            let m2 = choose|m2: int|
                                                0 <= m2 < acc0.len() && is_rel_of(
                                                    #[trigger] acc0[m2],
                                                    f,
                                                );
                                            assert(m2 != j0);
                                            assert(is_rel_of(acc[m2], f));
                                        }
                                    }
                                    assert forall|j: int, x: Seq<u8>|
                                        0 <= j < acc.len() && is_rel_of(#[trigger] acc[j], f)
                                        implies (#[trigger] ids_of(acc[j]).contains(x)
                                        <==> some_rel_has(s.take(k), f, x)) by {
                                        assert(j != j0);
                                        assert(is_rel_of(acc0[j], f));
                                        assert(ids_of(acc[j]) == ids_of(acc0[j]));
                                        assert(some_rel_has(s.take(k - 1), f, x) <==> some_rel_has(
                                            s.take(k),
                                            f,
                                            x,
                                        )) by {
                                            if some_rel_has(s.take(k - 1), f, x) {
                                                let m = choose|m: int|
                                                    0 <= m < k - 1 && rel_has(
                                                        #[trigger] s.take(k - 1)[m],
                                                        f,
                                                        x,
                                                    );
                                                assert(rel_has(s.take(k)[m], f, x));
                                            }
                                            if some_rel_has(s.take(k), f, x) {
                                                let m = choose|m: int|
                                                    0 <= m < k && rel_has(
                                                        #[trigger] s.take(k)[m],
                                                        f,
                                                        x,
                                                    );
                                                assert(m < k - 1);
                                                assert(rel_has(s.take(k - 1)[m], f, x));
                                            }
                                        }
                                    }
                                }
                            },
                            _ => {
                                assert(false);
                            },
                        }
                    },
                }
            },
            _ => {
                assert(acc == acc0.push(imp));
                assert(!is_rel_of(imp, f));
                assert forall|j: int| 0 <= j < acc0.len() implies acc[j] == acc0[j] by {}
                assert(some_rel_of(acc, f) <==> some_rel_of(s.take(k), f)) by {
                    if some_rel_of(acc, f) {
                        let m = choose|m: int| 0 <= m < acc.len() && is_rel_of(#[trigger] acc[m], f);
                        assert(m < acc0.len());
                        assert(is_rel_of(acc0[m], f));
                        let m2 = choose|m2: int|
                            0 <= m2 < k - 1 && is_rel_of(#[trigger] s.take(k - 1)[m2], f);
                        assert(is_rel_of(s.take(k)[m2], f));
                    }
                    if some_rel_of(s.take(k), f) {
                        let m = choose|m: int| 0 <= m < k && is_rel_of(#[trigger] s.take(k)[m], f);
                        assert(m < k - 1);
                        assert(is_rel_of(s.take(k - 1)[m], f));
                        let m2 = choose|m2: int|
                            0 <= m2 < acc0.len() && is_rel_of(#[trigger] acc0[m2], f);
                        assert(is_rel_of(acc[m2], f));
                    }
                }
                assert forall|j: int, x: Seq<u8>|
                    0 <= j < acc.len() && is_rel_of(#[trigger] acc[j], f) implies (
                #[trigger] ids_of(acc[j]).contains(x) <==> some_rel_has(s.take(k), f, x)) by {
                    assert(j < acc0.len());
                    assert(is_rel_of(acc0[j], f));
                    assert(some_rel_has(s.take(k - 1), f, x) <==> some_rel_has(
                        s.take(k),
                        f,
                        x,
                    )) by {
                        if some_rel_has(s.take(k - 1), f, x) {
                            let m = choose|m: int|
                                0 <= m < k - 1 && rel_has(#[trigger] s.take(k - 1)[m], f, x);
                            assert(rel_has(s.take(k)[m], f, x));
                        }
                        if some_rel_has(s.take(k), f, x) {
                            let m = choose|m: int|
                                0 <= m < k && rel_has(#[trigger] s.take(k)[m], f, x);
                            assert(m < k - 1);
                            assert(rel_has(s.take(k - 1)[m], f, x));
                        }
                    }
                }
            },
        }
    }
}

/// Merging is correct origin by origin: an origin occurs among the merged
/// relatives exactly when it occurred among the input's relatives, no two
/// merged entries share an origin, and the surviving entry's identifier
/// set is strictly sorted — so free of duplicates — and holds exactly the
/// union of the identifier sets of the input entries with that origin,
/// whatever order they arrived in.
pub proof fn lemma_merge_correctness(s: Seq<ImportV>, f: RelativeModuleV)
    requires
        rel_wf(s),
    ensures
        some_rel_of(spec_combine(s), f) <==> some_rel_of(s, f),
        forall|j1: int, j2: int|
            0 <= j1 < j2 < spec_combine(s).len() && is_rel_of(#[trigger] spec_combine(s)[j1], f)
                ==> !is_rel_of(#[trigger] spec_combine(s)[j2], f),
        forall|j: int|
            0 <= j < spec_combine(s).len() ==> crate::import::strictly_sorted_ids(ids_of(
                #[trigger] spec_combine(s)[j],
            )),
        forall|j: int, x: Seq<u8>|
            0 <= j < spec_combine(s).len() && is_rel_of(#[trigger] spec_combine(s)[j], f) ==> (
            #[trigger] ids_of(spec_combine(s)[j]).contains(x) <==> some_rel_has(s, f, x)),
{
    lemma_combine_upto_correct(s, f, s.len() as int);
    assert(s.take(s.len() as int) =~= s);
}

/// Where an entry's appended modules land in the split result.
pub open spec fn split_base(s: Seq<ImportV>, i: int) -> int {
    s.len() + split_tails_upto(s, i).len() as int
}

proof fn lemma_tails_segment(s: Seq<ImportV>, i: int, k: int)
    requires
        0 <= i < k <= s.len(),
    ensures
        split_tails_upto(s, k).len() >= split_tails_upto(s, i).len() + split_tail_of(
            s[i],
        ).len(),
        forall|q: int|
            0 <= q < split_tail_of(s[i]).len() ==> #[trigger] split_tails_upto(s, k)[
                split_tails_upto(s, i).len() + q
            ] == split_tail_of(s[i])[q],
    decreases k,
{
    if k == i + 1 {
    } else {
        lemma_tails_segment(s, i, k - 1);
    }
}

/// The split pass is correct entry by entry: a multi-module absolute
/// import keeps exactly its first module (and its comment) in place, and
/// each of its remaining modules reappears as a single-module,
/// comment-free absolute import in a fixed run at the end of the list, so
/// the new module sets union back to the original set.
pub proof fn lemma_split_correctness(s: Seq<ImportV>, i: int)
    requires
        0 <= i < s.len(),
        s[i] matches ImportV::Absolute { .. },
    ensures
        s[i] matches ImportV::Absolute { modules, comment } ==> {
            &&& modules.len() > 1 ==> spec_split(s)[i] == (ImportV::Absolute {
                modules: seq![modules[0]],
                comment,
            })
            &&& modules.len() <= 1 ==> spec_split(s)[i] == s[i]
            &&& modules.len() > 1 ==> split_base(s, i) + modules.len() - 1 <= spec_split(
                s,
            ).len()
            &&& forall|q: int|
                1 <= q < modules.len() ==> #[trigger] spec_split(s)[split_base(s, i) + q - 1]
                    == (ImportV::Absolute { modules: seq![modules[q]], comment: None })
        },
{
    let firsts = s.map_values(|v: ImportV| split_first(v));
    assert(firsts.len() == s.len());
    assert(firsts[i] == split_first(s[i]));
    assert(spec_split(s)[i] == firsts[i]);
    match s[i] {
        ImportV::Absolute { modules, comment } => {
            if modules.len() > 1 {
                lemma_tails_segment(s, i, s.len() as int);
                let tail = split_tail_of(s[i]);
                assert(tail.len() == modules.len() - 1);
                assert forall|q: int| 1 <= q < modules.len() implies #[trigger] spec_split(s)[
                    split_base(s, i) + q - 1
                ] == (ImportV::Absolute { modules: seq![modules[q]], comment: None }) by {
                    let qq = q - 1;
                    assert(split_tails_upto(s, s.len() as int)[
                        split_tails_upto(s, i).len() + qq
                    ] == tail[qq]);
                    assert(tail[q - 1] == (ImportV::Absolute {
                        modules: seq![modules.skip(1)[q - 1]],
                        comment: None,
                    }));
                    assert(modules.skip(1)[q - 1] == modules[q]);
                    assert(spec_split(s)[split_base(s, i) + q - 1] == split_tails_upto(
                        s,
                        s.len() as int,
                    )[split_tails_upto(s, i).len() + q - 1]);
                }
            }
        },
        _ => {},
    }
}

/// Whether every absolute import names at least one module, as the parser
/// guarantees.
pub open spec fn abs_nonempty(s: Seq<ImportV>) -> bool {
    forall|i: int|
        0 <= i < s.len() ==> (#[trigger] s[i] matches ImportV::Absolute { modules, .. }
            ==> modules.len() >= 1)
}

/// Whether no two entries are relative imports of one origin.
pub open spec fn distinct_rel_origins(s: Seq<ImportV>) -> bool {
    forall|i: int, j: int, f: RelativeModuleV|
        0 <= i < j < s.len() && #[trigger] is_rel_of(s[i], f) ==> !#[trigger] is_rel_of(s[j], f)
}

proof fn lemma_combine_preserves_abs(s: Seq<ImportV>, k: int)
    requires
        0 <= k <= s.len(),
        abs_nonempty(s),
    ensures
        abs_nonempty(combine_upto(s, k)),
    decreases k,
{
    if k > 0 {
        lemma_combine_preserves_abs(s, k - 1);
        let acc0 = combine_upto(s, k - 1);
        let acc = combine_upto(s, k);
        assert forall|i: int|
            0 <= i < acc.len() implies (#[trigger] acc[i] matches ImportV::Absolute {
            modules,
            ..
        } ==> modules.len() >= 1) by {
            match s[k - 1] {
                ImportV::Relative { from, .. } => {
                    lemma_find_rel_some(acc0, from, 0);
                    match find_rel(acc0, from) {
                        Some(j0) => {
                            if i != j0 {
                                assert(acc[i] == acc0[i]);
                            }
                        },
                        None => {
                            if i < acc0.len() {
                                assert(acc[i] == acc0[i]);
                            }
                        },
                    }
                },
                _ => {
                    if i < acc0.len() {
                        assert(acc[i] == acc0[i]);
                    }
                },
            }
        }
    }
}

proof fn lemma_unique_value_count(p: Seq<ImportV>, v: ImportV)
    requires
        forall|i: int, j: int| 0 <= i < j < p.len() ==> !(#[trigger] p[i] == v && #[trigger] p[j]
            == v),
    ensures
        p.to_multiset().count(v) <= 1,
    decreases p.len(),
{
    broadcast use vstd::seq_lib::group_to_multiset_ensures;

    if p.len() > 0 {
        assert(p =~= p.drop_last().push(p.last()));
        lemma_unique_value_count(p.drop_last(), v);
        if p.last() == v {
            if p.drop_last().contains(v) {
                let i = choose|i: int| 0 <= i < p.drop_last().len() && p.drop_last()[i] == v;
                assert(p[i] == v && p[p.len() - 1] == v);
            }
            assert(p.drop_last().to_multiset().count(v) == 0);
        }
    } else {
        assert(p.to_multiset() =~= Multiset::<ImportV>::empty());
    }
}

proof fn lemma_two_indices_count(t: Seq<ImportV>, i: int, j: int)
    requires
        0 <= i < j < t.len(),
        t[i] == t[j],
    ensures
        t.to_multiset().count(t[i]) >= 2,
{
    broadcast use vstd::seq_lib::group_to_multiset_ensures;

    let t2 = t.remove(i);
    assert(t2[j - 1] == t[j]);
    assert(t2.contains(t[i]));
    assert(t2.to_multiset() == t.to_multiset().remove(t[i]));
    assert(t2.to_multiset().count(t[i]) >= 1);
}

/// The normalization passes are idempotent: once a list has been merged,
/// split, and sorted, running any of the three passes on it again leaves
/// it exactly as it is.  The tests exercise the remaining step of the
/// round trip, rendering and reparsing.
pub proof fn lemma_normalize_idempotent(s: Seq<ImportV>)
    requires
        rel_wf(s),
        abs_nonempty(s),
    ensures
        ({
            let t = spec_sort(spec_split(spec_combine(s)));
            &&& spec_combine(t) == t
            &&& spec_split(t) == t
            &&& spec_sort(t) == t
        }),
{
    broadcast use vstd::seq_lib::group_to_multiset_ensures;

    let c = spec_combine(s);
    let p = spec_split(c);
    let t = spec_sort(p);
    let firsts = c.map_values(|v: ImportV| split_first(v));
    assert(firsts.len() == c.len());
    // the merged list has pairwise distinct relative origins
    assert forall|i: int, j: int, f: RelativeModuleV|
        0 <= i < j < c.len() && #[trigger] is_rel_of(c[i], f) implies !#[trigger] is_rel_of(
        c[j],
        f,
    ) by {
        lemma_merge_correctness(s, f);
    }
    // splitting moves no relative import and adds only absolute ones
    lemma_split_tails_single(c, c.len() as int);
    assert forall|j: int, f: RelativeModuleV|
        0 <= j < p.len() && #[trigger] is_rel_of(p[j], f) implies j < c.len() && p[j] == c[j]
        && is_rel_of(c[j], f) by {
        if j < c.len() {
            assert(p[j] == firsts[j]);
            assert(firsts[j] == split_first(c[j]));
            match c[j] {
                ImportV::Relative { .. } => {},
                _ => {
                    assert(!is_rel_of(p[j], f));
                },
            }
        } else {
            assert(p[j] == split_tails_upto(c, c.len() as int)[j - c.len()]);
        }
    }
    assert(distinct_rel_origins(p));
    // sorting permutes: entries of the sorted list are entries of `p`
    lemma_sort_sorted(p);
    assert(t.to_multiset() == p.to_multiset());
    // the sorted list keeps the origins pairwise distinct
    assert forall|i: int, j: int, f: RelativeModuleV|
        0 <= i < j < t.len() && #[trigger] is_rel_of(t[i], f) implies !#[trigger] is_rel_of(
        t[j],
        f,
    ) by {
        if is_rel_of(t[j], f) {
            if t[i] == t[j] {
                lemma_two_indices_count(t, i, j);
                assert forall|i2: int, j2: int|
                    0 <= i2 < j2 < p.len() implies !(#[trigger] p[i2] == t[i] && #[trigger] p[j2]
                    == t[i]) by {
                    if p[i2] == t[i] && p[j2] == t[i] {
                        assert(is_rel_of(p[i2], f) && is_rel_of(p[j2], f));
                    }
                }
                lemma_unique_value_count(p, t[i]);
            } else {
                assert(t.contains(t[i]) && t.contains(t[j]));
                assert(t.to_multiset().count(t[i]) > 0 && t.to_multiset().count(t[j]) > 0);
                assert(p.to_multiset().count(t[i]) > 0 && p.to_multiset().count(t[j]) > 0);
                assert(p.contains(t[i]) && p.contains(t[j]));
                let i2 = choose|i2: int| 0 <= i2 < p.len() && p[i2] == t[i];
                let j2 = choose|j2: int| 0 <= j2 < p.len() && p[j2] == t[j];
                assert(is_rel_of(p[i2], f) && is_rel_of(p[j2], f));
                if i2 < j2 {
                    assert(!is_rel_of(p[j2], f));
                } else {
                    assert(!is_rel_of(p[i2], f));
                }
            }
        }
    }
    lemma_combine_of_distinct(t);
    // every absolute import in the sorted list names exactly one module
    lemma_combine_preserves_abs(s, s.len() as int);
    lemma_split_all_single(c);
    assert forall|j: int|
        0 <= j < t.len() implies (#[trigger] t[j] matches ImportV::Absolute { modules, .. }
        ==> modules.len() <= 1) by {
        match t[j] {
            ImportV::Absolute { modules, .. } => {
                assert(t.contains(t[j]));
                assert(t.to_multiset().count(t[j]) > 0);
                assert(p.to_multiset().count(t[j]) > 0);
                assert(p.contains(t[j]));
                let m = choose|m: int| 0 <= m < p.len() && p[m] == t[j];
                assert(p[m] matches ImportV::Absolute { modules: m2, .. } ==> m2.len() == 1);
            },
            _ => {},
        }
    }
    lemma_split_of_single(t);
    lemma_sort_of_sorted(t);
}

} // verus!
