//! The total order on imports and on its parts, built up in layers:
//! byte strings, dotted paths, modules, relative origins, module sets,
//! and whole import statements.  Tokens compare by their text alone.
//!
//! The order on imports is not the declaration order of the variants:
//! any relative import of the `__future__` module sorts ahead of
//! everything else; then absolute imports, then the remaining relative
//! imports, then wildcard imports.  Unnamed origins with more dots sort
//! ahead of those with fewer.

use vstd::prelude::*;

use crate::import::Import;
use crate::import::ImportV;
use crate::import::Module;
use crate::import::ModuleList;
use crate::import::ModuleV;
use crate::import::RelativeModule;
use crate::import::RelativeModuleV;
use crate::import::Token;
use crate::import::is_future;
use crate::import::view_tokens;

verus! {

/// Outcome of a three-way comparison.
#[derive(PartialEq, Eq, Structural, Clone, Copy, Debug)]
pub enum Ord3 {
    Lt,
    Eq,
    Gt,
}

/// The opposite outcome: what comparing the same operands swapped yields.
pub open spec fn flip(o: Ord3) -> Ord3 {
    match o {
        Ord3::Lt => Ord3::Gt,
        Ord3::Eq => Ord3::Eq,
        Ord3::Gt => Ord3::Lt,
    }
}

/// Lexicographic comparison of `a` and `b`, both already equal before
/// position `i`.
pub open spec fn cmp_bytes_from(a: Seq<u8>, b: Seq<u8>, i: int) -> Ord3
    decreases a.len() - i,
{
    if i >= a.len() && i >= b.len() {
        Ord3::Eq
    } else if i >= a.len() {
        Ord3::Lt
    } else if i >= b.len() {
        Ord3::Gt
    } else if a[i] < b[i] {
        Ord3::Lt
    } else if b[i] < a[i] {
        Ord3::Gt
    } else {
        cmp_bytes_from(a, b, i + 1)
    }
}

/// Lexicographic order on byte strings.
pub open spec fn cmp_bytes(a: Seq<u8>, b: Seq<u8>) -> Ord3 {
    cmp_bytes_from(a, b, 0)
}

pub proof fn lemma_cmp_bytes_from_flip(a: Seq<u8>, b: Seq<u8>, i: int)
    ensures
        cmp_bytes_from(b, a, i) == flip(cmp_bytes_from(a, b, i)),
    decreases a.len() - i,
{
    if i < a.len() && i < b.len() && a[i] == b[i] {
        lemma_cmp_bytes_from_flip(a, b, i + 1);
    }
}

pub proof fn lemma_cmp_bytes_from_eq(a: Seq<u8>, b: Seq<u8>, i: int)
    requires
        0 <= i <= a.len(),
        0 <= i <= b.len(),
    ensures
        cmp_bytes_from(a, b, i) == Ord3::Eq <==> (a.len() == b.len() && forall|j: int|
            i <= j < a.len() ==> a[j] == b[j]),
    decreases a.len() - i,
{
    if i < a.len() && i < b.len() && a[i] == b[i] {
        lemma_cmp_bytes_from_eq(a, b, i + 1);
    }
}

/// At position zero, comparing equal means the byte strings are equal.
pub proof fn lemma_cmp_bytes_eq(a: Seq<u8>, b: Seq<u8>)
    ensures
        cmp_bytes(a, b) == Ord3::Eq <==> a == b,
{
    lemma_cmp_bytes_from_eq(a, b, 0);
    if cmp_bytes(a, b) == Ord3::Eq {
        assert(a =~= b);
    }
}

pub proof fn lemma_cmp_bytes_from_trans(a: Seq<u8>, b: Seq<u8>, c: Seq<u8>, i: int)
    requires
        cmp_bytes_from(a, b, i) == Ord3::Lt,
        cmp_bytes_from(b, c, i) == Ord3::Lt,
    ensures
        cmp_bytes_from(a, c, i) == Ord3::Lt,
    decreases a.len() - i,
{
    if i < a.len() && i < b.len() && i < c.len() && a[i] == b[i] && b[i] == c[i] {
        lemma_cmp_bytes_from_trans(a, b, c, i + 1);
    }
}

/// Lexicographic comparison of two sequences of byte strings, both
/// already equal before position `i`.
pub open spec fn cmp_texts_from(a: Seq<Seq<u8>>, b: Seq<Seq<u8>>, i: int) -> Ord3
    decreases a.len() - i,
{
    if i >= a.len() && i >= b.len() {
        Ord3::Eq
    } else if i >= a.len() {
        Ord3::Lt
    } else if i >= b.len() {
        Ord3::Gt
    } else {
        match cmp_bytes(a[i], b[i]) {
            Ord3::Eq => cmp_texts_from(a, b, i + 1),
            o => o,
        }
    }
}

/// Lexicographic order on sequences of byte strings: dotted paths compare
/// segment by segment.
pub open spec fn cmp_texts(a: Seq<Seq<u8>>, b: Seq<Seq<u8>>) -> Ord3 {
    cmp_texts_from(a, b, 0)
}

pub proof fn lemma_cmp_texts_from_flip(a: Seq<Seq<u8>>, b: Seq<Seq<u8>>, i: int)
    ensures
        cmp_texts_from(b, a, i) == flip(cmp_texts_from(a, b, i)),
    decreases a.len() - i,
{
    if i < a.len() && i < b.len() {
        lemma_cmp_bytes_from_flip(a[i], b[i], 0);
        if cmp_bytes(a[i], b[i]) == Ord3::Eq {
            lemma_cmp_texts_from_flip(a, b, i + 1);
        }
    }
}

pub proof fn lemma_cmp_texts_from_eq(a: Seq<Seq<u8>>, b: Seq<Seq<u8>>, i: int)
    requires
        0 <= i <= a.len(),
        0 <= i <= b.len(),
    ensures
        cmp_texts_from(a, b, i) == Ord3::Eq <==> (a.len() == b.len() && forall|j: int|
            i <= j < a.len() ==> a[j] == b[j]),
    decreases a.len() - i,
{
    if i < a.len() && i < b.len() {
        lemma_cmp_bytes_eq(a[i], b[i]);
        if cmp_bytes(a[i], b[i]) == Ord3::Eq {
            lemma_cmp_texts_from_eq(a, b, i + 1);
        }
    }
}

/// At position zero, comparing equal means the sequences are equal.
pub proof fn lemma_cmp_texts_eq(a: Seq<Seq<u8>>, b: Seq<Seq<u8>>)
    ensures
        cmp_texts(a, b) == Ord3::Eq <==> a == b,
{
    lemma_cmp_texts_from_eq(a, b, 0);
    if cmp_texts(a, b) == Ord3::Eq {
        assert(a =~= b);
    }
}

pub proof fn lemma_cmp_texts_from_trans(a: Seq<Seq<u8>>, b: Seq<Seq<u8>>, c: Seq<Seq<u8>>, i: int)
    requires
        cmp_texts_from(a, b, i) == Ord3::Lt,
        cmp_texts_from(b, c, i) == Ord3::Lt,
    ensures
        cmp_texts_from(a, c, i) == Ord3::Lt,
    decreases a.len() - i,
{
    if i < a.len() && i < b.len() && i < c.len() {
        lemma_cmp_bytes_eq(a[i], b[i]);
        lemma_cmp_bytes_eq(b[i], c[i]);
        lemma_cmp_bytes_eq(a[i], c[i]);
        if cmp_bytes(a[i], b[i]) == Ord3::Eq && cmp_bytes(b[i], c[i]) == Ord3::Eq {
            lemma_cmp_texts_from_trans(a, b, c, i + 1);
        } else if cmp_bytes(a[i], b[i]) == Ord3::Lt && cmp_bytes(b[i], c[i]) == Ord3::Lt {
            lemma_cmp_bytes_from_trans(a[i], b[i], c[i], 0);
        }
    }
}

/// Order on optional aliases: no alias sorts before any alias, and two
/// aliases compare by text.
pub open spec fn cmp_alias(a: Option<Seq<u8>>, b: Option<Seq<u8>>) -> Ord3 {
    match (a, b) {
        (Option::None, Option::None) => Ord3::Eq,
        (Option::None, Option::Some(_)) => Ord3::Lt,
        (Option::Some(_), Option::None) => Ord3::Gt,
        (Option::Some(x), Option::Some(y)) => cmp_bytes(x, y),
    }
}

/// Order on modules: path first, then alias.
pub open spec fn cmp_module(a: ModuleV, b: ModuleV) -> Ord3 {
    match cmp_texts(a.path, b.path) {
        Ord3::Eq => cmp_alias(a.alias, b.alias),
        o => o,
    }
}

pub proof fn lemma_cmp_module_flip(a: ModuleV, b: ModuleV)
    ensures
        cmp_module(b, a) == flip(cmp_module(a, b)),
{
    lemma_cmp_texts_from_flip(a.path, b.path, 0);
    match (a.alias, b.alias) {
        (Option::Some(x), Option::Some(y)) => lemma_cmp_bytes_from_flip(x, y, 0),
        _ => (),
    }
}

/// Comparing equal means the modules are equal.
pub proof fn lemma_cmp_module_eq(a: ModuleV, b: ModuleV)
    ensures
        cmp_module(a, b) == Ord3::Eq <==> a == b,
{
    lemma_cmp_texts_eq(a.path, b.path);
    match (a.alias, b.alias) {
        (Option::Some(x), Option::Some(y)) => lemma_cmp_bytes_eq(x, y),
        _ => (),
    }
    if cmp_module(a, b) == Ord3::Eq {
        assert(a =~= b);
    }
}

pub proof fn lemma_cmp_module_trans(a: ModuleV, b: ModuleV, c: ModuleV)
    requires
        cmp_module(a, b) == Ord3::Lt,
        cmp_module(b, c) == Ord3::Lt,
    ensures
        cmp_module(a, c) == Ord3::Lt,
{
    lemma_cmp_texts_eq(a.path, b.path);
    lemma_cmp_texts_eq(b.path, c.path);
    lemma_cmp_texts_eq(a.path, c.path);
    if cmp_texts(a.path, b.path) == Ord3::Eq && cmp_texts(b.path, c.path) == Ord3::Eq {
        match (a.alias, b.alias, c.alias) {
            (Option::Some(x), Option::Some(y), Option::Some(z)) => {
                lemma_cmp_bytes_eq(x, y);
                lemma_cmp_bytes_eq(y, z);
                lemma_cmp_bytes_eq(x, z);
                if cmp_bytes(x, y) == Ord3::Lt && cmp_bytes(y, z) == Ord3::Lt {
                    lemma_cmp_bytes_from_trans(x, y, z, 0);
                }
            },
            _ => (),
        }
    } else if cmp_texts(a.path, b.path) == Ord3::Lt && cmp_texts(b.path, c.path) == Ord3::Lt {
        lemma_cmp_texts_from_trans(a.path, b.path, c.path, 0);
    }
}

/// Order on relative origins: every named origin sorts before every
/// unnamed one; named origins compare by level then path; unnamed origins
/// compare by level reversed, so more dots sort first.
pub open spec fn cmp_rel(a: RelativeModuleV, b: RelativeModuleV) -> Ord3 {
    match (a, b) {
        (
            RelativeModuleV::Named { level: l1, path: p1 },
            RelativeModuleV::Named { level: l2, path: p2 },
        ) => if l1 < l2 {
            Ord3::Lt
        } else if l2 < l1 {
            Ord3::Gt
        } else {
            cmp_texts(p1, p2)
        },
        (RelativeModuleV::Named { .. }, RelativeModuleV::Unnamed { .. }) => Ord3::Lt,
        (RelativeModuleV::Unnamed { .. }, RelativeModuleV::Named { .. }) => Ord3::Gt,
        (
            RelativeModuleV::Unnamed { level: l1 },
            RelativeModuleV::Unnamed { level: l2 },
        ) => if l1 < l2 {
            Ord3::Gt
        } else if l2 < l1 {
            Ord3::Lt
        } else {
            Ord3::Eq
        },
    }
}

pub proof fn lemma_cmp_rel_flip(a: RelativeModuleV, b: RelativeModuleV)
    ensures
        cmp_rel(b, a) == flip(cmp_rel(a, b)),
{
    match (a, b) {
        (
            RelativeModuleV::Named { level: l1, path: p1 },
            RelativeModuleV::Named { level: l2, path: p2 },
        ) => lemma_cmp_texts_from_flip(p1, p2, 0),
        _ => (),
    }
}

/// Comparing equal means the origins are equal.
pub proof fn lemma_cmp_rel_eq(a: RelativeModuleV, b: RelativeModuleV)
    ensures
        cmp_rel(a, b) == Ord3::Eq <==> a == b,
{
    match (a, b) {
        (
            RelativeModuleV::Named { level: l1, path: p1 },
            RelativeModuleV::Named { level: l2, path: p2 },
        ) => {
            lemma_cmp_texts_eq(p1, p2);
            if cmp_rel(a, b) == Ord3::Eq {
                assert(a =~= b);
            }
        },
        _ => (),
    }
}

pub proof fn lemma_cmp_rel_trans(a: RelativeModuleV, b: RelativeModuleV, c: RelativeModuleV)
    requires
        cmp_rel(a, b) == Ord3::Lt,
        cmp_rel(b, c) == Ord3::Lt,
    ensures
        cmp_rel(a, c) == Ord3::Lt,
{
    match (a, b, c) {
        (
            RelativeModuleV::Named { level: l1, path: p1 },
            RelativeModuleV::Named { level: l2, path: p2 },
            RelativeModuleV::Named { level: l3, path: p3 },
        ) => {
            if l1 == l2 && l2 == l3 {
                lemma_cmp_texts_eq(p1, p2);
                lemma_cmp_texts_eq(p2, p3);
                lemma_cmp_texts_eq(p1, p3);
                if cmp_texts(p1, p2) == Ord3::Lt && cmp_texts(p2, p3) == Ord3::Lt {
                    lemma_cmp_texts_from_trans(p1, p2, p3, 0);
                }
            }
        },
        _ => (),
    }
}

/// Lexicographic comparison of two sequences of modules, both already
/// equal before position `i`.
pub open spec fn cmp_mods_from(a: Seq<ModuleV>, b: Seq<ModuleV>, i: int) -> Ord3
    decreases a.len() - i,
{
    if i >= a.len() && i >= b.len() {
        Ord3::Eq
    } else if i >= a.len() {
        Ord3::Lt
    } else if i >= b.len() {
        Ord3::Gt
    } else {
        match cmp_module(a[i], b[i]) {
            Ord3::Eq => cmp_mods_from(a, b, i + 1),
            o => o,
        }
    }
}

/// Lexicographic order on module sets in their sorted order.
pub open spec fn cmp_mods(a: Seq<ModuleV>, b: Seq<ModuleV>) -> Ord3 {
    cmp_mods_from(a, b, 0)
}

pub proof fn lemma_cmp_mods_from_flip(a: Seq<ModuleV>, b: Seq<ModuleV>, i: int)
    ensures
        cmp_mods_from(b, a, i) == flip(cmp_mods_from(a, b, i)),
    decreases a.len() - i,
{
    if i < a.len() && i < b.len() {
        lemma_cmp_module_flip(a[i], b[i]);
        if cmp_module(a[i], b[i]) == Ord3::Eq {
            lemma_cmp_mods_from_flip(a, b, i + 1);
        }
    }
}

pub proof fn lemma_cmp_mods_from_eq(a: Seq<ModuleV>, b: Seq<ModuleV>, i: int)
    requires
        0 <= i <= a.len(),
        0 <= i <= b.len(),
    ensures
        cmp_mods_from(a, b, i) == Ord3::Eq <==> (a.len() == b.len() && forall|j: int|
            i <= j < a.len() ==> a[j] == b[j]),
    decreases a.len() - i,
{
    if i < a.len() && i < b.len() {
        lemma_cmp_module_eq(a[i], b[i]);
        if cmp_module(a[i], b[i]) == Ord3::Eq {
            lemma_cmp_mods_from_eq(a, b, i + 1);
        }
    }
}

/// At position zero, comparing equal means the module sequences are
/// equal.
pub proof fn lemma_cmp_mods_eq(a: Seq<ModuleV>, b: Seq<ModuleV>)
    ensures
        cmp_mods(a, b) == Ord3::Eq <==> a == b,
{
    lemma_cmp_mods_from_eq(a, b, 0);
    if cmp_mods(a, b) == Ord3::Eq {
        assert(a =~= b);
    }
}

pub proof fn lemma_cmp_mods_from_trans(a: Seq<ModuleV>, b: Seq<ModuleV>, c: Seq<ModuleV>, i: int)
    requires
        cmp_mods_from(a, b, i) == Ord3::Lt,
        cmp_mods_from(b, c, i) == Ord3::Lt,
    ensures
        cmp_mods_from(a, c, i) == Ord3::Lt,
    decreases a.len() - i,
{
    if i < a.len() && i < b.len() && i < c.len() {
        lemma_cmp_module_eq(a[i], b[i]);
        lemma_cmp_module_eq(b[i], c[i]);
        lemma_cmp_module_eq(a[i], c[i]);
        if cmp_module(a[i], b[i]) == Ord3::Eq && cmp_module(b[i], c[i]) == Ord3::Eq {
            lemma_cmp_mods_from_trans(a, b, c, i + 1);
        } else if cmp_module(a[i], b[i]) == Ord3::Lt && cmp_module(b[i], c[i]) == Ord3::Lt {
            lemma_cmp_module_trans(a[i], b[i], c[i]);
        }
    }
}

/// The priority class of an import: `__future__` relatives first, then
/// absolute imports, then the remaining relatives, then wildcards.
pub open spec fn import_rank(a: ImportV) -> int {
    match a {
        ImportV::Relative { from, .. } => if is_future(from) {
            0
        } else {
            2
        },
        ImportV::Absolute { .. } => 1,
        ImportV::Wildcard { .. } => 3,
    }
}

/// The total order on imports: by priority class, then within a class by
/// module set (absolute) or origin (relative and wildcard).  Comments
/// never enter the comparison, nor do the identifiers of a relative
/// import.
pub open spec fn cmp_import(a: ImportV, b: ImportV) -> Ord3 {
    if import_rank(a) < import_rank(b) {
        Ord3::Lt
    } else if import_rank(b) < import_rank(a) {
        Ord3::Gt
    } else {
        match (a, b) {
            (
                ImportV::Absolute { modules: m1, .. },
                ImportV::Absolute { modules: m2, .. },
            ) => cmp_mods(m1, m2),
            (
                ImportV::Relative { from: f1, .. },
                ImportV::Relative { from: f2, .. },
            ) => cmp_rel(f1, f2),
            (
                ImportV::Wildcard { from: f1, .. },
                ImportV::Wildcard { from: f2, .. },
            ) => cmp_rel(f1, f2),
            _ => Ord3::Eq,
        }
    }
}

/// The order on imports is antisymmetric: swapping the operands flips the
/// outcome.
pub proof fn lemma_cmp_import_flip(a: ImportV, b: ImportV)
    ensures
        cmp_import(b, a) == flip(cmp_import(a, b)),
{
    match (a, b) {
        (ImportV::Absolute { modules: m1, .. }, ImportV::Absolute { modules: m2, .. }) => {
            lemma_cmp_mods_from_flip(m1, m2, 0);
        },
        (ImportV::Relative { from: f1, .. }, ImportV::Relative { from: f2, .. }) => {
            lemma_cmp_rel_flip(f1, f2);
        },
        (ImportV::Wildcard { from: f1, .. }, ImportV::Wildcard { from: f2, .. }) => {
            lemma_cmp_rel_flip(f1, f2);
        },
        _ => (),
    }
}

/// Imports that compare equal are interchangeable in every comparison:
/// the order never tells them apart.
pub proof fn lemma_cmp_import_eq_congruent(a: ImportV, b: ImportV, c: ImportV)
    requires
        cmp_import(a, b) == Ord3::Eq,
    ensures
        cmp_import(a, c) == cmp_import(b, c),
        cmp_import(c, a) == cmp_import(c, b),
{
    match (a, b) {
        (ImportV::Absolute { modules: m1, .. }, ImportV::Absolute { modules: m2, .. }) => {
            lemma_cmp_mods_eq(m1, m2);
        },
        (ImportV::Relative { from: f1, .. }, ImportV::Relative { from: f2, .. }) => {
            lemma_cmp_rel_eq(f1, f2);
        },
        (ImportV::Wildcard { from: f1, .. }, ImportV::Wildcard { from: f2, .. }) => {
            lemma_cmp_rel_eq(f1, f2);
        },
        _ => (),
    }
}

/// The order on imports is transitive.
pub proof fn lemma_cmp_import_trans(a: ImportV, b: ImportV, c: ImportV)
    requires
        cmp_import(a, b) == Ord3::Lt,
        cmp_import(b, c) == Ord3::Lt,
    ensures
        cmp_import(a, c) == Ord3::Lt,
{
    if import_rank(a) == import_rank(b) && import_rank(b) == import_rank(c) {
        match (a, b, c) {
            (
                ImportV::Absolute { modules: m1, .. },
                ImportV::Absolute { modules: m2, .. },
                ImportV::Absolute { modules: m3, .. },
            ) => {
                lemma_cmp_mods_from_trans(m1, m2, m3, 0);
            },
            (
                ImportV::Relative { from: f1, .. },
                ImportV::Relative { from: f2, .. },
                ImportV::Relative { from: f3, .. },
            ) => {
                lemma_cmp_rel_trans(f1, f2, f3);
            },
            (
                ImportV::Wildcard { from: f1, .. },
                ImportV::Wildcard { from: f2, .. },
                ImportV::Wildcard { from: f3, .. },
            ) => {
                lemma_cmp_rel_trans(f1, f2, f3);
            },
            _ => (),
        }
    }
}

/// A relative import of the `__future__` module sorts strictly before
/// every import that is not itself such an import; in particular before
/// every absolute import.
pub proof fn lemma_future_sorts_first(a: ImportV, b: ImportV)
    requires
        a matches ImportV::Relative { from, .. } && is_future(from),
        !(b matches ImportV::Relative { from, .. } && is_future(from)),
    ensures
        cmp_import(a, b) == Ord3::Lt,
{
}

/// Compares two byte strings lexicographically.
pub fn cmp_bytes_exec(a: &Vec<u8>, b: &Vec<u8>) -> (r: Ord3)
    ensures
        r == cmp_bytes(a@, b@),
{
    let mut i: usize = 0;
    loop
        invariant
            0 <= i <= a@.len(),
            0 <= i <= b@.len(),
            cmp_bytes(a@, b@) == cmp_bytes_from(a@, b@, i as int),
        decreases a@.len() - i,
    {
        if i >= a.len() && i >= b.len() {
            return Ord3::Eq;
        } else if i >= a.len() {
            return Ord3::Lt;
        } else if i >= b.len() {
            return Ord3::Gt;
        } else if a[i] < b[i] {
            return Ord3::Lt;
        } else if b[i] < a[i] {
            return Ord3::Gt;
        }
        i = i + 1;
    }
}

/// Compares two token sequences lexicographically by token text.
pub fn cmp_texts_exec(a: &Vec<Token>, b: &Vec<Token>) -> (r: Ord3)
    ensures
        r == cmp_texts(view_tokens(a@), view_tokens(b@)),
{
    let ghost va = view_tokens(a@);
    let ghost vb = view_tokens(b@);
    let mut i: usize = 0;
    loop
        invariant
            0 <= i <= a@.len(),
            0 <= i <= b@.len(),
            va == view_tokens(a@),
            vb == view_tokens(b@),
            va.len() == a@.len(),
            vb.len() == b@.len(),
            cmp_texts(va, vb) == cmp_texts_from(va, vb, i as int),
        decreases a@.len() - i,
    {
        if i >= a.len() && i >= b.len() {
            return Ord3::Eq;
        } else if i >= a.len() {
            return Ord3::Lt;
        } else if i >= b.len() {
            return Ord3::Gt;
        }
        let c = cmp_bytes_exec(&a[i].slice, &b[i].slice);
        proof {
            assert(va[i as int] == a@[i as int]@);
            assert(vb[i as int] == b@[i as int]@);
        }
        if !matches!(c, Ord3::Eq) {
            return c;
        }
        i = i + 1;
    }
}

/// Compares two modules: path first, then alias.
pub fn cmp_module_exec(a: &Module, b: &Module) -> (r: Ord3)
    ensures
        r == cmp_module(a@, b@),
{
    let c = cmp_texts_exec(&a.path, &b.path);
    if !matches!(c, Ord3::Eq) {
        return c;
    }
    match (&a.alias, &b.alias) {
        (Option::None, Option::None) => Ord3::Eq,
        (Option::None, Option::Some(_)) => Ord3::Lt,
        (Option::Some(_), Option::None) => Ord3::Gt,
        (Option::Some(x), Option::Some(y)) => cmp_bytes_exec(&x.slice, &y.slice),
    }
}

/// Compares two relative origins under the origin order.
pub fn cmp_rel_exec(a: &RelativeModule, b: &RelativeModule) -> (r: Ord3)
    ensures
        r == cmp_rel(a@, b@),
{
    match (a, b) {
        (
            RelativeModule::Named { level: l1, path: p1 },
            RelativeModule::Named { level: l2, path: p2 },
        ) => {
            if *l1 < *l2 {
                Ord3::Lt
            } else if *l2 < *l1 {
                Ord3::Gt
            } else {
                cmp_texts_exec(p1, p2)
            }
        },
        (RelativeModule::Named { .. }, RelativeModule::Unnamed { .. }) => Ord3::Lt,
        (RelativeModule::Unnamed { .. }, RelativeModule::Named { .. }) => Ord3::Gt,
        (RelativeModule::Unnamed { level: l1 }, RelativeModule::Unnamed { level: l2 }) => {
            if *l1 < *l2 {
                Ord3::Gt
            } else if *l2 < *l1 {
                Ord3::Lt
            } else {
                Ord3::Eq
            }
        },
    }
}

/// Compares two module sets lexicographically in their sorted order.
pub fn cmp_mods_exec(a: &ModuleList, b: &ModuleList) -> (r: Ord3)
    ensures
        r == cmp_mods(a@, b@),
{
    let mut i: usize = 0;
    loop
        invariant
            0 <= i <= a.items@.len(),
            0 <= i <= b.items@.len(),
            a@.len() == a.items@.len(),
            b@.len() == b.items@.len(),
            cmp_mods(a@, b@) == cmp_mods_from(a@, b@, i as int),
        decreases a.items@.len() - i,
    {
        if i >= a.items.len() && i >= b.items.len() {
            return Ord3::Eq;
        } else if i >= a.items.len() {
            return Ord3::Lt;
        } else if i >= b.items.len() {
            return Ord3::Gt;
        }
        let c = cmp_module_exec(&a.items[i], &b.items[i]);
        proof {
            assert(a@[i as int] == a.items@[i as int]@);
            assert(b@[i as int] == b.items@[i as int]@);
        }
        if !matches!(c, Ord3::Eq) {
            return c;
        }
        i = i + 1;
    }
}

/// Compares two imports under the total import order.
pub fn cmp_import_exec(a: &Import, b: &Import) -> (r: Ord3)
    ensures
        r == cmp_import(a@, b@),
{
    let ra = import_rank_exec(a);
    let rb = import_rank_exec(b);
    if ra < rb {
        return Ord3::Lt;
    } else if rb < ra {
        return Ord3::Gt;
    }
    match (a, b) {
        (
            Import::Absolute { modules: m1, .. },
            Import::Absolute { modules: m2, .. },
        ) => cmp_mods_exec(m1, m2),
        (
            Import::Relative { from: f1, .. },
            Import::Relative { from: f2, .. },
        ) => cmp_rel_exec(f1, f2),
        (
            Import::Wildcard { from: f1, .. },
            Import::Wildcard { from: f2, .. },
        ) => cmp_rel_exec(f1, f2),
        _ => Ord3::Eq,
    }
}

/// The priority class of an import.
pub fn import_rank_exec(a: &Import) -> (r: u8)
    ensures
        r as int == import_rank(a@),
{
    match a {
        Import::Relative { from, .. } => if from.is_future() {
            0
        } else {
            2
        },
        Import::Absolute { .. } => 1,
        Import::Wildcard { .. } => 3,
    }
}

} // verus!
