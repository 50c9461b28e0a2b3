//! The data model: tokens, modules, relative origins, and import
//! statements, together with the ordered, deduplicating containers that
//! hold modules and identifiers.
//!
//! Tokens compare by their text alone; the position where a token was
//! found never enters any comparison.  The containers keep their elements
//! strictly sorted under the element's order, so inserting an element
//! equal to a present one is a no-op and iteration order is sorted.

use vstd::prelude::*;

use crate::order::Ord3;
use crate::order::cmp_bytes;
use crate::order::cmp_bytes_exec;
use crate::order::cmp_module;
use crate::order::cmp_module_exec;

verus! {

/// A piece of source text: the bytes it spells and the offset where it
/// was found.  Only the bytes matter for equality and order.
#[derive(Debug)]
pub struct Token {
    pub slice: Vec<u8>,
    pub i: usize,
}

impl View for Token {
    type V = Seq<u8>;

    open spec fn view(&self) -> Seq<u8> {
        self.slice@
    }
}

/// A dotted path: one or more identifier tokens.
pub type ModulePath = Vec<Token>;

/// The texts of a sequence of tokens.
pub open spec fn view_tokens(s: Seq<Token>) -> Seq<Seq<u8>> {
    s.map_values(|t: Token| t@)
}

/// The text of an optional token.
pub open spec fn view_opt_token(o: Option<Token>) -> Option<Seq<u8>> {
    match o {
        Some(t) => Some(t@),
        None => None,
    }
}

/// Mathematical form of a module: the texts of its path segments and of
/// its alias, if any.
#[verifier::ext_equal]
pub struct ModuleV {
    pub path: Seq<Seq<u8>>,
    pub alias: Option<Seq<u8>>,
}

/// A module named by an absolute import: a dotted path and an optional
/// alias.
#[derive(Debug)]
pub struct Module {
    pub path: ModulePath,
    pub alias: Option<Token>,
}

impl View for Module {
    type V = ModuleV;

    open spec fn view(&self) -> ModuleV {
        ModuleV { path: view_tokens(self.path@), alias: view_opt_token(self.alias) }
    }
}

/// Mathematical form of a relative origin.
#[verifier::ext_equal]
pub enum RelativeModuleV {
    Named { level: nat, path: Seq<Seq<u8>> },
    Unnamed { level: nat },
}

/// The origin of a `from` import: leading dots plus an optional dotted
/// path.  `Unnamed` origins always have at least one dot.
#[derive(Debug)]
pub enum RelativeModule {
    Named { level: usize, path: ModulePath },
    Unnamed { level: usize },
}

impl View for RelativeModule {
    type V = RelativeModuleV;

    open spec fn view(&self) -> RelativeModuleV {
        match self {
            RelativeModule::Named { level, path } => RelativeModuleV::Named {
                level: *level as nat,
                path: view_tokens(path@),
            },
            RelativeModule::Unnamed { level } => RelativeModuleV::Unnamed { level: *level as nat },
        }
    }
}

/// The spelling `__future__`, as bytes.
pub open spec fn future_bytes() -> Seq<u8> {
    seq![95u8, 95u8, 102u8, 117u8, 116u8, 117u8, 114u8, 101u8, 95u8, 95u8]
}

/// Whether an origin is the `__future__` module itself: no leading dots
/// and a path whose first segment spells `__future__`.
pub open spec fn is_future(f: RelativeModuleV) -> bool {
    match f {
        RelativeModuleV::Named { level, path } => level == 0 && path.len() > 0 && path[0]
            == future_bytes(),
        RelativeModuleV::Unnamed { .. } => false,
    }
}

impl RelativeModule {
    /// Whether this origin is the `__future__` module.
    pub fn is_future(&self) -> (r: bool)
        ensures
            r == is_future(self@),
    {
        match self {
            RelativeModule::Named { level, path } => {
                if *level != 0 || path.len() == 0 {
                    return false;
                }
                let expected: Vec<u8> = vec![95u8, 95u8, 102u8, 117u8, 116u8, 117u8, 114u8, 101u8, 95u8, 95u8];
                proof {
                    assert(expected@ =~= future_bytes());
                    crate::order::lemma_cmp_bytes_eq(path@[0]@, expected@);
                }
                let c = cmp_bytes_exec(&path[0].slice, &expected);
                matches!(c, Ord3::Eq)
            },
            RelativeModule::Unnamed { .. } => false,
        }
    }
}

/// Inserts a byte string into a sorted sequence of byte strings, keeping
/// the sequence sorted and dropping the new element when an equal one is
/// already present.
pub open spec fn ident_set_insert(s: Seq<Seq<u8>>, x: Seq<u8>) -> Seq<Seq<u8>>
    decreases s.len(),
{
    if s.len() == 0 {
        seq![x]
    } else {
        match cmp_bytes(x, s[0]) {
            Ord3::Lt => seq![x] + s,
            Ord3::Eq => s,
            Ord3::Gt => seq![s[0]] + ident_set_insert(s.skip(1), x),
        }
    }
}

/// Inserts a module into a sorted sequence of modules, keeping the
/// sequence sorted and dropping the new element when an equal one is
/// already present.
pub open spec fn mod_set_insert(s: Seq<ModuleV>, x: ModuleV) -> Seq<ModuleV>
    decreases s.len(),
{
    if s.len() == 0 {
        seq![x]
    } else {
        match cmp_module(x, s[0]) {
            Ord3::Lt => seq![x] + s,
            Ord3::Eq => s,
            Ord3::Gt => seq![s[0]] + mod_set_insert(s.skip(1), x),
        }
    }
}

proof fn lemma_ident_set_insert_at(s: Seq<Seq<u8>>, x: Seq<u8>, k: int)
    requires
        0 <= k <= s.len(),
        forall|j: int| 0 <= j < k ==> cmp_bytes(x, s[j]) == Ord3::Gt,
        k < s.len() ==> cmp_bytes(x, s[k]) != Ord3::Gt,
    ensures
        k < s.len() && cmp_bytes(x, s[k]) == Ord3::Eq ==> ident_set_insert(s, x) == s,
        !(k < s.len() && cmp_bytes(x, s[k]) == Ord3::Eq) ==> ident_set_insert(s, x) == s.take(k)
            + seq![x] + s.skip(k),
    decreases k,
{
    if k == 0 {
        if s.len() == 0 {
            assert(ident_set_insert(s, x) =~= s.take(0) + seq![x] + s.skip(0));
        } else {
            match cmp_bytes(x, s[0]) {
                Ord3::Lt => {
                    assert(seq![x] + s =~= s.take(0) + seq![x] + s.skip(0));
                },
                Ord3::Eq => {},
                Ord3::Gt => {},
            }
        }
    } else {
        lemma_ident_set_insert_at(s.skip(1), x, k - 1);
        if k < s.len() && cmp_bytes(x, s[k]) == Ord3::Eq {
            assert(ident_set_insert(s.skip(1), x) == s.skip(1));
            assert(seq![s[0]] + s.skip(1) =~= s);
        } else {
            assert(ident_set_insert(s.skip(1), x) == s.skip(1).take(k - 1) + seq![x] + s.skip(
                1,
            ).skip(k - 1));
            assert(seq![s[0]] + (s.skip(1).take(k - 1) + seq![x] + s.skip(1).skip(k - 1)) =~= s.take(
                k,
            ) + seq![x] + s.skip(k));
        }
    }
}

proof fn lemma_mod_set_insert_at(s: Seq<ModuleV>, x: ModuleV, k: int)
    requires
        0 <= k <= s.len(),
        forall|j: int| 0 <= j < k ==> cmp_module(x, s[j]) == Ord3::Gt,
        k < s.len() ==> cmp_module(x, s[k]) != Ord3::Gt,
    ensures
        k < s.len() && cmp_module(x, s[k]) == Ord3::Eq ==> mod_set_insert(s, x) == s,
        !(k < s.len() && cmp_module(x, s[k]) == Ord3::Eq) ==> mod_set_insert(s, x) == s.take(k)
            + seq![x] + s.skip(k),
    decreases k,
{
    if k == 0 {
        if s.len() == 0 {
            assert(mod_set_insert(s, x) =~= s.take(0) + seq![x] + s.skip(0));
        } else {
            match cmp_module(x, s[0]) {
                Ord3::Lt => {
                    assert(seq![x] + s =~= s.take(0) + seq![x] + s.skip(0));
                },
                Ord3::Eq => {},
                Ord3::Gt => {},
            }
        }
    } else {
        lemma_mod_set_insert_at(s.skip(1), x, k - 1);
        if k < s.len() && cmp_module(x, s[k]) == Ord3::Eq {
            assert(mod_set_insert(s.skip(1), x) == s.skip(1));
            assert(seq![s[0]] + s.skip(1) =~= s);
        } else {
            assert(mod_set_insert(s.skip(1), x) == s.skip(1).take(k - 1) + seq![x] + s.skip(
                1,
            ).skip(k - 1));
            assert(seq![s[0]] + (s.skip(1).take(k - 1) + seq![x] + s.skip(1).skip(k - 1)) =~= s.take(
                k,
            ) + seq![x] + s.skip(k));
        }
    }
}

/// Whether a sequence of identifier texts is strictly sorted: sorted with
/// no two entries equal.
pub open spec fn strictly_sorted_ids(ids: Seq<Seq<u8>>) -> bool {
    forall|i: int, j: int| 0 <= i < j < ids.len() ==> cmp_bytes(ids[i], ids[j]) == Ord3::Lt
}

proof fn lemma_concat_contains(a: Seq<Seq<u8>>, b: Seq<Seq<u8>>, y: Seq<u8>)
    ensures
        (a + b).contains(y) <==> a.contains(y) || b.contains(y),
{
    if (a + b).contains(y) {
        let i = choose|i: int| 0 <= i < (a + b).len() && (a + b)[i] == y;
        if i < a.len() {
            assert(a[i] == y);
        } else {
            assert(b[i - a.len()] == y);
        }
    }
    if a.contains(y) {
        let i = choose|i: int| 0 <= i < a.len() && a[i] == y;
        assert((a + b)[i] == y);
    }
    if b.contains(y) {
        let i = choose|i: int| 0 <= i < b.len() && b[i] == y;
        assert((a + b)[a.len() + i] == y);
    }
}

/// Inserting into an identifier set adds exactly the new text to the
/// members, and keeps the set strictly sorted.
pub proof fn lemma_ident_set_insert_props(s: Seq<Seq<u8>>, x: Seq<u8>)
    ensures
        forall|y: Seq<u8>| #[trigger]
            ident_set_insert(s, x).contains(y) <==> (s.contains(y) || y == x),
        strictly_sorted_ids(s) ==> strictly_sorted_ids(ident_set_insert(s, x)),
    decreases s.len(),
{
    crate::order::lemma_cmp_bytes_eq(x, x);
    if s.len() == 0 {
        assert forall|y: Seq<u8>| #[trigger]
            ident_set_insert(s, x).contains(y) <==> (s.contains(y) || y == x) by {
            if ident_set_insert(s, x).contains(y) {
                assert(seq![x][0] == x);
            }
            if y == x {
                assert(ident_set_insert(s, x)[0] == y);
            }
        }
    } else {
        crate::order::lemma_cmp_bytes_eq(x, s[0]);
        match cmp_bytes(x, s[0]) {
            Ord3::Lt => {
                assert forall|y: Seq<u8>| #[trigger]
                    ident_set_insert(s, x).contains(y) <==> (s.contains(y) || y == x) by {
                    lemma_concat_contains(seq![x], s, y);
                    assert(seq![x].contains(y) <==> y == x) by {
                        if seq![x].contains(y) {
                            assert(seq![x][0] == y);
                        } else if y == x {
                            assert(seq![x][0] == y);
                        }
                    }
                }
                if strictly_sorted_ids(s) {
                    assert forall|i: int, j: int|
                        0 <= i < j < ident_set_insert(s, x).len() implies cmp_bytes(
                        ident_set_insert(s, x)[i],
                        ident_set_insert(s, x)[j],
                    ) == Ord3::Lt by {
                        let t = ident_set_insert(s, x);
                        if i == 0 {
                            assert(t[j] == s[j - 1]);
                            if j == 1 {
                                assert(cmp_bytes(x, s[0]) == Ord3::Lt);
                            } else {
                                assert(cmp_bytes(s[0], s[j - 1]) == Ord3::Lt);
                                crate::order::lemma_cmp_bytes_from_trans(x, s[0], s[j - 1], 0);
                            }
                        } else {
                            assert(t[i] == s[i - 1] && t[j] == s[j - 1]);
                        }
                    }
                }
            },
            Ord3::Eq => {
                assert forall|y: Seq<u8>| #[trigger]
                    ident_set_insert(s, x).contains(y) <==> (s.contains(y) || y == x) by {
                    if y == x {
                        assert(s[0] == y);
                    }
                }
            },
            Ord3::Gt => {
                lemma_ident_set_insert_props(s.skip(1), x);
                let t0 = ident_set_insert(s.skip(1), x);
                let t = ident_set_insert(s, x);
                assert forall|y: Seq<u8>| #[trigger] t.contains(y) <==> (s.contains(y) || y == x) by {
                    lemma_concat_contains(seq![s[0]], t0, y);
                    lemma_concat_contains(seq![s[0]], s.skip(1), y);
                    assert(seq![s[0]] + s.skip(1) =~= s);
                    assert(seq![s[0]].contains(y) <==> y == s[0]) by {
                        if seq![s[0]].contains(y) {
                            assert(seq![s[0]][0] == y);
                        } else if y == s[0] {
                            assert(seq![s[0]][0] == y);
                        }
                    }
                }
                if strictly_sorted_ids(s) {
                    assert(strictly_sorted_ids(s.skip(1)));
                    crate::order::lemma_cmp_bytes_from_flip(x, s[0], 0);
                    assert forall|i: int, j: int| 0 <= i < j < t.len() implies cmp_bytes(
                        t[i],
                        t[j],
                    ) == Ord3::Lt by {
                        if i == 0 {
                            assert(t[j] == t0[j - 1]);
                            assert(t0.contains(t0[j - 1]));
                            if t0[j - 1] == x {
                                assert(cmp_bytes(s[0], x) == Ord3::Lt);
                            } else {
                                let m = choose|m: int|
                                    0 <= m < s.skip(1).len() && s.skip(1)[m] == t0[j - 1];
                                assert(s[m + 1] == t0[j - 1]);
                                assert(cmp_bytes(s[0], s[m + 1]) == Ord3::Lt);
                            }
                        } else {
                            assert(t[i] == t0[i - 1] && t[j] == t0[j - 1]);
                        }
                    }
                }
            },
        }
    }
}

/// An ordered, deduplicating set of modules, kept as a sorted vector.
#[derive(Debug)]
pub struct ModuleList {
    pub items: Vec<Module>,
}

impl View for ModuleList {
    type V = Seq<ModuleV>;

    open spec fn view(&self) -> Seq<ModuleV> {
        self.items@.map_values(|m: Module| m@)
    }
}

impl ModuleList {
    pub fn new() -> (r: ModuleList)
        ensures
            r@ == Seq::<ModuleV>::empty(),
    {
        let r = ModuleList { items: Vec::new() };
        proof {
            assert(r@ =~= Seq::<ModuleV>::empty());
        }
        r
    }

    pub fn is_empty(&self) -> (r: bool)
        ensures
            r == (self@.len() == 0),
    {
        self.items.len() == 0
    }

    pub fn len(&self) -> (r: usize)
        ensures
            r == self@.len(),
    {
        self.items.len()
    }

    /// Adds a module, keeping the set sorted; a module equal to a present
    /// one is dropped.
    pub fn insert(&mut self, m: Module)
        ensures
            final(self)@ == mod_set_insert(old(self)@, m@),
    {
        let mut k: usize = 0;
        while k < self.items.len() && matches!(cmp_module_exec(&m, &self.items[k]), Ord3::Gt)
            invariant
                0 <= k <= self.items@.len(),
                self == old(self),
                forall|j: int| 0 <= j < k ==> cmp_module(m@, self@[j]) == Ord3::Gt,
            decreases self.items@.len() - k,
        {
            k = k + 1;
        }
        if k < self.items.len() {
            let c = cmp_module_exec(&m, &self.items[k]);
            if matches!(c, Ord3::Eq) {
                proof {
                    lemma_mod_set_insert_at(old(self)@, m@, k as int);
                }
                return ;
            }
        }
        proof {
            lemma_mod_set_insert_at(old(self)@, m@, k as int);
        }
        self.items.insert(k, m);
        proof {
            assert(self@ =~= old(self)@.take(k as int) + seq![m@] + old(self)@.skip(k as int));
        }
    }
}

/// An ordered, deduplicating set of identifier tokens, kept as a sorted
/// vector and comparing tokens by text.
#[derive(Debug)]
pub struct IdentifierList {
    pub items: Vec<Token>,
}

impl View for IdentifierList {
    type V = Seq<Seq<u8>>;

    open spec fn view(&self) -> Seq<Seq<u8>> {
        view_tokens(self.items@)
    }
}

impl IdentifierList {
    pub fn new() -> (r: IdentifierList)
        ensures
            r@ == Seq::<Seq<u8>>::empty(),
    {
        let r = IdentifierList { items: Vec::new() };
        proof {
            assert(r@ =~= Seq::<Seq<u8>>::empty());
        }
        r
    }

    pub fn is_empty(&self) -> (r: bool)
        ensures
            r == (self@.len() == 0),
    {
        self.items.len() == 0
    }

    pub fn len(&self) -> (r: usize)
        ensures
            r == self@.len(),
    {
        self.items.len()
    }

    /// Adds an identifier, keeping the set sorted; a token spelling the
    /// same text as a present one is dropped.
    pub fn insert(&mut self, t: Token)
        ensures
            final(self)@ == ident_set_insert(old(self)@, t@),
    {
        let mut k: usize = 0;
        while k < self.items.len() && matches!(
            cmp_bytes_exec(&t.slice, &self.items[k].slice),
            Ord3::Gt,
        )
            invariant
                0 <= k <= self.items@.len(),
                self == old(self),
                forall|j: int| 0 <= j < k ==> cmp_bytes(t@, self@[j]) == Ord3::Gt,
            decreases self.items@.len() - k,
        {
            k = k + 1;
        }
        if k < self.items.len() {
            let c = cmp_bytes_exec(&t.slice, &self.items[k].slice);
            if matches!(c, Ord3::Eq) {
                proof {
                    lemma_ident_set_insert_at(old(self)@, t@, k as int);
                }
                return ;
            }
        }
        proof {
            lemma_ident_set_insert_at(old(self)@, t@, k as int);
        }
        self.items.insert(k, t);
        proof {
            assert(self@ =~= old(self)@.take(k as int) + seq![t@] + old(self)@.skip(k as int));
        }
    }
}

/// Mathematical form of an import statement.
#[verifier::ext_equal]
pub enum ImportV {
    Absolute { modules: Seq<ModuleV>, comment: Option<Seq<u8>> },
    Relative { from: RelativeModuleV, identifiers: Seq<Seq<u8>>, comment: Option<Seq<u8>> },
    Wildcard { from: RelativeModuleV, comment: Option<Seq<u8>> },
}

/// One recognized import statement.
#[derive(Debug)]
pub enum Import {
    Absolute { modules: ModuleList, comment: Option<Token> },
    Relative { from: RelativeModule, identifiers: IdentifierList, comment: Option<Token> },
    Wildcard { from: RelativeModule, comment: Option<Token> },
}

impl View for Import {
    type V = ImportV;

    open spec fn view(&self) -> ImportV {
        match self {
            Import::Absolute { modules, comment } => ImportV::Absolute {
                modules: modules@,
                comment: view_opt_token(*comment),
            },
            Import::Relative { from, identifiers, comment } => ImportV::Relative {
                from: from@,
                identifiers: identifiers@,
                comment: view_opt_token(*comment),
            },
            Import::Wildcard { from, comment } => ImportV::Wildcard {
                from: from@,
                comment: view_opt_token(*comment),
            },
        }
    }
}

/// The texts of a sequence of imports.
pub open spec fn view_imports(s: Seq<Import>) -> Seq<ImportV> {
    s.map_values(|imp: Import| imp@)
}

} // verus!
