//! The tokenizer and the backtracking recursive-descent grammar.
//!
//! The grammar is given twice: once as total specification functions over
//! the byte sequence and a cursor position, and once as executable rules
//! whose contracts pin each rule's result and cursor movement to the
//! specification.  Rules never raise: failure is "no match", and a failed
//! rule leaves the cursor where it found it.
//!
//! Leniency is deliberate: parentheses around lists are optional, a
//! trailing comma stops a list, a missing closing parenthesis is not an
//! error, and anything the grammar does not model simply ends the import
//! block instead of failing the parse.

use vstd::prelude::*;

use crate::import::Import;
use crate::import::ImportV;
use crate::import::IdentifierList;
use crate::import::Module;
use crate::import::ModuleList;
use crate::import::ModuleV;
use crate::import::RelativeModule;
use crate::import::RelativeModuleV;
use crate::import::Token;
use crate::import::ident_set_insert;
use crate::import::mod_set_insert;
use crate::import::view_imports;
use crate::import::view_tokens;

verus! {

/// Bytes an identifier may consist of: ASCII alphanumerics and the
/// underscore.  A leading digit is deliberately not rejected.
pub open spec fn is_ident_byte(c: u8) -> bool {
    c == 95 || (48 <= c && c <= 57) || (65 <= c && c <= 90) || (97 <= c && c <= 122)
}

/// Bytes treated as whitespace: space and newline only; a tab is never
/// whitespace here.
pub open spec fn is_ws_byte(c: u8) -> bool {
    c == 32 || c == 10
}

/// End of the maximal identifier run starting at `i`.
pub open spec fn ident_end(src: Seq<u8>, i: int) -> int
    decreases src.len() - i,
{
    if 0 <= i < src.len() && is_ident_byte(src[i]) {
        ident_end(src, i + 1)
    } else {
        i
    }
}

/// End of the maximal whitespace run starting at `i`.
pub open spec fn ws_end(src: Seq<u8>, i: int) -> int
    decreases src.len() - i,
{
    if 0 <= i < src.len() && is_ws_byte(src[i]) {
        ws_end(src, i + 1)
    } else {
        i
    }
}

/// Position of the next newline at or after `i`, or the end of the
/// buffer.
pub open spec fn nl_end(src: Seq<u8>, i: int) -> int
    decreases src.len() - i,
{
    if 0 <= i < src.len() && src[i] != 10 {
        nl_end(src, i + 1)
    } else {
        i
    }
}

/// End of the maximal run of dots starting at `i`.
pub open spec fn dots_end(src: Seq<u8>, i: int) -> int
    decreases src.len() - i,
{
    if 0 <= i < src.len() && src[i] == 46 {
        dots_end(src, i + 1)
    } else {
        i
    }
}

proof fn lemma_ident_end_bounds(src: Seq<u8>, i: int)
    requires
        0 <= i <= src.len(),
    ensures
        i <= ident_end(src, i) <= src.len(),
    decreases src.len() - i,
{
    if i < src.len() && is_ident_byte(src[i]) {
        lemma_ident_end_bounds(src, i + 1);
    }
}

proof fn lemma_ws_end_bounds(src: Seq<u8>, i: int)
    requires
        0 <= i <= src.len(),
    ensures
        i <= ws_end(src, i) <= src.len(),
    decreases src.len() - i,
{
    if i < src.len() && is_ws_byte(src[i]) {
        lemma_ws_end_bounds(src, i + 1);
    }
}

proof fn lemma_nl_end_bounds(src: Seq<u8>, i: int)
    requires
        0 <= i <= src.len(),
    ensures
        i <= nl_end(src, i) <= src.len(),
    decreases src.len() - i,
{
    if i < src.len() && src[i] != 10 {
        lemma_nl_end_bounds(src, i + 1);
    }
}

proof fn lemma_dots_end_bounds(src: Seq<u8>, i: int)
    requires
        0 <= i <= src.len(),
    ensures
        i <= dots_end(src, i) <= src.len(),
    decreases src.len() - i,
{
    if i < src.len() && src[i] == 46 {
        lemma_dots_end_bounds(src, i + 1);
    }
}

/// Whether the bytes at `i` are exactly `pat`.
pub open spec fn spec_lit(src: Seq<u8>, i: int, pat: Seq<u8>) -> bool {
    &&& 0 <= i
    &&& i + pat.len() <= src.len()
    &&& src.subrange(i, i + pat.len()) == pat
}

/// The spelling `import`.
pub open spec fn import_kw() -> Seq<u8> {
    seq![105u8, 109u8, 112u8, 111u8, 114u8, 116u8]
}

/// The spelling `from`.
pub open spec fn from_kw() -> Seq<u8> {
    seq![102u8, 114u8, 111u8, 109u8]
}

/// The spelling `as`.
pub open spec fn as_kw() -> Seq<u8> {
    seq![97u8, 115u8]
}

/// The identifier rule: the maximal nonempty run of identifier bytes at
/// `i`, or no match if the run is empty.
pub open spec fn spec_identifier(src: Seq<u8>, i: int) -> Option<(Seq<u8>, int)> {
    let j = ident_end(src, i);
    if j == i {
        None
    } else {
        Some((src.subrange(i, j), j))
    }
}

proof fn lemma_spec_identifier_bounds(src: Seq<u8>, i: int)
    ensures
        spec_identifier(src, i) matches Some(t) ==> 0 <= i && i < t.1 <= src.len(),
{
    if spec_identifier(src, i) is Some {
        if !(0 <= i < src.len() && is_ident_byte(src[i])) {
            assert(ident_end(src, i) == i);
        } else {
            lemma_ident_end_bounds(src, i);
        }
    }
}

/// The comment rule: matches only at a `#`, runs to the next newline or
/// the end of the buffer, consumes the newline, and yields the text
/// without the terminating newline.
pub open spec fn spec_comment(src: Seq<u8>, i: int) -> Option<(Seq<u8>, int)> {
    if 0 <= i < src.len() && src[i] == 35 {
        let j = nl_end(src, i);
        let end = if j < src.len() {
            j + 1
        } else {
            j
        };
        Some((src.subrange(i, j), end))
    } else {
        None
    }
}

proof fn lemma_spec_comment_bounds(src: Seq<u8>, i: int)
    ensures
        spec_comment(src, i) matches Some(t) ==> 0 <= i && i < t.1 <= src.len(),
{
    if spec_comment(src, i) is Some {
        lemma_nl_end_bounds(src, i);
    }
}

/// An optional comment: the comment's text and end when one starts at
/// `i`, and no text with the cursor unmoved otherwise.
pub open spec fn spec_opt_comment(src: Seq<u8>, i: int) -> (Option<Seq<u8>>, int) {
    match spec_comment(src, i) {
        Some(t) => (Some(t.0), t.1),
        None => (None, i),
    }
}

proof fn lemma_spec_opt_comment_bounds(src: Seq<u8>, i: int)
    requires
        0 <= i <= src.len(),
    ensures
        i <= spec_opt_comment(src, i).1 <= src.len(),
{
    lemma_spec_comment_bounds(src, i);
}

/// The body of the dotted-path rule: identifiers separated by dots with
/// whitespace after each identifier and after each dot.  A dot that is
/// not followed by an identifier stays consumed; the loop merely stops.
pub open spec fn spec_module_path_loop(src: Seq<u8>, i: int, acc: Seq<Seq<u8>>) -> (
    Seq<Seq<u8>>,
    int,
)
    decreases src.len() - i,
    via spec_module_path_loop_dec
{
    match spec_identifier(src, i) {
        None => (acc, i),
        Some(t) => {
            let k = ws_end(src, t.1);
            let acc2 = acc.push(t.0);
            if 0 <= k < src.len() && src[k] == 46 {
                spec_module_path_loop(src, ws_end(src, k + 1), acc2)
            } else {
                (acc2, k)
            }
        },
    }
}

#[via_fn]
proof fn spec_module_path_loop_dec(src: Seq<u8>, i: int, acc: Seq<Seq<u8>>) {
    lemma_spec_identifier_bounds(src, i);
    match spec_identifier(src, i) {
        Some(t) => {
            lemma_ws_end_bounds(src, t.1);
            let k = ws_end(src, t.1);
            if 0 <= k < src.len() && src[k] == 46 {
                lemma_ws_end_bounds(src, k + 1);
            }
        },
        None => {},
    }
}

proof fn lemma_module_path_loop_bounds(src: Seq<u8>, i: int, acc: Seq<Seq<u8>>)
    requires
        0 <= i <= src.len(),
    ensures
        i <= spec_module_path_loop(src, i, acc).1 <= src.len(),
        spec_identifier(src, i) is None ==> spec_module_path_loop(src, i, acc) == (acc, i),
        spec_identifier(src, i) is Some ==> spec_module_path_loop(src, i, acc).1 > i,
    decreases src.len() - i,
{
    lemma_spec_identifier_bounds(src, i);
    match spec_identifier(src, i) {
        Some(t) => {
            lemma_ws_end_bounds(src, t.1);
            let k = ws_end(src, t.1);
            if 0 <= k < src.len() && src[k] == 46 {
                lemma_ws_end_bounds(src, k + 1);
                lemma_module_path_loop_bounds(src, ws_end(src, k + 1), acc.push(t.0));
            }
        },
        None => {},
    }
}

/// The dotted-path rule: one or more identifiers separated by dots; no
/// match when no identifier starts at `i`.
pub open spec fn spec_module_path(src: Seq<u8>, i: int) -> Option<(Seq<Seq<u8>>, int)> {
    let r = spec_module_path_loop(src, i, Seq::empty());
    if r.0.len() == 0 {
        None
    } else {
        Some(r)
    }
}

proof fn lemma_spec_module_path_bounds(src: Seq<u8>, i: int)
    ensures
        spec_module_path(src, i) matches Some(t) ==> 0 <= i && i < t.1 <= src.len(),
{
    lemma_spec_identifier_bounds(src, i);
    if spec_module_path(src, i) is Some {
        if spec_identifier(src, i) is None {
            assert(spec_module_path_loop(src, i, Seq::empty()) == (Seq::<Seq<u8>>::empty(), i));
        } else {
            lemma_module_path_loop_bounds(src, i, Seq::empty());
        }
    }
}

/// The module rule: a dotted path, then optionally `as` and an alias
/// identifier.
pub open spec fn spec_module(src: Seq<u8>, i: int) -> Option<(ModuleV, int)> {
    match spec_module_path(src, i) {
        None => None,
        Some(p) => {
            let k = ws_end(src, p.1);
            if spec_lit(src, k, as_kw()) {
                match spec_identifier(src, ws_end(src, k + 2)) {
                    None => None,
                    Some(a) => Some((ModuleV { path: p.0, alias: Some(a.0) }, a.1)),
                }
            } else {
                Some((ModuleV { path: p.0, alias: None }, k))
            }
        },
    }
}

proof fn lemma_spec_module_bounds(src: Seq<u8>, i: int)
    ensures
        spec_module(src, i) matches Some(t) ==> 0 <= i && i < t.1 <= src.len(),
{
    lemma_spec_module_path_bounds(src, i);
    match spec_module_path(src, i) {
        Some(p) => {
            lemma_ws_end_bounds(src, p.1);
            let k = ws_end(src, p.1);
            if spec_lit(src, k, as_kw()) {
                lemma_ws_end_bounds(src, k + 2);
                lemma_spec_identifier_bounds(src, ws_end(src, k + 2));
            }
        },
        None => {},
    }
}

/// The body of the module-list rule: modules separated by commas, each
/// inserted into the module set.  A comma not followed by a module stays
/// consumed; the loop merely stops, so a trailing comma is tolerated.
pub open spec fn spec_module_list_loop(src: Seq<u8>, i: int, acc: Seq<ModuleV>) -> (
    Seq<ModuleV>,
    int,
)
    decreases src.len() - i,
    via spec_module_list_loop_dec
{
    match spec_module(src, i) {
        None => (acc, i),
        Some(m) => {
            let k = ws_end(src, m.1);
            let acc2 = mod_set_insert(acc, m.0);
            if 0 <= k < src.len() && src[k] == 44 {
                spec_module_list_loop(src, ws_end(src, k + 1), acc2)
            } else {
                (acc2, k)
            }
        },
    }
}

#[via_fn]
proof fn spec_module_list_loop_dec(src: Seq<u8>, i: int, acc: Seq<ModuleV>) {
    lemma_spec_module_bounds(src, i);
    match spec_module(src, i) {
        Some(m) => {
            lemma_ws_end_bounds(src, m.1);
            let k = ws_end(src, m.1);
            if 0 <= k < src.len() && src[k] == 44 {
                lemma_ws_end_bounds(src, k + 1);
            }
        },
        None => {},
    }
}

proof fn lemma_module_list_loop_bounds(src: Seq<u8>, i: int, acc: Seq<ModuleV>)
    requires
        0 <= i <= src.len(),
    ensures
        i <= spec_module_list_loop(src, i, acc).1 <= src.len(),
        spec_module(src, i) is None ==> spec_module_list_loop(src, i, acc) == (acc, i),
        spec_module(src, i) is Some ==> spec_module_list_loop(src, i, acc).1 > i,
    decreases src.len() - i,
{
    lemma_spec_module_bounds(src, i);
    match spec_module(src, i) {
        Some(m) => {
            lemma_ws_end_bounds(src, m.1);
            let k = ws_end(src, m.1);
            if 0 <= k < src.len() && src[k] == 44 {
                lemma_ws_end_bounds(src, k + 1);
                lemma_module_list_loop_bounds(src, ws_end(src, k + 1), mod_set_insert(acc, m.0));
            }
        },
        None => {},
    }
}

/// The module-list rule: an optional opening parenthesis, one or more
/// comma-separated modules, and an optional closing parenthesis; no match
/// when no module is found.
pub open spec fn spec_module_list(src: Seq<u8>, i: int) -> Option<(Seq<ModuleV>, int)> {
    let i1 = if 0 <= i < src.len() && src[i] == 40 {
        i + 1
    } else {
        i
    };
    let r = spec_module_list_loop(src, i1, Seq::empty());
    if r.0.len() == 0 {
        None
    } else {
        let j = r.1;
        if 0 <= j < src.len() && src[j] == 41 {
            Some((r.0, ws_end(src, j + 1)))
        } else {
            Some((r.0, j))
        }
    }
}

proof fn lemma_spec_module_list_bounds(src: Seq<u8>, i: int)
    ensures
        spec_module_list(src, i) matches Some(t) ==> 0 <= i && i < t.1 <= src.len(),
{
    let i1 = if 0 <= i < src.len() && src[i] == 40 {
        i + 1
    } else {
        i
    };
    lemma_spec_module_bounds(src, i1);
    if spec_module_list(src, i) is Some {
        if spec_module(src, i1) is None {
            assert(spec_module_list_loop(src, i1, Seq::empty()) == (Seq::<ModuleV>::empty(), i1));
        } else {
            lemma_module_list_loop_bounds(src, i1, Seq::empty());
            let j = spec_module_list_loop(src, i1, Seq::empty()).1;
            if 0 <= j < src.len() && src[j] == 41 {
                lemma_ws_end_bounds(src, j + 1);
            }
        }
    }
}

/// The body of the identifier-list rule, shaped like the module-list body
/// but over bare identifiers.
pub open spec fn spec_identifier_list_loop(src: Seq<u8>, i: int, acc: Seq<Seq<u8>>) -> (
    Seq<Seq<u8>>,
    int,
)
    decreases src.len() - i,
    via spec_identifier_list_loop_dec
{
    match spec_identifier(src, i) {
        None => (acc, i),
        Some(t) => {
            let k = ws_end(src, t.1);
            let acc2 = ident_set_insert(acc, t.0);
            if 0 <= k < src.len() && src[k] == 44 {
                spec_identifier_list_loop(src, ws_end(src, k + 1), acc2)
            } else {
                (acc2, k)
            }
        },
    }
}

#[via_fn]
proof fn spec_identifier_list_loop_dec(src: Seq<u8>, i: int, acc: Seq<Seq<u8>>) {
    lemma_spec_identifier_bounds(src, i);
    match spec_identifier(src, i) {
        Some(t) => {
            lemma_ws_end_bounds(src, t.1);
            let k = ws_end(src, t.1);
            if 0 <= k < src.len() && src[k] == 44 {
                lemma_ws_end_bounds(src, k + 1);
            }
        },
        None => {},
    }
}

proof fn lemma_identifier_list_loop_bounds(src: Seq<u8>, i: int, acc: Seq<Seq<u8>>)
    requires
        0 <= i <= src.len(),
    ensures
        i <= spec_identifier_list_loop(src, i, acc).1 <= src.len(),
        spec_identifier(src, i) is None ==> spec_identifier_list_loop(src, i, acc) == (acc, i),
        spec_identifier(src, i) is Some ==> spec_identifier_list_loop(src, i, acc).1 > i,
    decreases src.len() - i,
{
    lemma_spec_identifier_bounds(src, i);
    match spec_identifier(src, i) {
        Some(t) => {
            lemma_ws_end_bounds(src, t.1);
            let k = ws_end(src, t.1);
            if 0 <= k < src.len() && src[k] == 44 {
                lemma_ws_end_bounds(src, k + 1);
                lemma_identifier_list_loop_bounds(src, ws_end(src, k + 1), ident_set_insert(acc, t.0));
            }
        },
        None => {},
    }
}

/// The identifier-list rule: an optional opening parenthesis, one or more
/// comma-separated identifiers, and an optional closing parenthesis; no
/// match when no identifier is found.
pub open spec fn spec_identifier_list(src: Seq<u8>, i: int) -> Option<(Seq<Seq<u8>>, int)> {
    let i1 = if 0 <= i < src.len() && src[i] == 40 {
        i + 1
    } else {
        i
    };
    let r = spec_identifier_list_loop(src, i1, Seq::empty());
    if r.0.len() == 0 {
        None
    } else {
        let j = r.1;
        if 0 <= j < src.len() && src[j] == 41 {
            Some((r.0, ws_end(src, j + 1)))
        } else {
            Some((r.0, j))
        }
    }
}

proof fn lemma_spec_identifier_list_bounds(src: Seq<u8>, i: int)
    ensures
        spec_identifier_list(src, i) matches Some(t) ==> 0 <= i && i < t.1 <= src.len(),
{
    let i1 = if 0 <= i < src.len() && src[i] == 40 {
        i + 1
    } else {
        i
    };
    lemma_spec_identifier_bounds(src, i1);
    if spec_identifier_list(src, i) is Some {
        if spec_identifier(src, i1) is None {
            assert(spec_identifier_list_loop(src, i1, Seq::empty()) == (
                Seq::<Seq<u8>>::empty(),
                i1,
            ));
        } else {
            lemma_identifier_list_loop_bounds(src, i1, Seq::empty());
            let j = spec_identifier_list_loop(src, i1, Seq::empty()).1;
            if 0 <= j < src.len() && src[j] == 41 {
                lemma_ws_end_bounds(src, j + 1);
            }
        }
    }
}

/// The relative-origin rule: zero or more leading dots, then a dotted
/// path if one follows.  With no path and no dots there is no match; with
/// dots alone the origin is unnamed.
pub open spec fn spec_relative_module(src: Seq<u8>, i: int) -> Option<(RelativeModuleV, int)> {
    let d = dots_end(src, i);
    match spec_module_path(src, d) {
        Some(p) => Some((RelativeModuleV::Named { level: (d - i) as nat, path: p.0 }, p.1)),
        None => if d == i {
            None
        } else {
            Some((RelativeModuleV::Unnamed { level: (d - i) as nat }, d))
        },
    }
}

proof fn lemma_spec_relative_module_bounds(src: Seq<u8>, i: int)
    ensures
        spec_relative_module(src, i) matches Some(t) ==> 0 <= i && i < t.1 <= src.len(),
{
    if spec_relative_module(src, i) is Some {
        if !(0 <= i <= src.len()) {
            assert(dots_end(src, i) == i);
            lemma_spec_module_path_bounds(src, i);
        } else {
            lemma_dots_end_bounds(src, i);
            lemma_spec_module_path_bounds(src, dots_end(src, i));
        }
    }
}

/// The import-statement rule, with its two top-level alternatives:
/// `import` and a module list, or `from`, an origin, `import`, and either
/// `*` or an identifier list; each followed by an optional comment and
/// trailing whitespace.  Any inner failure is no match for the whole
/// statement.
pub open spec fn spec_import(src: Seq<u8>, i: int) -> Option<(ImportV, int)> {
    if spec_lit(src, i, import_kw()) {
        let i2 = ws_end(src, i + 6);
        match spec_module_list(src, i2) {
            None => None,
            Some(ms) => {
                let k = ws_end(src, ms.1);
                let c = spec_opt_comment(src, k);
                Some((ImportV::Absolute { modules: ms.0, comment: c.0 }, ws_end(src, c.1)))
            },
        }
    } else if spec_lit(src, i, from_kw()) {
        let i2 = ws_end(src, i + 4);
        match spec_relative_module(src, i2) {
            None => None,
            Some(f) => {
                let k = ws_end(src, f.1);
                if !spec_lit(src, k, import_kw()) {
                    None
                } else {
                    let m = ws_end(src, k + 6);
                    if 0 <= m < src.len() && src[m] == 42 {
                        let w = ws_end(src, m + 1);
                        let c = spec_opt_comment(src, w);
                        Some((ImportV::Wildcard { from: f.0, comment: c.0 }, ws_end(src, c.1)))
                    } else {
                        match spec_identifier_list(src, m) {
                            None => None,
                            Some(ids) => {
                                let w = ws_end(src, ids.1);
                                let c = spec_opt_comment(src, w);
                                Some((
                                    ImportV::Relative {
                                        from: f.0,
                                        identifiers: ids.0,
                                        comment: c.0,
                                    },
                                    ws_end(src, c.1),
                                ))
                            },
                        }
                    }
                }
            },
        }
    } else {
        None
    }
}

proof fn lemma_spec_import_bounds(src: Seq<u8>, i: int)
    ensures
        spec_import(src, i) matches Some(t) ==> 0 <= i && i < t.1 <= src.len(),
{
    if spec_import(src, i) is Some {
        if spec_lit(src, i, import_kw()) {
            lemma_ws_end_bounds(src, i + 6);
            let i2 = ws_end(src, i + 6);
            lemma_spec_module_list_bounds(src, i2);
            match spec_module_list(src, i2) {
                Some(ms) => {
                    lemma_ws_end_bounds(src, ms.1);
                    let k = ws_end(src, ms.1);
                    lemma_spec_opt_comment_bounds(src, k);
                    lemma_ws_end_bounds(src, spec_opt_comment(src, k).1);
                },
                None => {},
            }
        } else if spec_lit(src, i, from_kw()) {
            lemma_ws_end_bounds(src, i + 4);
            let i2 = ws_end(src, i + 4);
            lemma_spec_relative_module_bounds(src, i2);
            match spec_relative_module(src, i2) {
                Some(f) => {
                    lemma_ws_end_bounds(src, f.1);
                    let k = ws_end(src, f.1);
                    if spec_lit(src, k, import_kw()) {
                        lemma_ws_end_bounds(src, k + 6);
                        let m = ws_end(src, k + 6);
                        if 0 <= m < src.len() && src[m] == 42 {
                            lemma_ws_end_bounds(src, m + 1);
                            let w = ws_end(src, m + 1);
                            lemma_spec_opt_comment_bounds(src, w);
                            lemma_ws_end_bounds(src, spec_opt_comment(src, w).1);
                        } else {
                            lemma_spec_identifier_list_bounds(src, m);
                            match spec_identifier_list(src, m) {
                                Some(ids) => {
                                    lemma_ws_end_bounds(src, ids.1);
                                    let w = ws_end(src, ids.1);
                                    lemma_spec_opt_comment_bounds(src, w);
                                    lemma_ws_end_bounds(src, spec_opt_comment(src, w).1);
                                },
                                None => {},
                            }
                        }
                    }
                },
                None => {},
            }
        }
    }
}

/// The program rule: import statements separated by whitespace, until one
/// fails to match.  `rest` tracks the position right after the last
/// recognized statement; it never fails, and zero statements leave `rest`
/// where it started.
pub open spec fn spec_program_loop(src: Seq<u8>, i: int, acc: Seq<ImportV>, rest: int) -> (
    Seq<ImportV>,
    int,
)
    decreases src.len() - i,
    via spec_program_loop_dec
{
    match spec_import(src, i) {
        None => (acc, rest),
        Some(im) => spec_program_loop(src, ws_end(src, im.1), acc.push(im.0), im.1),
    }
}

#[via_fn]
proof fn spec_program_loop_dec(src: Seq<u8>, i: int, acc: Seq<ImportV>, rest: int) {
    lemma_spec_import_bounds(src, i);
    match spec_import(src, i) {
        Some(im) => {
            lemma_ws_end_bounds(src, im.1);
        },
        None => {},
    }
}

/// The whole recognized block: leading whitespace, then the program rule.
/// Yields the statements in order of appearance and the block-end
/// position.
pub open spec fn spec_program(src: Seq<u8>, i: int, rest0: int) -> (Seq<ImportV>, int) {
    spec_program_loop(src, ws_end(src, i), Seq::empty(), rest0)
}

/// Parser state: the cursor and the end of the recognized import block.
#[derive(Debug)]
pub struct Ps {
    pub i: usize,
    pub rest: usize,
}

impl Ps {
    /// A fresh state at the start of the buffer.
    pub fn new() -> (r: Ps)
        ensures
            r.i == 0,
            r.rest == 0,
    {
        Ps { i: 0, rest: 0 }
    }
}

/// The parser: an immutable byte buffer; all cursor state lives in `Ps`.
#[derive(Debug)]
pub struct Pd {
    src: Vec<u8>,
}

impl View for Pd {
    type V = Seq<u8>;

    closed spec fn view(&self) -> Seq<u8> {
        self.src@
    }
}

/// Copies the bytes of `v` between `a` and `b`.
fn subvec(v: &Vec<u8>, a: usize, b: usize) -> (r: Vec<u8>)
    requires
        a <= b <= v@.len(),
    ensures
        r@ == v@.subrange(a as int, b as int),
{
    let mut r: Vec<u8> = Vec::new();
    proof {
        assert(r@ =~= v@.subrange(a as int, a as int));
    }
    let mut k: usize = a;
    while k < b
        invariant
            a <= k <= b <= v@.len(),
            r@ == v@.subrange(a as int, k as int),
        decreases b - k,
    {
        r.push(v[k]);
        proof {
            assert(r@ =~= v@.subrange(a as int, k + 1 as int));
        }
        k = k + 1;
    }
    r
}

/// The spelling `import`, as bytes.
fn kw_import() -> (r: Vec<u8>)
    ensures
        r@ == import_kw(),
{
    let r: Vec<u8> = vec![105u8, 109u8, 112u8, 111u8, 114u8, 116u8];
    proof {
        assert(r@ =~= import_kw());
    }
    r
}

/// The spelling `from`, as bytes.
fn kw_from() -> (r: Vec<u8>)
    ensures
        r@ == from_kw(),
{
    let r: Vec<u8> = vec![102u8, 114u8, 111u8, 109u8];
    proof {
        assert(r@ =~= from_kw());
    }
    r
}

/// The spelling `as`, as bytes.
fn kw_as() -> (r: Vec<u8>)
    ensures
        r@ == as_kw(),
{
    let r: Vec<u8> = vec![97u8, 115u8];
    proof {
        assert(r@ =~= as_kw());
    }
    r
}

impl Pd {
    /// A parser over the given buffer.
    pub fn new(src: Vec<u8>) -> (r: Pd)
        ensures
            r@ == src@,
    {
        Pd { src }
    }

    /// Whether the identifier run continues at position `j`.
    fn is_ident_at(&self, j: usize) -> (r: bool)
        ensures
            r == (j < self@.len() && is_ident_byte(self@[j as int])),
    {
        if j >= self.src.len() {
            return false;
        }
        let c = self.src[j];
        c == 95 || (48 <= c && c <= 57) || (65 <= c && c <= 90) || (97 <= c && c <= 122)
    }

    /// Matches the exact bytes of `pattern` at the cursor, advancing past
    /// them on success and leaving the cursor untouched on failure.
    fn string(&self, s: &mut Ps, pattern: &Vec<u8>) -> (r: bool)
        requires
            old(s).i <= self@.len(),
        ensures
            r == spec_lit(self@, old(s).i as int, pattern@),
            r ==> final(s).i as int == old(s).i + pattern@.len(),
            !r ==> final(s).i == old(s).i,
            final(s).rest == old(s).rest,
            final(s).i <= self@.len(),
    {
        let n = self.src.len();
        if pattern.len() > n - s.i {
            return false;
        }
        let mut k: usize = 0;
        while k < pattern.len()
            invariant
                0 <= k <= pattern@.len(),
                n == self@.len(),
                s.i + pattern@.len() <= n,
                s == old(s),
                forall|j: int| 0 <= j < k ==> self@[old(s).i + j] == pattern@[j],
            decreases pattern@.len() - k,
        {
            if self.src[s.i + k] != pattern[k] {
                proof {
                    let i0 = old(s).i as int;
                    let pl = pattern@.len() as int;
                    if spec_lit(self@, i0, pattern@) {
                        assert(self@.subrange(i0, i0 + pl)[k as int] == pattern@[k as int]);
                    }
                }
                return false;
            }
            k = k + 1;
        }
        proof {
            assert(self@.subrange(old(s).i as int, old(s).i + pattern@.len()) =~= pattern@);
        }
        s.i = s.i + pattern.len();
        true
    }

    /// Matches one exact byte at the cursor, advancing past it on success.
    fn byte(&self, s: &mut Ps, b: u8) -> (r: bool)
        requires
            old(s).i <= self@.len(),
        ensures
            r == (old(s).i < self@.len() && self@[old(s).i as int] == b),
            r ==> final(s).i == old(s).i + 1,
            !r ==> final(s).i == old(s).i,
            final(s).rest == old(s).rest,
            final(s).i <= self@.len(),
    {
        if s.i < self.src.len() && self.src[s.i] == b {
            s.i = s.i + 1;
            true
        } else {
            false
        }
    }

    /// Consumes the maximal run of spaces and newlines at the cursor.
    fn whitespace(&self, s: &mut Ps)
        requires
            old(s).i <= self@.len(),
        ensures
            final(s).i as int == ws_end(self@, old(s).i as int),
            final(s).i >= old(s).i,
            final(s).rest == old(s).rest,
            final(s).i <= self@.len(),
    {
        loop
            invariant
                old(s).i <= s.i <= self@.len(),
                s.rest == old(s).rest,
                ws_end(self@, old(s).i as int) == ws_end(self@, s.i as int),
            decreases self@.len() - s.i,
        {
            if s.i >= self.src.len() {
                return ;
            }
            let c = self.src[s.i];
            if !(c == 32 || c == 10) {
                return ;
            }
            s.i = s.i + 1;
        }
    }

    /// The identifier rule: the maximal nonempty run of identifier bytes
    /// at the cursor.
    fn identifier(&self, s: &mut Ps) -> (r: Option<Token>)
        requires
            old(s).i <= self@.len(),
        ensures
            final(s).rest == old(s).rest,
            final(s).i <= self@.len(),
            match spec_identifier(self@, old(s).i as int) {
                Some(t) => r matches Some(tok) && tok@ == t.0 && tok.i == old(s).i && final(s).i as int
                    == t.1,
                None => r is None && final(s).i == old(s).i,
            },
    {
        let start = s.i;
        let mut j: usize = s.i;
        while j < self.src.len() && self.is_ident_at(j)
            invariant
                start <= j <= self@.len(),
                ident_end(self@, start as int) == ident_end(self@, j as int),
            decreases self@.len() - j,
        {
            j = j + 1;
        }
        if j == start {
            return None;
        }
        s.i = j;
        Some(Token { slice: subvec(&self.src, start, j), i: start })
    }

    /// The comment rule: from a `#` through the next newline or the end
    /// of the buffer; the token excludes the terminating newline.
    fn comment(&self, s: &mut Ps) -> (r: Option<Token>)
        requires
            old(s).i <= self@.len(),
        ensures
            final(s).rest == old(s).rest,
            final(s).i <= self@.len(),
            match spec_comment(self@, old(s).i as int) {
                Some(t) => r matches Some(tok) && tok@ == t.0 && tok.i == old(s).i && final(s).i as int
                    == t.1,
                None => r is None && final(s).i == old(s).i,
            },
    {
        if !(s.i < self.src.len() && self.src[s.i] == 35) {
            return None;
        }
        let start = s.i;
        let mut j: usize = s.i;
        while j < self.src.len() && self.src[j] != 10
            invariant
                start <= j <= self@.len(),
                nl_end(self@, start as int) == nl_end(self@, j as int),
            decreases self@.len() - j,
        {
            j = j + 1;
        }
        let tok = Token { slice: subvec(&self.src, start, j), i: start };
        if j < self.src.len() {
            s.i = j + 1;
        } else {
            s.i = j;
        }
        Some(tok)
    }

    /// The dotted-path rule: one or more identifiers separated by dots.
    fn dotted_path(&self, s: &mut Ps) -> (r: Option<Vec<Token>>)
        requires
            old(s).i <= self@.len(),
        ensures
            final(s).rest == old(s).rest,
            final(s).i <= self@.len(),
            match spec_module_path(self@, old(s).i as int) {
                Some(t) => r matches Some(p) && view_tokens(p@) == t.0 && final(s).i as int == t.1,
                None => r is None && final(s).i == old(s).i,
            },
    {
        let ghost i0 = old(s).i as int;
        let mut path: Vec<Token> = Vec::new();
        proof {
            assert(view_tokens(path@) =~= Seq::<Seq<u8>>::empty());
        }
        loop
            invariant_except_break
                s.i <= self@.len(),
                s.rest == old(s).rest,
                spec_module_path_loop(self@, i0, Seq::empty()) == spec_module_path_loop(
                    self@,
                    s.i as int,
                    view_tokens(path@),
                ),
                path@.len() == 0 ==> s.i as int == i0,
            ensures
                s.i <= self@.len(),
                s.rest == old(s).rest,
                spec_module_path_loop(self@, i0, Seq::empty()) == (view_tokens(path@), s.i as int),
                path@.len() == 0 ==> s.i as int == i0,
            decreases self@.len() - s.i,
        {
            let ghost i_head = s.i as int;
            let ghost acc_head = view_tokens(path@);
            match self.identifier(s) {
                None => {
                    break ;
                },
                Some(tok) => {
                    proof {
                        lemma_spec_identifier_bounds(self@, i_head);
                    }
                    self.whitespace(s);
                    let ghost tv = tok@;
                    path.push(tok);
                    proof {
                        assert(view_tokens(path@) =~= acc_head.push(tv));
                    }
                    if !self.byte(s, 46) {
                        break ;
                    }
                    self.whitespace(s);
                },
            }
        }
        if path.len() == 0 {
            return None;
        }
        Some(path)
    }

    /// The module rule: a dotted path, then optionally `as` and an alias.
    fn module(&self, s: &mut Ps) -> (r: Option<Module>)
        requires
            old(s).i <= self@.len(),
        ensures
            final(s).rest == old(s).rest,
            final(s).i <= self@.len(),
            match spec_module(self@, old(s).i as int) {
                Some(t) => r matches Some(m) && m@ == t.0 && final(s).i as int == t.1,
                None => r is None && final(s).i == old(s).i,
            },
    {
        let start = s.i;
        let path = match self.dotted_path(s) {
            None => {
                return None;
            },
            Some(p) => p,
        };
        self.whitespace(s);
        let kw = kw_as();
        if self.string(s, &kw) {
            self.whitespace(s);
            match self.identifier(s) {
                None => {
                    s.i = start;
                    None
                },
                Some(alias) => Some(Module { path, alias: Some(alias) }),
            }
        } else {
            Some(Module { path, alias: None })
        }
    }

    /// The module-list rule: comma-separated modules with optional
    /// parentheses; a trailing comma stops the list.
    fn module_list(&self, s: &mut Ps) -> (r: Option<ModuleList>)
        requires
            old(s).i <= self@.len(),
        ensures
            final(s).rest == old(s).rest,
            final(s).i <= self@.len(),
            match spec_module_list(self@, old(s).i as int) {
                Some(t) => r matches Some(ms) && ms@ == t.0 && final(s).i as int == t.1,
                None => r is None && final(s).i == old(s).i,
            },
    {
        let start = s.i;
        self.byte(s, 40);
        let ghost i1 = s.i as int;
        let mut modules = ModuleList::new();
        loop
            invariant_except_break
                s.i <= self@.len(),
                s.rest == old(s).rest,
                spec_module_list_loop(self@, i1, Seq::empty()) == spec_module_list_loop(
                    self@,
                    s.i as int,
                    modules@,
                ),
                modules@.len() == 0 ==> s.i as int == i1,
            ensures
                s.i <= self@.len(),
                s.rest == old(s).rest,
                spec_module_list_loop(self@, i1, Seq::empty()) == (modules@, s.i as int),
                modules@.len() == 0 ==> s.i as int == i1,
            decreases self@.len() - s.i,
        {
            let ghost i_head = s.i as int;
            match self.module(s) {
                None => {
                    break ;
                },
                Some(m) => {
                    proof {
                        lemma_spec_module_bounds(self@, i_head);
                    }
                    self.whitespace(s);
                    modules.insert(m);
                    if !self.byte(s, 44) {
                        break ;
                    }
                    self.whitespace(s);
                },
            }
        }
        if modules.is_empty() {
            s.i = start;
            return None;
        }
        if self.byte(s, 41) {
            self.whitespace(s);
        }
        Some(modules)
    }

    /// The identifier-list rule: comma-separated identifiers with
    /// optional parentheses; a trailing comma stops the list.
    fn identifier_list(&self, s: &mut Ps) -> (r: Option<IdentifierList>)
        requires
            old(s).i <= self@.len(),
        ensures
            final(s).rest == old(s).rest,
            final(s).i <= self@.len(),
            match spec_identifier_list(self@, old(s).i as int) {
                Some(t) => r matches Some(ids) && ids@ == t.0 && final(s).i as int == t.1,
                None => r is None && final(s).i == old(s).i,
            },
    {
        let start = s.i;
        self.byte(s, 40);
        let ghost i1 = s.i as int;
        let mut identifiers = IdentifierList::new();
        loop
            invariant_except_break
                s.i <= self@.len(),
                s.rest == old(s).rest,
                spec_identifier_list_loop(self@, i1, Seq::empty()) == spec_identifier_list_loop(
                    self@,
                    s.i as int,
                    identifiers@,
                ),
                identifiers@.len() == 0 ==> s.i as int == i1,
            ensures
                s.i <= self@.len(),
                s.rest == old(s).rest,
                spec_identifier_list_loop(self@, i1, Seq::empty()) == (identifiers@, s.i as int),
                identifiers@.len() == 0 ==> s.i as int == i1,
            decreases self@.len() - s.i,
        {
            let ghost i_head = s.i as int;
            match self.identifier(s) {
                None => {
                    break ;
                },
                Some(t) => {
                    proof {
                        lemma_spec_identifier_bounds(self@, i_head);
                    }
                    self.whitespace(s);
                    identifiers.insert(t);
                    if !self.byte(s, 44) {
                        break ;
                    }
                    self.whitespace(s);
                },
            }
        }
        if identifiers.is_empty() {
            s.i = start;
            return None;
        }
        if self.byte(s, 41) {
            self.whitespace(s);
        }
        Some(identifiers)
    }

    /// The relative-origin rule: leading dots, then a dotted path if one
    /// follows.
    fn relative_module(&self, s: &mut Ps) -> (r: Option<RelativeModule>)
        requires
            old(s).i <= self@.len(),
        ensures
            final(s).rest == old(s).rest,
            final(s).i <= self@.len(),
            match spec_relative_module(self@, old(s).i as int) {
                Some(t) => r matches Some(f) && f@ == t.0 && final(s).i as int == t.1,
                None => r is None && final(s).i == old(s).i,
            },
    {
        let start = s.i;
        let ghost i0 = old(s).i as int;
        loop
            invariant_except_break
                start as int == i0,
                i0 <= s.i <= self@.len(),
                s.rest == old(s).rest,
                dots_end(self@, i0) == dots_end(self@, s.i as int),
            ensures
                start as int == i0,
                i0 <= s.i <= self@.len(),
                s.rest == old(s).rest,
                dots_end(self@, i0) == s.i as int,
            decreases self@.len() - s.i,
        {
            if !self.byte(s, 46) {
                break ;
            }
        }
        let level: usize = s.i - start;
        match self.dotted_path(s) {
            Some(path) => Some(RelativeModule::Named { level, path }),
            None => {
                if level == 0 {
                    None
                } else {
                    Some(RelativeModule::Unnamed { level })
                }
            },
        }
    }

    /// The import-statement rule, with its two top-level alternatives.
    fn import(&self, s: &mut Ps) -> (r: Option<Import>)
        requires
            old(s).i <= self@.len(),
        ensures
            final(s).rest == old(s).rest,
            final(s).i <= self@.len(),
            match spec_import(self@, old(s).i as int) {
                Some(t) => r matches Some(im) && im@ == t.0 && final(s).i as int == t.1,
                None => r is None && final(s).i == old(s).i,
            },
    {
        let start = s.i;
        let kw_imp = kw_import();
        let kw_frm = kw_from();
        if self.string(s, &kw_imp) {
            self.whitespace(s);
            match self.module_list(s) {
                None => {
                    s.i = start;
                    None
                },
                Some(modules) => {
                    self.whitespace(s);
                    let comment = self.comment(s);
                    self.whitespace(s);
                    Some(Import::Absolute { modules, comment })
                },
            }
        } else if self.string(s, &kw_frm) {
            self.whitespace(s);
            let from = match self.relative_module(s) {
                None => {
                    s.i = start;
                    return None;
                },
                Some(f) => f,
            };
            self.whitespace(s);
            if !self.string(s, &kw_imp) {
                s.i = start;
                return None;
            }
            self.whitespace(s);
            if self.byte(s, 42) {
                self.whitespace(s);
                let comment = self.comment(s);
                self.whitespace(s);
                Some(Import::Wildcard { from, comment })
            } else {
                match self.identifier_list(s) {
                    None => {
                        s.i = start;
                        None
                    },
                    Some(identifiers) => {
                        self.whitespace(s);
                        let comment = self.comment(s);
                        self.whitespace(s);
                        Some(Import::Relative { from, identifiers, comment })
                    },
                }
            }
        } else {
            None
        }
    }

    /// Parses the recognized import block: statements in order of
    /// appearance, recording in `s.rest` the position right after the
    /// last recognized statement.  Never fails; zero statements yield an
    /// empty list.
    pub fn start(&self, s: &mut Ps) -> (r: Option<Vec<Import>>)
        requires
            old(s).i <= self@.len(),
            old(s).rest <= self@.len(),
        ensures
            r matches Some(imports) && view_imports(imports@) == spec_program(
                self@,
                old(s).i as int,
                old(s).rest as int,
            ).0 && final(s).rest as int == spec_program(
                self@,
                old(s).i as int,
                old(s).rest as int,
            ).1,
            final(s).rest <= self@.len(),
            final(s).i <= self@.len(),
    {
        self.whitespace(s);
        let mut imports: Vec<Import> = Vec::new();
        proof {
            assert(view_imports(imports@) =~= Seq::<ImportV>::empty());
        }
        loop
            invariant
                s.i <= self@.len(),
                s.rest <= self@.len(),
                spec_program(self@, old(s).i as int, old(s).rest as int) == spec_program_loop(
                    self@,
                    s.i as int,
                    view_imports(imports@),
                    s.rest as int,
                ),
            ensures
                s.i <= self@.len(),
                s.rest <= self@.len(),
                spec_program(self@, old(s).i as int, old(s).rest as int) == (
                    view_imports(imports@),
                    s.rest as int,
                ),
            decreases self@.len() - s.i,
        {
            let ghost i_head = s.i as int;
            let ghost acc_head = view_imports(imports@);
            match self.import(s) {
                None => {
                    break ;
                },
                Some(im) => {
                    proof {
                        lemma_spec_import_bounds(self@, i_head);
                    }
                    s.rest = s.i;
                    self.whitespace(s);
                    let ghost iv = im@;
                    imports.push(im);
                    proof {
                        assert(view_imports(imports@) =~= acc_head.push(iv));
                    }
                },
            }
        }
        Some(imports)
    }

    /// The untouched remainder: everything from the recorded block end to
    /// the end of the buffer, verbatim.
    pub fn rest(&self, s: &Ps) -> (r: Vec<u8>)
        requires
            s.rest <= self@.len(),
        ensures
            r@ == self@.subrange(s.rest as int, self@.len() as int),
    {
        subvec(&self.src, s.rest, self.src.len())
    }
}

/// The recognized block and the remainder cover the buffer: the bytes
/// before the block end followed by the bytes after it are the whole
/// buffer, with no gap and no overlap at the boundary.
pub proof fn lemma_block_coverage(src: Seq<u8>, r: int)
    requires
        0 <= r <= src.len(),
    ensures
        src.subrange(0, r) + src.subrange(r, src.len() as int) == src,
{
    assert(src.subrange(0, r) + src.subrange(r, src.len() as int) =~= src);
}

} // verus!
