//! The renderer: the deterministic textual form of each import, given
//! both as specification functions over the views and as executable
//! methods whose results are pinned to them byte for byte.

use vstd::prelude::*;

use crate::import::Import;
use crate::import::ImportV;
use crate::import::IdentifierList;
use crate::import::Module;
use crate::import::ModuleList;
use crate::import::ModuleV;
use crate::import::RelativeModule;
use crate::import::RelativeModuleV;
use crate::import::Token;
use crate::import::view_opt_token;
use crate::import::view_tokens;
use crate::parser::import_kw;
use crate::parser::from_kw;
use crate::parser::as_kw;

verus! {

/// `n` literal dots.
pub open spec fn dots(n: nat) -> Seq<u8>
    decreases n,
{
    if n == 0 {
        Seq::empty()
    } else {
        dots((n - 1) as nat).push(46u8)
    }
}

/// The first `k` segments of a dotted path, joined by dots.
pub open spec fn dotted_upto(p: Seq<Seq<u8>>, k: int) -> Seq<u8>
    decreases k,
{
    if k <= 0 {
        Seq::empty()
    } else if k == 1 {
        p[0]
    } else {
        dotted_upto(p, k - 1) + seq![46u8] + p[k - 1]
    }
}

/// A dotted path: its segments joined by dots.
pub open spec fn render_dotted(p: Seq<Seq<u8>>) -> Seq<u8> {
    dotted_upto(p, p.len() as int)
}

/// The spelling ` as `.
pub open spec fn as_sep() -> Seq<u8> {
    seq![32u8, 97u8, 115u8, 32u8]
}

/// The spelling `, `.
pub open spec fn comma_sep() -> Seq<u8> {
    seq![44u8, 32u8]
}

/// A module: its dotted path, then ` as ` and the alias if one is
/// present.
pub open spec fn render_module(m: ModuleV) -> Seq<u8> {
    match m.alias {
        None => render_dotted(m.path),
        Some(a) => render_dotted(m.path) + as_sep() + a,
    }
}

/// The first `k` modules of a set, rendered and joined by `, `.
pub open spec fn mods_upto(ms: Seq<ModuleV>, k: int) -> Seq<u8>
    decreases k,
{
    if k <= 0 {
        Seq::empty()
    } else if k == 1 {
        render_module(ms[0])
    } else {
        mods_upto(ms, k - 1) + comma_sep() + render_module(ms[k - 1])
    }
}

/// A module set: its modules in set order, joined by `, `.
pub open spec fn render_modules(ms: Seq<ModuleV>) -> Seq<u8> {
    mods_upto(ms, ms.len() as int)
}

/// The first `k` identifiers of a set, joined by `, `.
pub open spec fn idents_upto(ids: Seq<Seq<u8>>, k: int) -> Seq<u8>
    decreases k,
{
    if k <= 0 {
        Seq::empty()
    } else if k == 1 {
        ids[0]
    } else {
        idents_upto(ids, k - 1) + comma_sep() + ids[k - 1]
    }
}

/// An identifier set: its identifiers in set order, joined by `, `.
pub open spec fn render_identifiers(ids: Seq<Seq<u8>>) -> Seq<u8> {
    idents_upto(ids, ids.len() as int)
}

/// A relative origin: its dots, then the dotted path if it has one.
pub open spec fn render_rel(f: RelativeModuleV) -> Seq<u8> {
    match f {
        RelativeModuleV::Named { level, path } => dots(level) + render_dotted(path),
        RelativeModuleV::Unnamed { level } => dots(level),
    }
}

/// An optional trailing comment: two spaces and the comment's text, or
/// nothing.
pub open spec fn render_comment(c: Option<Seq<u8>>) -> Seq<u8> {
    match c {
        None => Seq::empty(),
        Some(t) => seq![32u8, 32u8] + t,
    }
}

/// An import statement's textual form.
pub open spec fn render_import(v: ImportV) -> Seq<u8> {
    match v {
        ImportV::Absolute { modules, comment } => import_kw() + seq![32u8] + render_modules(modules)
            + render_comment(comment),
        ImportV::Relative { from, identifiers, comment } => from_kw() + seq![32u8] + render_rel(from)
            + seq![32u8] + import_kw() + seq![32u8] + render_identifiers(identifiers)
            + render_comment(comment),
        ImportV::Wildcard { from, comment } => from_kw() + seq![32u8] + render_rel(from) + seq![32u8]
            + import_kw() + seq![32u8] + seq![42u8] + render_comment(comment),
    }
}

/// Appends all bytes of `bytes` to `out`.
fn push_all(out: &mut Vec<u8>, bytes: &Vec<u8>)
    ensures
        final(out)@ == old(out)@ + bytes@,
{
    let ghost start = out@;
    let mut k: usize = 0;
    proof {
        assert(out@ =~= start + bytes@.take(0));
    }
    while k < bytes.len()
        invariant
            0 <= k <= bytes@.len(),
            out@ == start + bytes@.take(k as int),
        decreases bytes@.len() - k,
    {
        out.push(bytes[k]);
        proof {
            assert((start + bytes@.take(k as int)).push(bytes@[k as int]) =~= start + bytes@.take(
                k + 1,
            ));
        }
        k = k + 1;
    }
    proof {
        assert(start + bytes@.take(bytes@.len() as int) =~= start + bytes@);
    }
}

/// Appends the rendering of an optional comment to `out`.
fn push_comment(out: &mut Vec<u8>, comment: &Option<Token>)
    ensures
        final(out)@ == old(out)@ + render_comment(view_opt_token(*comment)),
{
    match comment {
        None => {
            proof {
                assert(out@ =~= out@ + render_comment(None));
            }
        },
        Some(tok) => {
            let ghost start = out@;
            out.push(32u8);
            out.push(32u8);
            push_all(out, &tok.slice);
            proof {
                assert(start.push(32u8).push(32u8) + tok@ =~= start + render_comment(
                    Some(tok@),
                ));
            }
        },
    }
}

/// Renders a dotted path: the token texts joined by dots.
#[verifier::loop_isolation(false)]
fn render_dotted_exec(path: &Vec<Token>) -> (r: Vec<u8>)
    ensures
        r@ == render_dotted(view_tokens(path@)),
{
    let ghost p = view_tokens(path@);
    let mut out: Vec<u8> = Vec::new();
    let mut k: usize = 0;
    proof {
        assert(out@ =~= dotted_upto(p, 0));
    }
    while k < path.len()
        invariant
            0 <= k <= path@.len(),
            p.len() == path@.len(),
            out@ == dotted_upto(p, k as int),
        decreases path@.len() - k,
    {
        let ghost before = out@;
        if k > 0 {
            out.push(46u8);
        }
        push_all(&mut out, &path[k].slice);
        proof {
            assert(path@[k as int]@ == p[k as int]);
            if k == 0 {
                assert(out@ =~= dotted_upto(p, 1));
            } else {
                assert(before.push(46u8) + p[k as int] =~= before + seq![46u8] + p[k as int]);
            }
        }
        k = k + 1;
    }
    out
}

impl Module {
    /// This module's textual form: the dotted path, then ` as ` and the
    /// alias if one is present.
    pub fn render(&self) -> (r: Vec<u8>)
        ensures
            r@ == render_module(self@),
    {
        let mut out = render_dotted_exec(&self.path);
        match &self.alias {
            None => {},
            Some(tok) => {
                let ghost start = out@;
                out.push(32u8);
                out.push(97u8);
                out.push(115u8);
                out.push(32u8);
                push_all(&mut out, &tok.slice);
                proof {
                    assert(start.push(32u8).push(97u8).push(115u8).push(32u8) + tok@ =~= start
                        + as_sep() + tok@);
                }
            },
        }
        out
    }
}

impl RelativeModule {
    /// This origin's textual form: its dots, then the dotted path if it
    /// has one.
    #[verifier::loop_isolation(false)]
    pub fn render(&self) -> (r: Vec<u8>)
        ensures
            r@ == render_rel(self@),
    {
        let level = match self {
            RelativeModule::Named { level, .. } => *level,
            RelativeModule::Unnamed { level } => *level,
        };
        let mut out: Vec<u8> = Vec::new();
        let mut k: usize = 0;
        proof {
            assert(out@ =~= dots(0));
        }
        while k < level
            invariant
                0 <= k <= level,
                out@ == dots(k as nat),
            decreases level - k,
        {
            out.push(46u8);
            k = k + 1;
        }
        match self {
            RelativeModule::Named { path, .. } => {
                let ghost start = out@;
                let piece = render_dotted_exec(path);
                push_all(&mut out, &piece);
            },
            RelativeModule::Unnamed { .. } => {},
        }
        out
    }
}

impl ModuleList {
    /// The set's textual form: its modules in set order, joined by `, `.
    #[verifier::loop_isolation(false)]
    pub fn render(&self) -> (r: Vec<u8>)
        ensures
            r@ == render_modules(self@),
    {
        let mut out: Vec<u8> = Vec::new();
        let mut k: usize = 0;
        proof {
            assert(out@ =~= mods_upto(self@, 0));
        }
        while k < self.items.len()
            invariant
                0 <= k <= self.items@.len(),
                self@.len() == self.items@.len(),
                out@ == mods_upto(self@, k as int),
            decreases self.items@.len() - k,
        {
            let ghost before = out@;
            if k > 0 {
                out.push(44u8);
                out.push(32u8);
            }
            let piece = self.items[k].render();
            push_all(&mut out, &piece);
            proof {
                assert(self.items@[k as int]@ == self@[k as int]);
                if k == 0 {
                    assert(out@ =~= mods_upto(self@, 1));
                } else {
                    assert(before.push(44u8).push(32u8) + piece@ =~= before + comma_sep()
                        + piece@);
                }
            }
            k = k + 1;
        }
        out
    }
}

impl IdentifierList {
    /// The set's textual form: its identifiers in set order, joined by
    /// `, `.
    #[verifier::loop_isolation(false)]
    pub fn render(&self) -> (r: Vec<u8>)
        ensures
            r@ == render_identifiers(self@),
    {
        let mut out: Vec<u8> = Vec::new();
        let mut k: usize = 0;
        proof {
            assert(out@ =~= idents_upto(self@, 0));
        }
        while k < self.items.len()
            invariant
                0 <= k <= self.items@.len(),
                self@.len() == self.items@.len(),
                out@ == idents_upto(self@, k as int),
            decreases self.items@.len() - k,
        {
            let ghost before = out@;
            if k > 0 {
                out.push(44u8);
                out.push(32u8);
            }
            push_all(&mut out, &self.items[k].slice);
            proof {
                assert(self.items@[k as int]@ == self@[k as int]);
                if k == 0 {
                    assert(out@ =~= idents_upto(self@, 1));
                } else {
                    assert(before.push(44u8).push(32u8) + self@[k as int] =~= before + comma_sep()
                        + self@[k as int]);
                }
            }
            k = k + 1;
        }
        out
    }
}

/// The spelling `import `, as bytes.
fn kw_import_sp() -> (r: Vec<u8>)
    ensures
        r@ == import_kw() + seq![32u8],
{
    let r: Vec<u8> = vec![105u8, 109u8, 112u8, 111u8, 114u8, 116u8, 32u8];
    proof {
        assert(r@ =~= import_kw() + seq![32u8]);
    }
    r
}

/// The spelling `from `, as bytes.
fn kw_from_sp() -> (r: Vec<u8>)
    ensures
        r@ == from_kw() + seq![32u8],
{
    let r: Vec<u8> = vec![102u8, 114u8, 111u8, 109u8, 32u8];
    proof {
        assert(r@ =~= from_kw() + seq![32u8]);
    }
    r
}

impl Import {
    /// This statement's textual form, one line without a newline.
    pub fn render(&self) -> (r: Vec<u8>)
        ensures
            r@ == render_import(self@),
    {
        let mut out: Vec<u8> = Vec::new();
        match self {
            Import::Absolute { modules, comment } => {
                let kw = kw_import_sp();
                push_all(&mut out, &kw);
                let ms = modules.render();
                push_all(&mut out, &ms);
                push_comment(&mut out, comment);
                proof {
                    assert(out@ =~= render_import(self@));
                }
            },
            Import::Relative { from, identifiers, comment } => {
                let kw1 = kw_from_sp();
                push_all(&mut out, &kw1);
                let org = from.render();
                push_all(&mut out, &org);
                out.push(32u8);
                let kw2 = kw_import_sp();
                push_all(&mut out, &kw2);
                let ids = identifiers.render();
                push_all(&mut out, &ids);
                push_comment(&mut out, comment);
                proof {
                    assert(out@ =~= render_import(self@));
                }
            },
            Import::Wildcard { from, comment } => {
                let kw1 = kw_from_sp();
                push_all(&mut out, &kw1);
                let org = from.render();
                push_all(&mut out, &org);
                out.push(32u8);
                let kw2 = kw_import_sp();
                push_all(&mut out, &kw2);
                out.push(42u8);
                push_comment(&mut out, comment);
                proof {
                    assert(out@ =~= render_import(self@));
                }
            },
        }
        out
    }
}

} // verus!
