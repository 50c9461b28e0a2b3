use import_sort::import::{IdentifierList, Import, Module, ModuleList, RelativeModule, Token};
use import_sort::order::{cmp_bytes_exec, cmp_import_exec, Ord3};
use import_sort::parser::{Pd, Ps};

fn token(text: &str) -> Token {
    Token { slice: text.as_bytes().to_vec(), i: 0 }
}

fn single_module(name: &str) -> ModuleList {
    let mut ml = ModuleList::new();
    ml.insert(Module { path: vec![token(name)], alias: None });
    ml
}

fn absolute(name: &str) -> Import {
    Import::Absolute { modules: single_module(name), comment: None }
}

fn relative(level: usize, path: Option<&str>, names: &[&str]) -> Import {
    let from = match path {
        Some(p) => RelativeModule::Named { level, path: vec![token(p)] },
        None => RelativeModule::Unnamed { level },
    };
    let mut ids = IdentifierList::new();
    for n in names {
        ids.insert(token(n));
    }
    Import::Relative { from, identifiers: ids, comment: None }
}

#[test]
fn byte_order_is_lexicographic() {
    assert_eq!(cmp_bytes_exec(&b"abc".to_vec(), &b"abd".to_vec()), Ord3::Lt);
    assert_eq!(cmp_bytes_exec(&b"abc".to_vec(), &b"abc".to_vec()), Ord3::Eq);
    assert_eq!(cmp_bytes_exec(&b"abc".to_vec(), &b"ab".to_vec()), Ord3::Gt);
    assert_eq!(cmp_bytes_exec(&b"".to_vec(), &b"a".to_vec()), Ord3::Lt);
}

#[test]
fn import_order_is_antisymmetric_on_values() {
    let a = absolute("os");
    let r = relative(1, None, &["x"]);
    assert_eq!(cmp_import_exec(&a, &r), Ord3::Lt);
    assert_eq!(cmp_import_exec(&r, &a), Ord3::Gt);
    assert_eq!(cmp_import_exec(&a, &a), Ord3::Eq);
}

#[test]
fn future_import_compares_first() {
    let future = relative(0, Some("__future__"), &["annotations"]);
    let abs = absolute("aaa");
    let wild = Import::Wildcard {
        from: RelativeModule::Named { level: 0, path: vec![token("__future__")] },
        comment: None,
    };
    assert_eq!(cmp_import_exec(&future, &abs), Ord3::Lt);
    assert_eq!(cmp_import_exec(&abs, &future), Ord3::Gt);
    assert_eq!(cmp_import_exec(&future, &wild), Ord3::Lt);
}

#[test]
fn is_future_checks_level_and_first_segment() {
    let f = RelativeModule::Named { level: 0, path: vec![token("__future__")] };
    let not1 = RelativeModule::Named { level: 1, path: vec![token("__future__")] };
    let not2 = RelativeModule::Named { level: 0, path: vec![token("future")] };
    let not3 = RelativeModule::Unnamed { level: 1 };
    assert!(f.is_future());
    assert!(!not1.is_future());
    assert!(!not2.is_future());
    assert!(!not3.is_future());
}

#[test]
fn identifier_set_deduplicates_and_sorts() {
    let mut ids = IdentifierList::new();
    ids.insert(token("b"));
    ids.insert(token("a"));
    ids.insert(token("b"));
    ids.insert(token("c"));
    let texts: Vec<&[u8]> = ids.items.iter().map(|t| t.slice.as_slice()).collect();
    assert_eq!(texts, vec![b"a".as_slice(), b"b".as_slice(), b"c".as_slice()]);
}

#[test]
fn token_position_does_not_affect_set_membership() {
    let mut ids = IdentifierList::new();
    ids.insert(Token { slice: b"a".to_vec(), i: 3 });
    ids.insert(Token { slice: b"a".to_vec(), i: 9 });
    assert_eq!(ids.items.len(), 1);
    assert_eq!(ids.items[0].i, 3);
}

#[test]
fn module_set_orders_by_path_then_alias() {
    let mut ml = ModuleList::new();
    ml.insert(Module { path: vec![token("a")], alias: Some(token("z")) });
    ml.insert(Module { path: vec![token("a")], alias: None });
    ml.insert(Module { path: vec![token("b")], alias: None });
    let imp = Import::Absolute { modules: ml, comment: None };
    assert_eq!(
        std::str::from_utf8(&imp.render()).unwrap(),
        "import a, a as z, b"
    );
}

#[test]
fn render_module_with_alias_and_dotted_path() {
    let imp = Import::Absolute {
        modules: {
            let mut ml = ModuleList::new();
            ml.insert(Module { path: vec![token("a"), token("b")], alias: Some(token("c")) });
            ml
        },
        comment: None,
    };
    assert_eq!(std::str::from_utf8(&imp.render()).unwrap(), "import a.b as c");
}

#[test]
fn render_wildcard_with_dots() {
    let imp = Import::Wildcard { from: RelativeModule::Unnamed { level: 2 }, comment: None };
    assert_eq!(std::str::from_utf8(&imp.render()).unwrap(), "from .. import *");
}

#[test]
fn render_named_origin_with_level() {
    let imp = relative(2, Some("pkg"), &["x"]);
    assert_eq!(std::str::from_utf8(&imp.render()).unwrap(), "from ..pkg import x");
}

#[test]
fn render_comment_after_two_spaces() {
    let imp = Import::Absolute { modules: single_module("os"), comment: Some(token("# why")) };
    assert_eq!(std::str::from_utf8(&imp.render()).unwrap(), "import os  # why");
}

#[test]
fn parse_comment_token_excludes_newline() {
    let src = "import os  # hello\nrest\n";
    let pd = Pd::new(src.as_bytes().to_vec());
    let mut ps = Ps::new();
    let imports = pd.start(&mut ps).unwrap();
    assert_eq!(imports.len(), 1);
    match &imports[0] {
        Import::Absolute { comment: Some(c), .. } => {
            assert_eq!(std::str::from_utf8(&c.slice).unwrap(), "# hello");
        },
        other => panic!("expected a commented absolute import, got {:?}", other),
    }
}

#[test]
fn parse_stops_at_unrecognized_statement() {
    let src = "import os\ndef f():\n    pass\n";
    let pd = Pd::new(src.as_bytes().to_vec());
    let mut ps = Ps::new();
    let imports = pd.start(&mut ps).unwrap();
    assert_eq!(imports.len(), 1);
    assert_eq!(std::str::from_utf8(&pd.rest(&ps)).unwrap(), "def f():\n    pass\n");
}

#[test]
fn parse_from_without_dots_or_path_fails() {
    let src = "from import x\n";
    let pd = Pd::new(src.as_bytes().to_vec());
    let mut ps = Ps::new();
    let imports = pd.start(&mut ps).unwrap();
    assert_eq!(imports.len(), 0);
    assert_eq!(pd.rest(&ps), src.as_bytes().to_vec());
}

#[test]
fn parse_identifier_may_start_with_digit() {
    let src = "import 0x\n";
    let pd = Pd::new(src.as_bytes().to_vec());
    let mut ps = Ps::new();
    let imports = pd.start(&mut ps).unwrap();
    assert_eq!(imports.len(), 1);
    assert_eq!(std::str::from_utf8(&imports[0].render()).unwrap(), "import 0x");
}

#[test]
fn parse_wildcard_statement() {
    let src = "from a.b import *  # glob\nx\n";
    let pd = Pd::new(src.as_bytes().to_vec());
    let mut ps = Ps::new();
    let imports = pd.start(&mut ps).unwrap();
    assert_eq!(imports.len(), 1);
    assert_eq!(
        std::str::from_utf8(&imports[0].render()).unwrap(),
        "from a.b import *  # glob"
    );
}

#[test]
fn parse_parenthesized_identifier_list() {
    let src = "from .m import (b, a)\nx\n";
    let pd = Pd::new(src.as_bytes().to_vec());
    let mut ps = Ps::new();
    let imports = pd.start(&mut ps).unwrap();
    assert_eq!(imports.len(), 1);
    assert_eq!(
        std::str::from_utf8(&imports[0].render()).unwrap(),
        "from .m import a, b"
    );
}
