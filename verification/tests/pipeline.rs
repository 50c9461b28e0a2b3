use import_sort::parser::{Pd, Ps};
use import_sort::transformers::{combine_relative_imports, separate_absolute_imports, sort_imports};

/// Runs the whole pipeline as a caller would: parse, seed the mandatory
/// future import, merge, split, sort, render, and append the remainder
/// after two blank lines.
fn run_pipeline(src: &str) -> String {
    let pd = Pd::new(src.as_bytes().to_vec());
    let mut ps = Ps::new();
    let mut imports = pd.start(&mut ps).unwrap();
    let seed_pd = Pd::new("from __future__ import annotations".as_bytes().to_vec());
    let mut seed_ps = Ps::new();
    let seed = seed_pd.start(&mut seed_ps).unwrap();
    imports.extend(seed);
    combine_relative_imports(&mut imports);
    separate_absolute_imports(&mut imports);
    sort_imports(&mut imports);
    let mut out = String::new();
    for i in &imports {
        out.push_str(std::str::from_utf8(&i.render()).unwrap());
        out.push('\n');
    }
    out.push_str("\n\n");
    out.push_str(std::str::from_utf8(&pd.rest(&ps)).unwrap());
    out
}

#[test]
fn full_example() {
    let src = "import os\nimport sys, re\nfrom . import a, b\nfrom . import c\n\nprint(\"hi\")\n";
    let expected = "from __future__ import annotations\n\
                    import os\n\
                    import re\n\
                    import sys\n\
                    from . import a, b, c\n\
                    \n\n\
                    print(\"hi\")\n";
    assert_eq!(run_pipeline(src), expected);
}

#[test]
fn no_imports() {
    assert_eq!(run_pipeline("x = 1\n"), "from __future__ import annotations\n\n\nx = 1\n");
}

#[test]
fn empty_input() {
    assert_eq!(run_pipeline(""), "from __future__ import annotations\n\n\n");
}

#[test]
fn wildcards_never_merge() {
    let src = "from .pkg import *\nfrom .pkg import *\nx = 1\n";
    let pd = Pd::new(src.as_bytes().to_vec());
    let mut ps = Ps::new();
    let mut imports = pd.start(&mut ps).unwrap();
    combine_relative_imports(&mut imports);
    let wildcards = imports
        .iter()
        .filter(|i| matches!(i, import_sort::import::Import::Wildcard { .. }))
        .count();
    assert_eq!(wildcards, 2);
    assert_eq!(imports.len(), 2);
}

#[test]
fn pipeline_idempotent() {
    let src = "import os\nimport sys, re\nfrom . import a, b\nfrom . import c\n\nprint(\"hi\")\n";
    let once = run_pipeline(src);
    let twice = run_pipeline(&once);
    assert_eq!(twice, once);
}

#[test]
fn pipeline_idempotent_wildcards_and_aliases() {
    let src = "import numpy as np\nfrom .. import *\nfrom . import a  # keep\ny = 2\n";
    let once = run_pipeline(src);
    assert_eq!(run_pipeline(&once), once);
}

#[test]
fn permuted_input_same_sorted_output() {
    let a = "import os\nimport re\nfrom . import a\nrest\n";
    let b = "from . import a\nimport re\nimport os\nrest\n";
    assert_eq!(run_pipeline(a), run_pipeline(b));
}

#[test]
fn future_sorts_before_absolutes() {
    let src = "import aaa\nfrom __future__ import annotations\nx\n";
    let out = run_pipeline(src);
    let future_pos = out.find("from __future__").unwrap();
    let abs_pos = out.find("import aaa").unwrap();
    assert!(future_pos < abs_pos);
}

#[test]
fn merge_unions_identifiers_without_duplicates() {
    let src = "from . import c, a\nfrom . import b, a\nx\n";
    let out = run_pipeline(src);
    assert!(out.contains("from . import a, b, c\n"));
}

#[test]
fn merged_away_comment_is_dropped() {
    let src = "from . import a  # one\nfrom . import b  # two\nx\n";
    let out = run_pipeline(src);
    assert!(out.contains("from . import a, b  # one\n"));
    assert!(!out.contains("# two"));
}

#[test]
fn split_separates_absolute_imports() {
    let src = "import sys, re, os\nx\n";
    let out = run_pipeline(src);
    assert!(out.contains("import os\nimport re\nimport sys\n"));
    assert!(!out.contains("import os, re, sys"));
}

#[test]
fn trailing_comma_in_parentheses() {
    let src = "import (a, b,)\nx = 1\n";
    let out = run_pipeline(src);
    assert_eq!(out, "from __future__ import annotations\nimport a\nimport b\n\n\nx = 1\n");
}

#[test]
fn unnamed_origins_more_dots_first() {
    let src = "from . import b\nfrom .. import a\nx\n";
    let out = run_pipeline(src);
    let two = out.find("from .. import a").unwrap();
    let one = out.find("from . import b").unwrap();
    assert!(two < one);
}

#[test]
fn order_absolute_then_relative_then_wildcard() {
    let src = "from .z import *\nfrom .k import v\nimport m\nx\n";
    let out = run_pipeline(src);
    let a = out.find("import m\n").unwrap();
    let r = out.find("from .k import v\n").unwrap();
    let w = out.find("from .z import *\n").unwrap();
    assert!(a < r && r < w);
}

#[test]
fn tab_is_not_whitespace() {
    let src = "import a\timport b\n";
    let out = run_pipeline(src);
    assert_eq!(out, "from __future__ import annotations\nimport a\n\n\n\timport b\n");
}

#[test]
fn block_and_remainder_cover_the_buffer() {
    let src = "import a\nimport b\nrest of file\n";
    let pd = Pd::new(src.as_bytes().to_vec());
    let mut ps = Ps::new();
    let imports = pd.start(&mut ps).unwrap();
    assert_eq!(imports.len(), 2);
    let rest = pd.rest(&ps);
    let block = &src.as_bytes()[..ps.rest];
    let mut whole = block.to_vec();
    whole.extend_from_slice(&rest);
    assert_eq!(whole, src.as_bytes());
    assert_eq!(std::str::from_utf8(&rest).unwrap(), "rest of file\n");
}
