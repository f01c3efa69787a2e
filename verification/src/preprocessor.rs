//! The WGSL source preprocessor's decision core: recognising include
//! directives and naming their targets.  Reading the module files and
//! splicing the expanded text together is the caller's work.
use vstd::prelude::*;

use crate::utils::{split_whitespace, split_whitespace_spec};

verus! {

/// A WGSL module source held for building a shader module.
pub struct ShaderBuilder {
    /// The current WGSL source text.
    pub source_string: String,
}

impl ShaderBuilder {
    /// Wrap an already-assembled WGSL source.
    pub fn new(source_string: String) -> (b: ShaderBuilder)
        ensures
            b.source_string == source_string,
    {
        ShaderBuilder { source_string }
    }
}

/// The directive prefix that pulls other modules into a WGSL source.
pub fn include_tag() -> (s: String)
    ensures
        s@ == "//!include"@,
{
    let s = "//!include";
    s.to_owned()
}

/// Does the line open with the include directive?
pub fn line_is_include(line: &String) -> (b: bool)
    ensures
        b == (line@.len() >= 10 && line@.subrange(0, 10) == "//!include"@),
{
    proof {
        reveal_strlit("//!include");
    }
    if line.as_str().unicode_len() < 10 {
        return false;
    }
    let head = line.as_str().substring_char(0, 10).to_owned();
    let tag = include_tag();
    head.eq(&tag)
}

/// The module names an include directive pulls in: every token after the
/// directive itself.
pub fn include_targets(line: &String) -> (targets: Vec<String>)
    ensures
        targets.deep_view() == (if split_whitespace_spec(line@).len() == 0 {
            Seq::<Seq<char>>::empty()
        } else {
            split_whitespace_spec(line@).drop_first()
        }),
{
    let words = split_whitespace(line.as_str());
    let mut targets: Vec<String> = Vec::new();
    proof {
        assert(targets.deep_view() =~= Seq::<Seq<char>>::empty());
    }
    let n = words.len();
    if n == 0 {
        return targets;
    }
    let mut i: usize = 1;
    while i < n
        invariant
            1 <= i <= n,
            n == words@.len(),
            targets.deep_view() =~= words.deep_view().subrange(1, i as int),
        decreases n - i,
    {
        let w = words[i].clone();
        let ghost prev = targets@;
        proof {
            assert(w@ == words@[i as int]@);
        }
        targets.push(w);
        proof {
            crate::utils::lemma_deep_push(prev, targets@, w);
            assert(targets.deep_view() =~= words.deep_view().subrange(1, i as int + 1));
        }
        i = i + 1;
    }
    proof {
        assert(words.deep_view().subrange(1, n as int) =~= words.deep_view().drop_first());
    }
    targets
}

} // verus!
