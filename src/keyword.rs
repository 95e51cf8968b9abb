//! Keyword completion: which keywords an expression or item position offers,
//! and the text that accepting one inserts.
use crate::text::{contains_char, ends_with_char};
use vstd::prelude::*;
use vstd::string::*;

verus! {

/// A keyword that completion can offer.
#[derive(Clone, Copy, Debug, PartialEq, Eq, Structural)]
pub enum Keyword {
    Where,
    For,
    Fn,
    Trait,
    Impl,
    PubCrate,
    PubSuper,
    Pub,
    Unsafe,
    Const,
    Type,
    Extern,
    Use,
    Static,
    Mod,
    Enum,
    Struct,
    Union,
}

/// The keyword `k` as shown in the completion list.
pub open spec fn label_of(k: Keyword) -> &'static str {
    match k {
        Keyword::Where => "where",
        Keyword::For => "for",
        Keyword::Fn => "fn",
        Keyword::Trait => "trait",
        Keyword::Impl => "impl",
        Keyword::PubCrate => "pub(crate)",
        Keyword::PubSuper => "pub(super)",
        Keyword::Pub => "pub",
        Keyword::Unsafe => "unsafe",
        Keyword::Const => "const",
        Keyword::Type => "type",
        Keyword::Extern => "extern",
        Keyword::Use => "use",
        Keyword::Static => "static",
        Keyword::Mod => "mod",
        Keyword::Enum => "enum",
        Keyword::Struct => "struct",
        Keyword::Union => "union",
    }
}

/// The snippet that accepting keyword `k` inserts.
pub open spec fn snippet_of(k: Keyword) -> &'static str {
    match k {
        Keyword::Fn => "fn $1($2) {\n    $0\n}",
        Keyword::Trait => "trait $1 {\n    $0\n}",
        Keyword::Impl => "impl $1 {\n    $0\n}",
        Keyword::Const => "const $0",
        Keyword::Type => "type $0",
        Keyword::Extern => "extern $0",
        Keyword::Use => "use $0",
        Keyword::Static => "static $0",
        Keyword::Mod => "mod $0",
        Keyword::Enum => "enum $1 {\n    $0\n}",
        Keyword::Struct => "struct $0",
        Keyword::Union => "union $1 {\n    $0\n}",
        _ => label_of(k),
    }
}

impl Keyword {
    /// The keyword as shown in the completion list.
    pub fn label(&self) -> (r: &'static str)
        ensures
            r == label_of(*self),
    {
        match self {
            Keyword::Where => "where",
            Keyword::For => "for",
            Keyword::Fn => "fn",
            Keyword::Trait => "trait",
            Keyword::Impl => "impl",
            Keyword::PubCrate => "pub(crate)",
            Keyword::PubSuper => "pub(super)",
            Keyword::Pub => "pub",
            Keyword::Unsafe => "unsafe",
            Keyword::Const => "const",
            Keyword::Type => "type",
            Keyword::Extern => "extern",
            Keyword::Use => "use",
            Keyword::Static => "static",
            Keyword::Mod => "mod",
            Keyword::Enum => "enum",
            Keyword::Struct => "struct",
            Keyword::Union => "union",
        }
    }

    /// The snippet that accepting the keyword inserts.
    pub fn snippet(&self) -> (r: &'static str)
        ensures
            r == snippet_of(*self),
    {
        match self {
            Keyword::Fn => "fn $1($2) {\n    $0\n}",
            Keyword::Trait => "trait $1 {\n    $0\n}",
            Keyword::Impl => "impl $1 {\n    $0\n}",
            Keyword::Const => "const $0",
            Keyword::Type => "type $0",
            Keyword::Extern => "extern $0",
            Keyword::Use => "use $0",
            Keyword::Static => "static $0",
            Keyword::Mod => "mod $0",
            Keyword::Enum => "enum $1 {\n    $0\n}",
            Keyword::Struct => "struct $0",
            Keyword::Union => "union $1 {\n    $0\n}",
            _ => self.label(),
        }
    }
}

/// What keyword completion needs to know of the position it completes at.
#[derive(Clone, Copy, Debug, PartialEq, Eq, Structural)]
pub struct KeywordContext {
    pub in_record_literal: bool,
    pub in_non_trivial_path: bool,
    pub in_pattern: bool,
    pub in_visibility_path: bool,
    pub after_unfinished_impl_or_trait: bool,
    pub after_impl: bool,
    pub after_unsafe: bool,
    pub expects_item: bool,
    pub expects_assoc_item: bool,
    pub expects_non_trait_assoc_item: bool,
    pub expects_field: bool,
    pub in_block_expr: bool,
    pub after_visibility: bool,
}

/// `ks` when `c` holds, nothing otherwise.
pub open spec fn when(c: bool, ks: Seq<Keyword>) -> Seq<Keyword> {
    if c { ks } else { Seq::empty() }
}

/// The keywords offered at a position, in order.
pub open spec fn expr_keywords(c: KeywordContext) -> Seq<Keyword> {
    let item_or_block = c.expects_item || c.in_block_expr;
    let any_item = c.expects_item || c.expects_assoc_item || c.in_block_expr;
    if c.in_record_literal || c.in_non_trivial_path || c.in_pattern || c.in_visibility_path {
        Seq::empty()
    } else if c.after_unfinished_impl_or_trait {
        seq![Keyword::Where] + when(c.after_impl, seq![Keyword::For])
    } else if c.after_unsafe {
        when(any_item, seq![Keyword::Fn]) + when(item_or_block, seq![Keyword::Trait, Keyword::Impl])
    } else {
        when(!c.after_visibility && (c.expects_item || c.expects_non_trait_assoc_item || c.expects_field),
            seq![Keyword::PubCrate, Keyword::PubSuper, Keyword::Pub])
        + when(any_item, seq![Keyword::Unsafe, Keyword::Fn, Keyword::Const, Keyword::Type])
        + when(item_or_block && !c.after_visibility, seq![Keyword::Impl, Keyword::Extern])
        + when(item_or_block, seq![Keyword::Use, Keyword::Trait, Keyword::Static, Keyword::Mod])
        + when(item_or_block, seq![Keyword::Enum, Keyword::Struct, Keyword::Union])
    }
}

fn add_all(acc: &mut Vec<Keyword>, c: bool, ks: &[Keyword])
    ensures
        final(acc)@ == old(acc)@ + when(c, ks@),
{
    if c {
        let mut i: usize = 0;
        while i < ks.len()
            invariant
                i <= ks@.len(),
                acc@ == old(acc)@ + ks@.subrange(0, i as int),
            decreases ks@.len() - i,
        {
            acc.push(ks[i]);
            i = i + 1;
        }
        assert(ks@.subrange(0, i as int) =~= ks@);
    } else {
        assert(old(acc)@ + Seq::<Keyword>::empty() =~= old(acc)@);
    }
}

/// The keywords to offer at a position.
pub fn complete_expr_keyword(c: KeywordContext) -> (r: Vec<Keyword>)
    ensures
        r@ == expr_keywords(c),
{
    let mut acc: Vec<Keyword> = Vec::new();
    if c.in_record_literal || c.in_non_trivial_path || c.in_pattern || c.in_visibility_path {
        return acc;
    }
    let item_or_block = c.expects_item || c.in_block_expr;
    let any_item = c.expects_item || c.expects_assoc_item || c.in_block_expr;
    if c.after_unfinished_impl_or_trait {
        add_all(&mut acc, true, &[Keyword::Where]);
        add_all(&mut acc, c.after_impl, &[Keyword::For]);
        assert(acc@ =~= expr_keywords(c));
        return acc;
    }
    if c.after_unsafe {
        add_all(&mut acc, any_item, &[Keyword::Fn]);
        add_all(&mut acc, item_or_block, &[Keyword::Trait, Keyword::Impl]);
        assert(acc@ =~= expr_keywords(c));
        return acc;
    }
    add_all(&mut acc, !c.after_visibility && (c.expects_item || c.expects_non_trait_assoc_item || c.expects_field),
        &[Keyword::PubCrate, Keyword::PubSuper, Keyword::Pub]);
    add_all(&mut acc, any_item, &[Keyword::Unsafe, Keyword::Fn, Keyword::Const, Keyword::Type]);
    add_all(&mut acc, item_or_block && !c.after_visibility, &[Keyword::Impl, Keyword::Extern]);
    add_all(&mut acc, item_or_block, &[Keyword::Use, Keyword::Trait, Keyword::Static, Keyword::Mod]);
    add_all(&mut acc, item_or_block, &[Keyword::Enum, Keyword::Struct, Keyword::Union]);
    assert(acc@ =~= expr_keywords(c));
    acc
}

/// The text that accepting keyword `kw` with `snippet` inserts. With snippet
/// support, the snippet itself, closed by `;` when it ends a block inside an
/// unfinished `let`; without, the snippet if it has no placeholders, else the
/// bare keyword.
pub open spec fn insert_text(kw: Seq<char>, snippet: Seq<char>, snippet_cap: bool, incomplete_let: bool) -> Seq<char> {
    if snippet_cap {
        if snippet.len() > 0 && snippet.last() == '}' && incomplete_let {
            snippet.push(';')
        } else {
            snippet
        }
    } else if snippet.contains('$') {
        kw
    } else {
        snippet
    }
}

pub fn keyword_insert_text(kw: &str, snippet: &str, snippet_cap: bool, incomplete_let: bool) -> (r: String)
    ensures
        r@ == insert_text(kw@, snippet@, snippet_cap, incomplete_let),
{
    if snippet_cap {
        if ends_with_char(snippet, '}') && incomplete_let {
            let s = snippet.to_owned();
            let r = s.concat(";");
            proof {
                reveal_strlit(";");
                assert(r@ =~= snippet@.push(';'));
            }
            r
        } else {
            snippet.to_owned()
        }
    } else if contains_char(snippet, '$') {
        kw.to_owned()
    } else {
        snippet.to_owned()
    }
}

} // verus!
