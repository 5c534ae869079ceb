//! Scopes and scope authority.
//!
//! Scope owns meaning; topology never appears in the kernel, so it cannot
//! influence what a claim means.

use crate::collections::OrderedKey;
use crate::order::compare_bytes;
use vstd::prelude::*;
use vstd::utf8::encode_utf8;

verus! {

/// A named boundary of shared meaning. Scoped belief is always keyed by
/// (scope, subject); a claim's scope is part of its meaning.
#[derive(Debug, Clone, PartialEq, Eq, PartialOrd, Ord, Hash)]
pub struct ScopeId(String);

impl View for ScopeId {
    type V = Seq<char>;

    closed spec fn view(&self) -> Seq<char> {
        self.0@
    }
}

impl ScopeId {
    pub fn new(name: &str) -> (r: Self)
        ensures
            r@ == name@,
    {
        ScopeId(name.to_owned())
    }

    pub fn from_string(name: String) -> (r: Self)
        ensures
            r@ == name@,
    {
        ScopeId(name)
    }

    pub fn as_str(&self) -> (r: &str)
        ensures
            r@ == self@,
    {
        self.0.as_str()
    }

    pub fn same(&self, other: &Self) -> (r: bool)
        ensures
            r == (self@ == other@),
    {
        self.0 == other.0
    }

    pub fn duplicate(&self) -> (r: Self)
        ensures
            r@ == self@,
    {
        ScopeId(self.0.clone())
    }
}

impl OrderedKey for ScopeId {
    open spec fn order_bytes(k: Seq<char>) -> Seq<u8> {
        encode_utf8(k)
    }

    proof fn lemma_order_bytes_injective(a: Seq<char>, b: Seq<char>) {
        vstd::utf8::encode_utf8_decode_utf8(a);
        vstd::utf8::encode_utf8_decode_utf8(b);
    }

    fn compare_key(&self, other: &Self) -> (r: i8) {
        compare_bytes(self.0.as_str().as_bytes(), other.0.as_str().as_bytes())
    }

    fn copy_key(&self) -> (r: Self) {
        self.duplicate()
    }
}

/// How much dominance weight a claim's scope carries during merge.
/// Ordered: Local < Regional < Global.
#[derive(Debug, Clone, Copy, PartialEq, Eq, Structural, PartialOrd, Ord, Hash)]
pub enum ScopeAuthority {
    Local,
    Regional,
    Global,
}

} // verus!
