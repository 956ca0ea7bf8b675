//! Building and copying pairs, and the interface of a store.

use crate::{HashView, Wrapper};
use vstd::prelude::*;

verus! {

/// Lets a caller build a store of its own with the same operations.
pub trait EnvFrame {
    fn marshal(val: Vec<crate::Hash>) -> String;

    fn parse(content: String) -> Vec<crate::Hash>;

    fn new(name: String) -> crate::store::Env;

    fn get(&self, k: &str) -> Wrapper;

    fn get_debug(self) -> Vec<crate::Hash>;

    fn set(&mut self, k: &str, v: crate::Hash);

    fn debug(self);

    fn upload(path: &str, pairs: Vec<crate::Hash>) -> crate::store::Env;

    fn global_env(&mut self);

    fn get_local(&self, k: &str) -> Wrapper;

    fn get_global(&self, k: &str) -> Wrapper;
}

/// A single-valued pair built from two texts.
#[allow(non_snake_case)]
pub fn Str(a: &str, b: &str) -> (r: crate::Hash)
    ensures
        r@ == HashView::Str(a@, b@),
{
    crate::Hash::Str(String::from_str(a), String::from_str(b))
}

/// A list-valued pair built from a key and the values in order.
#[allow(non_snake_case)]
pub fn Vct(a: &str, v: Vec<&str>) -> (r: crate::Hash)
    ensures
        r@ == HashView::Vec(a@, v.deep_view()),
{
    let mut values: Vec<String> = Vec::new();
    let mut i: usize = 0;
    while i < v.len()
        invariant
            i <= v.len(),
            values@.len() == i,
            forall|j: int| 0 <= j < i ==> (#[trigger] values@[j])@ == v@[j]@,
        decreases v.len() - i,
    {
        values.push(String::from_str(v[i]));
        i = i + 1;
    }
    assert(values.deep_view() =~= v.deep_view());
    crate::Hash::Vec(String::from_str(a), values)
}

/// An owned copy of a list of texts.
pub fn copy_texts(v: &Vec<String>) -> (r: Vec<String>)
    ensures
        r.deep_view() == v.deep_view(),
{
    let mut out: Vec<String> = Vec::new();
    let mut i: usize = 0;
    while i < v.len()
        invariant
            i <= v.len(),
            out@.len() == i,
            forall|j: int| 0 <= j < i ==> (#[trigger] out@[j])@ == v@[j]@,
        decreases v.len() - i,
    {
        out.push(v[i].clone());
        i = i + 1;
    }
    assert(out.deep_view() =~= v.deep_view());
    out
}

/// An owned copy of a pair.
pub fn copy_hash(h: &crate::Hash) -> (r: crate::Hash)
    ensures
        r@ == h@,
{
    match h {
        crate::Hash::Str(k, v) => crate::Hash::Str(k.clone(), v.clone()),
        crate::Hash::Vec(k, vs) => crate::Hash::Vec(k.clone(), copy_texts(vs)),
        crate::Hash::Placeholder => crate::Hash::Placeholder,
    }
}

} // verus!
