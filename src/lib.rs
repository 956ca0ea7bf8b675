//! Reading, representing and rewriting flat `KEY=VALUE` environment text,
//! with a second, process-wide scope that shadows the file's own values.

mod codec;
mod entry;
mod store;
mod text;

pub use codec::{
    entry_text, lemma_list_ends_with_semicolon, lemma_round_trip, list_text, marshal_text,
    parse_line, parse_lines, parse_text, plain_pair_line, upload_entry_text, upload_text,
    values_text,
};
pub use entry::{copy_hash, copy_texts, EnvFrame, Str, Vct};
pub use store::{
    key_of, lemma_global_env_twice, lemma_global_shadows_local, lemma_lookup_concat,
    lemma_lookup_not_found, lookup, lookup_both, var_entries, without_placeholders, Env, EnvView,
};
pub use text::{join, same_text, split, split_text};

use vstd::prelude::*;

verus! {

/// One `KEY=VALUE` pair: a single value, or a list of values.
#[derive(Debug, Clone)]
pub enum Hash {
    Str(String, String),
    Vec(String, Vec<String>),
    Placeholder,
}

/// What a lookup found: a single value, a list of values, or nothing.
#[derive(Debug, Clone)]
pub enum Wrapper {
    Str(String),
    Vec(Vec<String>),
    Empty,
}

/// A pair as text: its key and its value or values.
pub enum HashView {
    Str(Seq<char>, Seq<char>),
    Vec(Seq<char>, Seq<Seq<char>>),
    Placeholder,
}

/// A lookup result as text.
pub enum WrapperView {
    Str(Seq<char>),
    Vec(Seq<Seq<char>>),
    Empty,
}

impl View for Hash {
    type V = HashView;

    open spec fn view(&self) -> HashView {
        match self {
            Hash::Str(k, v) => HashView::Str(k@, v@),
            Hash::Vec(k, vs) => HashView::Vec(k@, vs.deep_view()),
            Hash::Placeholder => HashView::Placeholder,
        }
    }
}

impl DeepView for Hash {
    type V = HashView;

    open spec fn deep_view(&self) -> HashView {
        self@
    }
}

impl View for Wrapper {
    type V = WrapperView;

    open spec fn view(&self) -> WrapperView {
        match self {
            Wrapper::Str(v) => WrapperView::Str(v@),
            Wrapper::Vec(vs) => WrapperView::Vec(vs.deep_view()),
            Wrapper::Empty => WrapperView::Empty,
        }
    }
}

/// Why a text could not be parsed: the index of the first line that holds
/// no `=`.
#[derive(Debug, Clone, PartialEq, Eq, Structural)]
pub enum ParseError {
    MalformedLine(usize),
}

} // verus!
