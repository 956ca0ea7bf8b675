//! The store: pairs read from a file, and pairs taken from the process.

use crate::codec::{marshal_text, parse_text, upload_text};
use crate::entry::{copy_hash, copy_texts};
use crate::text::same_text;
use crate::{HashView, ParseError, Wrapper, WrapperView};
use vstd::prelude::*;

verus! {

/// Pairs from a backing file (local), pairs from the process environment
/// (global), and the path of the backing file.
pub struct Env {
    local: Vec<crate::Hash>,
    global: Vec<crate::Hash>,
    path: String,
}

/// A store as text.
pub struct EnvView {
    pub local: Seq<HashView>,
    pub global: Seq<HashView>,
    pub path: Seq<char>,
}

impl View for Env {
    type V = EnvView;

    closed spec fn view(&self) -> EnvView {
        EnvView {
            local: self.local.deep_view(),
            global: self.global.deep_view(),
            path: self.path@,
        }
    }
}

/// The key of a pair; a placeholder has none.
pub open spec fn key_of(e: HashView) -> Option<Seq<char>> {
    match e {
        HashView::Str(k, _) => Some(k),
        HashView::Vec(k, _) => Some(k),
        HashView::Placeholder => None,
    }
}

/// What the first pair with key `k` holds, scanning from the front.
pub open spec fn lookup(es: Seq<HashView>, k: Seq<char>) -> WrapperView
    decreases es.len(),
{
    if es.len() == 0 {
        WrapperView::Empty
    } else {
        match es[0] {
            HashView::Str(kk, v) if kk == k => WrapperView::Str(v),
            HashView::Vec(kk, vs) if kk == k => WrapperView::Vec(vs),
            _ => lookup(es.drop_first(), k),
        }
    }
}

/// The combined lookup: the global scope first, then the local one.
pub open spec fn lookup_both(e: EnvView, k: Seq<char>) -> WrapperView {
    match lookup(e.global, k) {
        WrapperView::Empty => lookup(e.local, k),
        found => found,
    }
}

/// Process variables as single-valued pairs, in order.
pub open spec fn var_entries(vars: Seq<(String, String)>) -> Seq<HashView> {
    Seq::new(vars.len(), |i: int| HashView::Str(vars[i].0@, vars[i].1@))
}

/// The pairs with the placeholders left out.
pub open spec fn without_placeholders(es: Seq<HashView>) -> Seq<HashView>
    decreases es.len(),
{
    if es.len() == 0 {
        Seq::<HashView>::empty()
    } else if es.last() is Placeholder {
        without_placeholders(es.drop_last())
    } else {
        without_placeholders(es.drop_last()).push(es.last())
    }
}

/// A lookup in two runs of pairs laid end to end finds what the first run
/// holds, and only where it holds nothing, what the second holds.
pub proof fn lemma_lookup_concat(a: Seq<HashView>, b: Seq<HashView>, k: Seq<char>)
    ensures
        lookup(a + b, k) == (match lookup(a, k) {
            WrapperView::Empty => lookup(b, k),
            found => found,
        }),
    decreases a.len(),
{
    if a.len() == 0 {
        assert(a + b =~= b);
    } else {
        assert((a + b)[0] == a[0]);
        assert((a + b).drop_first() =~= a.drop_first() + b);
        lemma_lookup_concat(a.drop_first(), b, k);
    }
}

/// A lookup finds nothing exactly when no pair has the key.
pub proof fn lemma_lookup_not_found(es: Seq<HashView>, k: Seq<char>)
    ensures
        (lookup(es, k) is Empty) <==> (forall|i: int|
            0 <= i < es.len() ==> key_of(#[trigger] es[i]) != Some(k)),
    decreases es.len(),
{
    if es.len() > 0 {
        let rest = es.drop_first();
        lemma_lookup_not_found(rest, k);
        if key_of(es[0]) != Some(k) {
            assert forall|i: int| 0 <= i < es.len() && i != 0 && key_of(#[trigger] es[i]) == Some(k) implies
                key_of(rest[i - 1]) == Some(k) by {
                assert(rest[i - 1] == es[i]);
            }
            if lookup(es, k) is Empty {
                assert forall|i: int| 0 <= i < es.len() implies key_of(#[trigger] es[i]) != Some(k) by {
                    if i > 0 {
                        assert(rest[i - 1] == es[i]);
                    }
                }
            }
        } else {
            assert(key_of(es[0]) == Some(k));
        }
    }
}

/// Where a key is in both scopes, the combined lookup gives the global value.
pub proof fn lemma_global_shadows_local(e: EnvView, k: Seq<char>)
    requires
        exists|i: int| 0 <= i < e.global.len() && key_of(#[trigger] e.global[i]) == Some(k),
        exists|j: int| 0 <= j < e.local.len() && key_of(#[trigger] e.local[j]) == Some(k),
    ensures
        !(lookup(e.global, k) is Empty),
        lookup_both(e, k) == lookup(e.global, k),
{
    lemma_lookup_not_found(e.global, k);
}

/// Taking the process variables a second time changes no global lookup: the
/// repeated pairs come after the first ones and are never reached.
pub proof fn lemma_global_env_twice(global: Seq<HashView>, vars: Seq<(String, String)>, k: Seq<char>)
    ensures
        lookup(global + var_entries(vars) + var_entries(vars), k) == lookup(
            global + var_entries(vars),
            k,
        ),
{
    let g1 = global + var_entries(vars);
    lemma_lookup_concat(g1, var_entries(vars), k);
    lemma_lookup_concat(global, var_entries(vars), k);
}

/// What the first pair with key `key` holds.
fn get_d(d: &Vec<crate::Hash>, key: &str) -> (r: Wrapper)
    ensures
        r@ == lookup(d.deep_view(), key@),
{
    let mut i: usize = 0;
    assert(d.deep_view().skip(0) =~= d.deep_view());
    while i < d.len()
        invariant
            i <= d.len(),
            lookup(d.deep_view(), key@) == lookup(d.deep_view().skip(i as int), key@),
        decreases d.len() - i,
    {
        let ghost rest = d.deep_view().skip(i as int);
        assert(rest[0] == d[i as int]@);
        assert(rest.drop_first() =~= d.deep_view().skip(i + 1));
        match &d[i] {
            crate::Hash::Str(k, v) => {
                if same_text(k.as_str(), key) {
                    return Wrapper::Str(v.clone());
                }
            },
            crate::Hash::Vec(k, vs) => {
                if same_text(k.as_str(), key) {
                    return Wrapper::Vec(copy_texts(vs));
                }
            },
            crate::Hash::Placeholder => {},
        }
        i = i + 1;
    }
    assert(d.deep_view().skip(i as int) =~= Seq::<HashView>::empty());
    Wrapper::Empty
}

impl Env {
    /// The global scope holds single-valued pairs only.
    pub open spec fn wf(&self) -> bool {
        forall|i: int| 0 <= i < self@.global.len() ==> (#[trigger] self@.global[i]) is Str
    }

    /// A store backed by `name`, whose local pairs are the parsed `content`
    /// of that file; the global scope starts empty.
    pub fn new(name: &str, content: &str) -> (r: Result<Env, ParseError>)
        ensures
            match r {
                Ok(env) => {
                    &&& parse_text(content@) == Ok::<Seq<HashView>, int>(env@.local)
                    &&& env@.global == Seq::<HashView>::empty()
                    &&& env@.path == name@
                    &&& env.wf()
                },
                Err(ParseError::MalformedLine(i)) => parse_text(content@) == Err::<Seq<HashView>, int>(i as int),
            },
    {
        match Env::parse(content) {
            Ok(local) => {
                let global: Vec<crate::Hash> = Vec::new();
                let env = Env { local, global, path: String::from_str(name) };
                assert(env@.global =~= Seq::<HashView>::empty());
                Ok(env)
            },
            Err(e) => Err(e),
        }
    }

    /// The local pairs.
    pub fn get_debug(self) -> (r: Vec<crate::Hash>)
        ensures
            r.deep_view() == self@.local,
    {
        self.local
    }

    /// The local pairs, borrowed.
    pub fn entries(&self) -> (r: &Vec<crate::Hash>)
        ensures
            r.deep_view() == self@.local,
    {
        &self.local
    }

    /// The global pairs, borrowed.
    pub fn globals(&self) -> (r: &Vec<crate::Hash>)
        ensures
            r.deep_view() == self@.global,
    {
        &self.global
    }

    /// The path of the backing file.
    pub fn path(&self) -> (r: &str)
        ensures
            r@ == self@.path,
    {
        self.path.as_str()
    }

    /// Appends `h` to the local pairs and returns the text that the backing
    /// file is then overwritten with: that one pair alone, as `marshal` has it.
    pub fn set(&mut self, h: crate::Hash) -> (r: String)
        ensures
            final(self)@.local == old(self)@.local.push(h@),
            final(self)@.global == old(self)@.global,
            final(self)@.path == old(self)@.path,
            r@ == marshal_text(seq![h@]),
    {
        let one = vec![copy_hash(&h)];
        let ghost before = self.local.deep_view();
        self.local.push(h);
        assert(self.local.deep_view() =~= before.push(h@));
        assert(one.deep_view() =~= seq![h@]);
        Env::marshal(one)
    }

    /// Appends the pairs parsed from `e` to the local pairs. Where `e` does
    /// not parse, nothing is appended.
    pub fn raw(&mut self, e: &str) -> (r: Result<(), ParseError>)
        ensures
            final(self)@.global == old(self)@.global,
            final(self)@.path == old(self)@.path,
            match r {
                Ok(()) => {
                    &&& parse_text(e@) is Ok
                    &&& final(self)@.local == old(self)@.local + parse_text(e@)->Ok_0
                },
                Err(ParseError::MalformedLine(i)) => {
                    &&& parse_text(e@) == Err::<Seq<HashView>, int>(i as int)
                    &&& final(self)@.local == old(self)@.local
                },
            },
    {
        match Env::parse(e) {
            Ok(h) => {
                let ghost before = self.local.deep_view();
                let mut h = h;
                let ghost added = h.deep_view();
                self.local.append(&mut h);
                assert(self.local.deep_view() =~= before + added);
                assert(parse_text(e@) == Ok::<Seq<HashView>, int>(added));
                Ok(())
            },
            Err(err) => Err(err),
        }
    }

    /// A store backed by `path` whose local pairs are `pairs` without their
    /// placeholders, and the text to write to `path`: each single-valued pair
    /// on a line of its own, each list with its trailing `;` and no line end.
    pub fn upload(path: &str, pairs: Vec<crate::Hash>) -> (r: (Env, String))
        ensures
            r.0@.local == without_placeholders(pairs.deep_view()),
            r.0@.global == Seq::<HashView>::empty(),
            r.0@.path == path@,
            r.0.wf(),
            r.1@ == upload_text(pairs.deep_view()),
    {
        let mut data: Vec<crate::Hash> = Vec::new();
        let mut hash = String::new();
        let mut i: usize = 0;
        proof {
            reveal_strlit("=");
            reveal_strlit("\n");
            assert(pairs.deep_view().take(0) =~= Seq::<HashView>::empty());
            assert(data.deep_view() =~= Seq::<HashView>::empty());
        }
        while i < pairs.len()
            invariant
                i <= pairs.len(),
                hash@ == upload_text(pairs.deep_view().take(i as int)),
                data.deep_view() == without_placeholders(pairs.deep_view().take(i as int)),
                "="@ == seq!['='],
                "\n"@ == seq!['\n'],
            decreases pairs.len() - i,
        {
            let ghost before = hash@;
            let ghost kept = data.deep_view();
            match &pairs[i] {
                crate::Hash::Str(a, b) => {
                    data.push(copy_hash(&pairs[i]));
                    hash.append(a.as_str());
                    hash.append("=");
                    hash.append(b.as_str());
                    hash.append("\n");
                },
                crate::Hash::Vec(a, vector) => {
                    data.push(copy_hash(&pairs[i]));
                    hash.append(a.as_str());
                    hash.append("=");
                    crate::codec::push_list(&mut hash, vector);
                },
                crate::Hash::Placeholder => {},
            }
            proof {
                let t = pairs.deep_view().take(i + 1);
                assert(t.drop_last() =~= pairs.deep_view().take(i as int));
                assert(t.last() == pairs[i as int]@);
                assert(hash@ =~= before + crate::codec::upload_entry_text(pairs[i as int]@));
                if pairs[i as int]@ is Placeholder {
                    assert(data.deep_view() =~= kept);
                } else {
                    assert(data.deep_view() =~= kept.push(pairs[i as int]@));
                }
            }
            i = i + 1;
        }
        assert(pairs.deep_view().take(i as int) =~= pairs.deep_view());
        let global: Vec<crate::Hash> = Vec::new();
        let env = Env { local: data, global, path: String::from_str(path) };
        assert(env@.global =~= Seq::<HashView>::empty());
        (env, hash)
    }

    /// Appends one single-valued pair to the global pairs for each process
    /// variable, in order. Nothing is taken out, so calling it again repeats
    /// the pairs.
    pub fn global_env(&mut self, vars: Vec<(String, String)>)
        requires
            old(self).wf(),
        ensures
            final(self)@.global == old(self)@.global + var_entries(vars@),
            final(self)@.local == old(self)@.local,
            final(self)@.path == old(self)@.path,
            final(self).wf(),
    {
        let mut i: usize = 0;
        let ghost start = self.global.deep_view();
        assert(var_entries(vars@).take(0) =~= Seq::<HashView>::empty());
        assert(start + var_entries(vars@).take(0) =~= start);
        while i < vars.len()
            invariant
                i <= vars.len(),
                self.global.deep_view() == start + var_entries(vars@).take(i as int),
                self.local.deep_view() == old(self).local.deep_view(),
                self.path == old(self).path,
                self.wf(),
            decreases vars.len() - i,
        {
            let ghost before = self.global.deep_view();
            let (k, v) = &vars[i];
            self.global.push(crate::Hash::Str(k.clone(), v.clone()));
            assert(self.global.deep_view() =~= before.push(HashView::Str(vars@[i as int].0@, vars@[i as int].1@)));
            i = i + 1;
            assert(self.global.deep_view() =~= start + var_entries(vars@).take(i as int));
        }
        assert(var_entries(vars@).take(i as int) =~= var_entries(vars@));
    }

    /// What the first local pair with key `k` holds.
    pub fn get_local(&self, k: &str) -> (r: Wrapper)
        ensures
            r@ == lookup(self@.local, k@),
    {
        get_d(&self.local, k)
    }

    /// What the first global pair with key `k` holds.
    pub fn get_global(&self, k: &str) -> (r: Wrapper)
        ensures
            r@ == lookup(self@.global, k@),
    {
        get_d(&self.global, k)
    }

    /// What key `k` holds: its global value where there is one, else its local
    /// value.
    pub fn get_hash(&mut self, k: &str) -> (r: Wrapper)
        ensures
            r@ == lookup_both(old(self)@, k@),
            *final(self) == *old(self),
    {
        match get_d(&self.global, k) {
            Wrapper::Empty => get_d(&self.local, k),
            e => e,
        }
    }
}

} // verus!
