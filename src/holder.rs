//! The two-namespace map of secrets held by an open shrine.
//!
//! Entries keep the order in which their keys were first stored, so that key
//! enumeration is deterministic for a given state.
use crate::values::{Secret, SecretView};
use crate::Error;
use vstd::prelude::*;

verus! {

/// One stored secret under its key.
pub struct Entry {
    pub key: String,
    pub secret: Secret,
}

/// The entries of one namespace, as keys and secret contents.
pub type EntriesView = Seq<(Seq<char>, SecretView)>;

pub open spec fn entries_view(v: Seq<Entry>) -> EntriesView {
    v.map_values(|e: Entry| (e.key@, e.secret@))
}

pub open spec fn has_key(s: EntriesView, k: Seq<char>) -> bool {
    exists|i: int| 0 <= i < s.len() && #[trigger] s[i].0 == k
}

pub open spec fn unique_keys(s: EntriesView) -> bool {
    forall|i: int, j: int|
        0 <= i < s.len() && 0 <= j < s.len() && i != j ==> #[trigger] s[i].0 != #[trigger] s[j].0
}

/// The position of key `k` in `s`, where it is present.
pub open spec fn index_of_key(s: EntriesView, k: Seq<char>) -> int {
    choose|i: int| 0 <= i < s.len() && #[trigger] s[i].0 == k
}

/// The secret stored under `k`, if any.
pub open spec fn value_of(s: EntriesView, k: Seq<char>) -> Option<SecretView> {
    if has_key(s, k) {
        Some(s[index_of_key(s, k)].1)
    } else {
        None
    }
}

/// `s` with `k` bound to `v`: replaced in place, or appended when new.
pub open spec fn with_entry(s: EntriesView, k: Seq<char>, v: SecretView) -> EntriesView {
    if has_key(s, k) {
        s.update(index_of_key(s, k), (k, v))
    } else {
        s.push((k, v))
    }
}

/// `s` without the entry of `k`.
pub open spec fn without_key(s: EntriesView, k: Seq<char>) -> EntriesView {
    if has_key(s, k) {
        s.remove(index_of_key(s, k))
    } else {
        s
    }
}

pub open spec fn keys_of(s: EntriesView) -> Seq<Seq<char>> {
    s.map_values(|e: (Seq<char>, SecretView)| e.0)
}

pub open spec fn strings_view(v: Seq<String>) -> Seq<Seq<char>> {
    v.map_values(|s: String| s@)
}

/// A key that can be stored in the public namespace: non-empty, without a leading dot.
pub open spec fn is_public_key(k: Seq<char>) -> bool {
    k.len() > 0 && k[0] != '.'
}

/// A key that can be stored in the private namespace: non-empty.
pub open spec fn is_private_key(k: Seq<char>) -> bool {
    k.len() > 0
}

/// The contents of a holder: public and private entries, in storage order.
pub struct HolderView {
    pub public: EntriesView,
    pub private: EntriesView,
}

/// Keys are unique within each namespace, valid for it, and no key is in both.
pub open spec fn holder_wf(h: HolderView) -> bool {
    &&& unique_keys(h.public)
    &&& unique_keys(h.private)
    &&& forall|i: int|
        0 <= i < h.public.len() ==> is_public_key(#[trigger] h.public[i].0) && !has_key(
            h.private,
            h.public[i].0,
        )
    &&& forall|i: int| 0 <= i < h.private.len() ==> is_private_key(#[trigger] h.private[i].0)
}

pub proof fn lemma_index_of_key(s: EntriesView, k: Seq<char>, i: int)
    requires
        unique_keys(s),
        0 <= i < s.len(),
        s[i].0 == k,
    ensures
        has_key(s, k),
        index_of_key(s, k) == i,
{
    assert(has_key(s, k));
    let j = index_of_key(s, k);
    assert(s[j].0 == k);
}

pub proof fn lemma_with_entry_keys(s: EntriesView, k: Seq<char>, v: SecretView)
    requires
        unique_keys(s),
    ensures
        unique_keys(with_entry(s, k, v)),
        forall|i: int|
            0 <= i < with_entry(s, k, v).len() ==> (#[trigger] with_entry(s, k, v)[i]).0 == k
                || (i < s.len() && with_entry(s, k, v)[i].0 == s[i].0),
        has_key(with_entry(s, k, v), k),
        value_of(with_entry(s, k, v), k) == Some(v),
        forall|j: Seq<char>| j != k ==> value_of(#[trigger] with_entry(s, k, v), j) == value_of(s, j),
{
    let t = with_entry(s, k, v);
    if has_key(s, k) {
        let idx = index_of_key(s, k);
        assert forall|i: int| 0 <= i < t.len() implies #[trigger] t[i].0 == s[i].0 by {}
        assert(unique_keys(t));
        lemma_index_of_key(t, k, idx);
        assert forall|j: Seq<char>| j != k implies value_of(#[trigger] with_entry(s, k, v), j)
            == value_of(s, j) by {
            if has_key(s, j) {
                let p = index_of_key(s, j);
                assert(t[p].0 == j);
                lemma_index_of_key(t, j, p);
            }
            if has_key(t, j) {
                let p = index_of_key(t, j);
                assert(s[p].0 == j);
            }
        }
    } else {
        assert(unique_keys(t)) by {
            assert forall|a: int, b: int|
                0 <= a < t.len() && 0 <= b < t.len() && a != b implies #[trigger] t[a].0
                != #[trigger] t[b].0 by {
                if a < s.len() && b < s.len() {
                } else if a < s.len() {
                    assert(s[a].0 != k);
                } else {
                    assert(s[b].0 != k);
                }
            }
        }
        lemma_index_of_key(t, k, s.len() as int);
        assert forall|j: Seq<char>| j != k implies value_of(#[trigger] with_entry(s, k, v), j)
            == value_of(s, j) by {
            if has_key(s, j) {
                let p = index_of_key(s, j);
                assert(t[p].0 == j);
                lemma_index_of_key(t, j, p);
            }
            if has_key(t, j) {
                let p = index_of_key(t, j);
                assert(s[p].0 == j);
            }
        }
    }
}

/// Where the `i`-th entry of `without_key(s, k)` came from in `s`.
pub open spec fn removed_source(s: EntriesView, k: Seq<char>, i: int) -> int {
    if has_key(s, k) && i >= index_of_key(s, k) {
        i + 1
    } else {
        i
    }
}

pub proof fn lemma_without_key(s: EntriesView, k: Seq<char>)
    requires
        unique_keys(s),
    ensures
        unique_keys(without_key(s, k)),
        forall|i: int|
            0 <= i < without_key(s, k).len() ==> 0 <= removed_source(s, k, i) < s.len()
                && #[trigger] without_key(s, k)[i] == s[removed_source(s, k, i)]
                && s[removed_source(s, k, i)].0 != k,
        !has_key(without_key(s, k), k),
        forall|j: Seq<char>| j != k ==> value_of(#[trigger] without_key(s, k), j) == value_of(s, j),
{
    let t = without_key(s, k);
    if has_key(s, k) {
        let idx = index_of_key(s, k);
        assert forall|i: int| 0 <= i < t.len() implies 0 <= removed_source(s, k, i) < s.len()
            && #[trigger] t[i] == s[removed_source(s, k, i)] && s[removed_source(s, k, i)].0 != k by {
            if i < idx {
                assert(t[i] == s[i]);
            } else {
                assert(t[i] == s[i + 1]);
            }
        }
        assert(unique_keys(t)) by {
            assert forall|a: int, b: int|
                0 <= a < t.len() && 0 <= b < t.len() && a != b implies #[trigger] t[a].0
                != #[trigger] t[b].0 by {
                let a2 = if a < idx { a } else { a + 1 };
                let b2 = if b < idx { b } else { b + 1 };
                assert(t[a] == s[a2]);
                assert(t[b] == s[b2]);
            }
        }
        assert forall|i: int| 0 <= i < t.len() implies #[trigger] t[i].0 != k by {
            let i2 = if i < idx { i } else { i + 1 };
            assert(t[i] == s[i2]);
        }
        assert forall|j: Seq<char>| j != k implies value_of(#[trigger] without_key(s, k), j)
            == value_of(s, j) by {
            if has_key(s, j) {
                let p = index_of_key(s, j);
                let p2 = if p < idx { p } else { p - 1 };
                assert(p != idx);
                assert(t[p2] == s[p]);
                lemma_index_of_key(t, j, p2);
            }
            if has_key(t, j) {
                let p = index_of_key(t, j);
                let p2 = if p < idx { p } else { p + 1 };
                assert(t[p] == s[p2]);
            }
        }
    } else {
        assert forall|i: int| 0 <= i < t.len() implies 0 <= removed_source(s, k, i) < s.len()
            && #[trigger] t[i] == s[removed_source(s, k, i)] && s[removed_source(s, k, i)].0 != k by {
            assert(t[i] == s[i]);
        }
    }
}

/// Public and private secrets under string keys.
pub struct Holder {
    public: Vec<Entry>,
    private: Vec<Entry>,
}

impl View for Holder {
    type V = HolderView;

    closed spec fn view(&self) -> HolderView {
        HolderView { public: entries_view(self.public@), private: entries_view(self.private@) }
    }
}

/// Position of `key` among `v`.
fn find(v: &Vec<Entry>, key: &String) -> (r: Option<usize>)
    ensures
        match r {
            Some(i) => i < v@.len() && v@[i as int].key@ == key@,
            None => !has_key(entries_view(v@), key@),
        },
{
    let mut i: usize = 0;
    while i < v.len()
        invariant
            i <= v@.len(),
            forall|j: int| 0 <= j < i ==> #[trigger] v@[j].key@ != key@,
        decreases v@.len() - i,
    {
        if v[i].key == *key {
            return Some(i);
        }
        i = i + 1;
    }
    assert forall|j: int| 0 <= j < entries_view(v@).len() implies #[trigger] entries_view(
        v@,
    )[j].0 != key@ by {
        assert(v@[j].key@ != key@);
    }
    None
}

/// The keys of `v`, in order.
fn keys_in(v: &Vec<Entry>) -> (r: Vec<String>)
    ensures
        strings_view(r@) == keys_of(entries_view(v@)),
{
    let mut out: Vec<String> = Vec::new();
    let mut i: usize = 0;
    while i < v.len()
        invariant
            i <= v@.len(),
            out@.len() == i,
            forall|j: int| 0 <= j < i ==> #[trigger] out@[j]@ == v@[j].key@,
        decreases v@.len() - i,
    {
        out.push(v[i].key.clone());
        i = i + 1;
    }
    assert(strings_view(out@) =~= keys_of(entries_view(v@)));
    out
}

/// Whether `key` is non-empty and does not start with a dot.
fn public_key_ok(key: &str) -> (r: bool)
    ensures
        r == is_public_key(key@),
{
    if key.is_empty() {
        false
    } else {
        key.get_char(0) != '.'
    }
}

impl Holder {
    #[verifier::type_invariant]
    closed spec fn inv(&self) -> bool {
        holder_wf(self@)
    }

    /// Makes the namespace rules of this holder known to the caller's proof; it does
    /// nothing at run time.
    pub fn establish_wf(&self)
        ensures
            holder_wf(self@),
    {
        proof {
            use_type_invariant(self);
        }
    }

    /// An empty holder.
    pub fn new() -> (r: Holder)
        ensures
            r@.public == Seq::<(Seq<char>, SecretView)>::empty(),
            r@.private == Seq::<(Seq<char>, SecretView)>::empty(),
    {
        let r = Holder { public: Vec::new(), private: Vec::new() };
        assert(r@.public =~= Seq::empty());
        assert(r@.private =~= Seq::empty());
        r
    }

    /// A holder of the given entries; `None` where they break the namespace rules.
    pub fn from_entries(public: Vec<Entry>, private: Vec<Entry>) -> (r: Option<Holder>)
        ensures
            match r {
                Some(h) => h@ == (HolderView {
                    public: entries_view(public@),
                    private: entries_view(private@),
                }) && holder_wf(h@),
                None => !holder_wf(
                    HolderView { public: entries_view(public@), private: entries_view(private@) },
                ),
            },
    {
        let ghost view = HolderView {
            public: entries_view(public@),
            private: entries_view(private@),
        };
        let mut i: usize = 0;
        while i < private.len()
            invariant
                i <= private@.len(),
                view.private == entries_view(private@),
                forall|a: int, b: int|
                    0 <= a < i && 0 <= b < private@.len() && a != b ==> #[trigger] view.private[a].0
                        != #[trigger] view.private[b].0,
                forall|a: int| 0 <= a < i ==> is_private_key(#[trigger] view.private[a].0),
            decreases private@.len() - i,
        {
            if private[i].key.as_str().is_empty() {
                assert(!is_private_key(view.private[i as int].0));
                return None;
            }
            let mut j: usize = 0;
            while j < private.len()
                invariant
                    i < private@.len(),
                    j <= private@.len(),
                    view.private == entries_view(private@),
                    forall|b: int|
                        0 <= b < j && b != i ==> view.private[i as int].0 != #[trigger] view.private[b].0,
                decreases private@.len() - j,
            {
                if j != i && private[i].key == private[j].key {
                    assert(view.private[i as int].0 == view.private[j as int].0);
                    return None;
                }
                j = j + 1;
            }
            i = i + 1;
        }
        let mut i: usize = 0;
        while i < public.len()
            invariant
                i <= public@.len(),
                view.public == entries_view(public@),
                view.private == entries_view(private@),
                forall|a: int, b: int|
                    0 <= a < i && 0 <= b < public@.len() && a != b ==> #[trigger] view.public[a].0
                        != #[trigger] view.public[b].0,
                forall|a: int|
                    0 <= a < i ==> is_public_key(#[trigger] view.public[a].0) && !has_key(
                        view.private,
                        view.public[a].0,
                    ),
            decreases public@.len() - i,
        {
            if !public_key_ok(public[i].key.as_str()) {
                assert(!is_public_key(view.public[i as int].0));
                return None;
            }
            if let Some(p) = find(&private, &public[i].key) {
                assert(view.private[p as int].0 == view.public[i as int].0);
                assert(has_key(view.private, view.public[i as int].0));
                return None;
            }
            let mut j: usize = 0;
            while j < public.len()
                invariant
                    i < public@.len(),
                    j <= public@.len(),
                    view.public == entries_view(public@),
                    forall|b: int|
                        0 <= b < j && b != i ==> view.public[i as int].0 != #[trigger] view.public[b].0,
                decreases public@.len() - j,
            {
                if j != i && public[i].key == public[j].key {
                    assert(view.public[i as int].0 == view.public[j as int].0);
                    return None;
                }
                j = j + 1;
            }
            i = i + 1;
        }
        Some(Holder { public, private })
    }

    /// The entries of the public namespace.
    pub fn public_entries(&self) -> (r: &Vec<Entry>)
        ensures
            entries_view(r@) == self@.public,
    {
        &self.public
    }

    /// The entries of the private namespace.
    pub fn private_entries(&self) -> (r: &Vec<Entry>)
        ensures
            entries_view(r@) == self@.private,
    {
        &self.private
    }

    /// The secret under a public key.
    pub fn get(&self, key: &str) -> (r: Result<&Secret, Error>)
        ensures
            match r {
                Ok(s) => value_of(self@.public, key@) == Some(s@),
                Err(e) => value_of(self@.public, key@) is None && (e matches Error::KeyNotFound(k)
                    && k@ == key@),
            },
    {
        proof {
            use_type_invariant(self);
        }
        let k = key.to_owned();
        match find(&self.public, &k) {
            Some(i) => {
                proof {
                    lemma_index_of_key(self@.public, key@, i as int);
                }
                Ok(&self.public[i].secret)
            },
            None => Err(Error::KeyNotFound(k)),
        }
    }
    /// The secret under a private key (given without its leading dot).
    pub fn get_private(&self, key: &str) -> (r: Result<&Secret, Error>)
        ensures
            match r {
                Ok(s) => value_of(self@.private, key@) == Some(s@),
                Err(e) => value_of(self@.private, key@) is None && (e matches Error::KeyNotFound(k)
                    && k@ == key@),
            },
    {
        proof {
            use_type_invariant(self);
        }
        let k = key.to_owned();
        match find(&self.private, &k) {
            Some(i) => {
                proof {
                    lemma_index_of_key(self@.private, key@, i as int);
                }
                Ok(&self.private[i].secret)
            },
            None => Err(Error::KeyNotFound(k)),
        }
    }

    /// Stores `secret` under a public key, replacing what was there.
    pub fn set(&mut self, key: &str, secret: Secret) -> (r: Result<(), Error>)
        ensures
            r is Ok <==> is_public_key(key@) && !has_key(old(self)@.private, key@),
            match r {
                Ok(_) => final(self)@ == (HolderView {
                    public: with_entry(old(self)@.public, key@, secret@),
                    private: old(self)@.private,
                }),
                Err(e) => final(self)@ == old(self)@ && (e matches Error::InvalidKey(k) && k@
                    == key@),
            },
    {
        proof {
            use_type_invariant(&*self);
        }
        let k = key.to_owned();
        if !public_key_ok(key) {
            return Err(Error::InvalidKey(k));
        }
        if let Some(i) = find(&self.private, &k) {
            assert(self@.private[i as int].0 == key@);
            return Err(Error::InvalidKey(k));
        }
        let ghost h = self@;
        let ghost sv = secret@;
        proof {
            lemma_with_entry_keys(h.public, key@, sv);
        }
        let mut public: Vec<Entry> = Vec::new();
        std::mem::swap(&mut public, &mut self.public);
        assert(entries_view(public@) == h.public);
        match find(&public, &k) {
            Some(i) => {
                proof {
                    lemma_index_of_key(h.public, key@, i as int);
                }
                public[i] = Entry { key: k, secret };
            },
            None => {
                public.push(Entry { key: k, secret });
            },
        }
        assert(entries_view(public@) =~= with_entry(h.public, key@, sv));
        proof {
            let t = with_entry(h.public, key@, sv);
            assert forall|i: int| 0 <= i < t.len() implies is_public_key(#[trigger] t[i].0)
                && !has_key(h.private, t[i].0) by {
                if t[i].0 != key@ {
                    assert(is_public_key(h.public[i].0));
                }
            }
        }
        self.public = public;
        Ok(())
    }

    /// Stores `secret` under a private key (given without its leading dot).
    pub fn set_private(&mut self, key: &str, secret: Secret) -> (r: Result<(), Error>)
        ensures
            r is Ok <==> is_private_key(key@) && !has_key(old(self)@.public, key@),
            match r {
                Ok(_) => final(self)@ == (HolderView {
                    public: old(self)@.public,
                    private: with_entry(old(self)@.private, key@, secret@),
                }),
                Err(e) => final(self)@ == old(self)@ && (e matches Error::InvalidKey(k) && k@
                    == key@),
            },
    {
        proof {
            use_type_invariant(&*self);
        }
        let k = key.to_owned();
        if key.is_empty() {
            return Err(Error::InvalidKey(k));
        }
        if let Some(i) = find(&self.public, &k) {
            assert(self@.public[i as int].0 == key@);
            return Err(Error::InvalidKey(k));
        }
        let ghost h = self@;
        let ghost sv = secret@;
        proof {
            lemma_with_entry_keys(h.private, key@, sv);
        }
        let mut public: Vec<Entry> = Vec::new();
        std::mem::swap(&mut public, &mut self.public);
        let mut private: Vec<Entry> = Vec::new();
        std::mem::swap(&mut private, &mut self.private);
        assert(entries_view(public@) == h.public);
        assert(entries_view(private@) == h.private);
        match find(&private, &k) {
            Some(i) => {
                proof {
                    lemma_index_of_key(h.private, key@, i as int);
                }
                private[i] = Entry { key: k, secret };
            },
            None => {
                private.push(Entry { key: k, secret });
            },
        }
        let ghost t = with_entry(h.private, key@, sv);
        assert(entries_view(private@) =~= t);
        proof {
            assert forall|i: int| 0 <= i < t.len() implies is_private_key(#[trigger] t[i].0) by {
                if t[i].0 != key@ {
                    assert(is_private_key(h.private[i].0));
                }
            }
            assert forall|i: int| 0 <= i < h.public.len() implies !has_key(
                t,
                #[trigger] h.public[i].0,
            ) by {
                let pk = h.public[i].0;
                assert(!has_key(h.private, pk));
                if has_key(t, pk) {
                    let p = index_of_key(t, pk);
                    if pk == key@ {
                        assert(has_key(h.public, key@));
                    } else {
                        assert(t[p].0 == h.private[p].0);
                    }
                }
            }
        }
        self.private = private;
        self.public = public;
        Ok(())
    }

    /// Removes the secret under a public key; whether there was one.
    pub fn remove(&mut self, key: &str) -> (r: bool)
        ensures
            r == has_key(old(self)@.public, key@),
            final(self)@ == (HolderView {
                public: without_key(old(self)@.public, key@),
                private: old(self)@.private,
            }),
    {
        proof {
            use_type_invariant(&*self);
        }
        let k = key.to_owned();
        let ghost h = self@;
        proof {
            lemma_without_key(h.public, key@);
        }
        let mut public: Vec<Entry> = Vec::new();
        std::mem::swap(&mut public, &mut self.public);
        assert(entries_view(public@) == h.public);
        let found = match find(&public, &k) {
            Some(i) => {
                proof {
                    lemma_index_of_key(h.public, key@, i as int);
                }
                public.remove(i);
                true
            },
            None => false,
        };
        let ghost t = without_key(h.public, key@);
        assert(entries_view(public@) =~= t);
        proof {
            assert forall|i: int| 0 <= i < t.len() implies is_public_key(#[trigger] t[i].0)
                && !has_key(h.private, t[i].0) by {
                let j = removed_source(h.public, key@, i);
                assert(t[i] == h.public[j]);
                assert(is_public_key(h.public[j].0));
            }
        }
        self.public = public;
        found
    }

    /// Removes the secret under a private key (given without its leading dot).
    pub fn remove_private(&mut self, key: &str) -> (r: bool)
        ensures
            r == has_key(old(self)@.private, key@),
            final(self)@ == (HolderView {
                public: old(self)@.public,
                private: without_key(old(self)@.private, key@),
            }),
    {
        proof {
            use_type_invariant(&*self);
        }
        let k = key.to_owned();
        let ghost h = self@;
        proof {
            lemma_without_key(h.private, key@);
        }
        let mut public: Vec<Entry> = Vec::new();
        std::mem::swap(&mut public, &mut self.public);
        let mut private: Vec<Entry> = Vec::new();
        std::mem::swap(&mut private, &mut self.private);
        assert(entries_view(private@) == h.private);
        let found = match find(&private, &k) {
            Some(i) => {
                proof {
                    lemma_index_of_key(h.private, key@, i as int);
                }
                private.remove(i);
                true
            },
            None => false,
        };
        let ghost t = without_key(h.private, key@);
        assert(entries_view(private@) =~= t);
        proof {
            assert forall|i: int| 0 <= i < t.len() implies is_private_key(#[trigger] t[i].0) by {
                let j = removed_source(h.private, key@, i);
                assert(t[i] == h.private[j]);
                assert(is_private_key(h.private[j].0));
            }
            assert forall|i: int| 0 <= i < h.public.len() implies !has_key(
                t,
                #[trigger] h.public[i].0,
            ) by {
                let pk = h.public[i].0;
                assert(!has_key(h.private, pk));
                if has_key(t, pk) {
                    let p = index_of_key(t, pk);
                    let j = removed_source(h.private, key@, p);
                    assert(t[p] == h.private[j]);
                    assert(h.private[j].0 == pk);
                }
            }
        }
        self.private = private;
        self.public = public;
        found
    }

    /// The public keys, in storage order.
    pub fn keys(&self) -> (r: Vec<String>)
        ensures
            strings_view(r@) == keys_of(self@.public),
    {
        keys_in(&self.public)
    }

    /// The private keys (without their leading dot), in storage order.
    pub fn keys_private(&self) -> (r: Vec<String>)
        ensures
            strings_view(r@) == keys_of(self@.private),
    {
        keys_in(&self.private)
    }
}

} // verus!
