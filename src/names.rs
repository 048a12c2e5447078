//! Names: the normalized form under which users and rooms are looked up,
//! and the index from normalized names to ids.

use vstd::prelude::*;
use vstd::string::{StringExecFns, StrSliceExecFns};
use crate::text::{push_char, starts_with, str_eq, is_prefix};

verus! {

/// What `str::to_lowercase` returns for a text.
pub uninterp spec fn lower_of(s: Seq<char>) -> Seq<char>;

/// Relies on `str::to_lowercase`: the result depends on the text alone.
#[verifier::external_body]
pub(crate) fn lowercase(s: &str) -> (r: String)
    ensures
        r@ == lower_of(s@),
{
    s.to_lowercase()
}

/// Unicode's White_Space characters (what `char::is_whitespace` accepts).
pub open spec fn is_ws(c: char) -> bool {
    let u = c as u32;
    (0x09 <= u && u <= 0x0d) || u == 0x20 || u == 0x85 || u == 0xa0 || u == 0x1680
        || (0x2000 <= u && u <= 0x200a) || u == 0x2028 || u == 0x2029 || u == 0x202f
        || u == 0x205f || u == 0x3000
}

/// The base letter of a lower-case Latin letter with a diacritic; any other
/// character stands for itself.
pub open spec fn fold_char(c: char) -> char {
    let u = c as u32;
    if 0xe0 <= u && u <= 0xe5 { 'a' }
    else if u == 0xe7 { 'c' }
    else if 0xe8 <= u && u <= 0xeb { 'e' }
    else if 0xec <= u && u <= 0xef { 'i' }
    else if u == 0xf1 { 'n' }
    else if (0xf2 <= u && u <= 0xf6) || u == 0xf8 { 'o' }
    else if 0xf9 <= u && u <= 0xfc { 'u' }
    else if u == 0xfd || u == 0xff { 'y' }
    else { c }
}

/// Drops whitespace and folds diacritics, character by character.
pub open spec fn collapse(t: Seq<char>) -> Seq<char>
    decreases t.len(),
{
    if t.len() == 0 {
        Seq::empty()
    } else if is_ws(t.last()) {
        collapse(t.drop_last())
    } else {
        collapse(t.drop_last()).push(fold_char(t.last()))
    }
}

/// The normalized form of a name: lower-cased, without whitespace, with
/// diacritics folded to base letters.
/// Lower-case ASCII letters and digits only: such a text is its own
/// normalized form.
pub open spec fn plain(s: Seq<char>) -> bool {
    forall|i: int| 0 <= i < s.len() ==> ('a' <= #[trigger] s[i] && s[i] <= 'z') || ('0' <= s[i] && s[i] <= '9')
}

pub open spec fn normalize(s: Seq<char>) -> Seq<char> {
    if plain(s) {
        s
    } else {
        collapse(lower_of(s))
    }
}

pub(crate) fn is_ws_exec(c: char) -> (r: bool)
    ensures
        r == is_ws(c),
{
    let u = c as u32;
    (0x09 <= u && u <= 0x0d) || u == 0x20 || u == 0x85 || u == 0xa0 || u == 0x1680
        || (0x2000 <= u && u <= 0x200a) || u == 0x2028 || u == 0x2029 || u == 0x202f
        || u == 0x205f || u == 0x3000
}

fn fold_char_exec(c: char) -> (r: char)
    ensures
        r == fold_char(c),
{
    let u = c as u32;
    if 0xe0 <= u && u <= 0xe5 { 'a' }
    else if u == 0xe7 { 'c' }
    else if 0xe8 <= u && u <= 0xeb { 'e' }
    else if 0xec <= u && u <= 0xef { 'i' }
    else if u == 0xf1 { 'n' }
    else if (0xf2 <= u && u <= 0xf6) || u == 0xf8 { 'o' }
    else if 0xf9 <= u && u <= 0xfc { 'u' }
    else if u == 0xfd || u == 0xff { 'y' }
    else { c }
}

/// Drops whitespace and folds diacritics.
pub fn collapse_str(t: &str) -> (r: String)
    ensures
        r@ == collapse(t@),
{
    let n = t.unicode_len();
    let mut r = String::new();
    let mut i: usize = 0;
    while i < n
        invariant
            n == t@.len(),
            i <= n,
            r@ == collapse(t@.take(i as int)),
        decreases n - i,
    {
        let c = t.get_char(i);
        proof {
            assert(t@.take(i + 1).drop_last() =~= t@.take(i as int));
        }
        if !is_ws_exec(c) {
            push_char(&mut r, fold_char_exec(c));
        }
        i = i + 1;
    }
    assert(t@.take(n as int) =~= t@);
    r
}

/// The normalized form of a name, the key it is looked up under.
pub fn ascollapse(s: &str) -> (r: String)
    ensures
        r@ == normalize(s@),
{
    let n = s.unicode_len();
    let mut i: usize = 0;
    while i < n
        invariant
            n == s@.len(),
            i <= n,
            forall|j: int| 0 <= j < i ==> ('a' <= #[trigger] s@[j] && s@[j] <= 'z') || ('0' <= s@[j] && s@[j] <= '9'),
        decreases n - i,
    {
        let c = s.get_char(i);
        if !(('a' <= c && c <= 'z') || ('0' <= c && c <= '9')) {
            let low = lowercase(s);
            return collapse_str(low.as_str());
        }
        i = i + 1;
    }
    s.to_owned()
}

proof fn lemma_fold_no_ws(c: char)
    ensures
        !is_ws(fold_char(c)) <== !is_ws(c),
        fold_char(fold_char(c)) == fold_char(c),
{
}

/// What `collapse` returns holds no whitespace and is left as it is by
/// another `collapse`.
pub proof fn lemma_collapse_idempotent(t: Seq<char>)
    ensures
        collapse(collapse(t)) == collapse(t),
        forall|i: int| 0 <= i < collapse(t).len() ==> !is_ws(#[trigger] collapse(t)[i]),
    decreases t.len(),
{
    if t.len() > 0 {
        lemma_collapse_idempotent(t.drop_last());
        let p = collapse(t.drop_last());
        if !is_ws(t.last()) {
            let q = p.push(fold_char(t.last()));
            lemma_fold_no_ws(t.last());
            assert(q.drop_last() =~= p);
            assert(q.last() == fold_char(t.last()));
            assert forall|i: int| 0 <= i < q.len() implies !is_ws(#[trigger] q[i]) by {
                if i < p.len() {
                    assert(q[i] == p[i]);
                }
            }
        }
    }
}

/// The key of a name index entry and its id.
pub open spec fn entries_map(es: Seq<(String, u64)>) -> Map<Seq<char>, u64>
    decreases es.len(),
{
    if es.len() == 0 {
        Map::empty()
    } else {
        entries_map(es.drop_last()).insert(es.last().0@, es.last().1)
    }
}

pub open spec fn keys_unique(es: Seq<(String, u64)>) -> bool {
    forall|i: int, j: int|
        0 <= i < j < es.len() ==> (#[trigger] es[i]).0@ != (#[trigger] es[j]).0@
}

proof fn lemma_entries_map(es: Seq<(String, u64)>)
    requires
        keys_unique(es),
    ensures
        forall|k: Seq<char>|
            #[trigger] entries_map(es).contains_key(k) <==> exists|i: int|
                0 <= i < es.len() && (#[trigger] es[i]).0@ == k,
        forall|i: int|
            0 <= i < es.len() ==> entries_map(es)[(#[trigger] es[i]).0@] == es[i].1,
        entries_map(es).dom().finite(),
    decreases es.len(),
{
    if es.len() > 0 {
        let p = es.drop_last();
        assert(keys_unique(p));
        lemma_entries_map(p);
        assert forall|k: Seq<char>|
            #[trigger] entries_map(es).contains_key(k) <==> exists|i: int|
                0 <= i < es.len() && (#[trigger] es[i]).0@ == k by {
            if entries_map(es).contains_key(k) && k != es.last().0@ {
                let i = choose|i: int| 0 <= i < p.len() && (#[trigger] p[i]).0@ == k;
                assert(es[i] == p[i]);
            }
            if exists|i: int| 0 <= i < es.len() && (#[trigger] es[i]).0@ == k {
                let i = choose|i: int| 0 <= i < es.len() && (#[trigger] es[i]).0@ == k;
                if i < p.len() {
                    assert(p[i] == es[i]);
                }
            }
        }
        assert forall|i: int| 0 <= i < es.len() implies entries_map(es)[(
        #[trigger] es[i]).0@] == es[i].1 by {
            if i < p.len() {
                assert(p[i] == es[i]);
                assert(es[i].0@ != es[es.len() - 1].0@);
            }
        }
    }
}

proof fn lemma_entries_dom_len(es: Seq<(String, u64)>)
    ensures
        entries_map(es).dom().finite(),
        entries_map(es).dom().len() <= es.len(),
    decreases es.len(),
{
    if es.len() > 0 {
        lemma_entries_dom_len(es.drop_last());
        let m = entries_map(es.drop_last());
        assert(entries_map(es).dom() == m.dom().insert(es.last().0@));
    }
}

/// A table from normalized names to ids, kept in insertion order, each key
/// at most once.
pub struct NameIndex {
    entries: Vec<(String, u64)>,
}

impl View for NameIndex {
    type V = Map<Seq<char>, u64>;

    closed spec fn view(&self) -> Map<Seq<char>, u64> {
        entries_map(self.entries@)
    }
}

impl NameIndex {
    /// Each key stands once.
    pub closed spec fn wf(&self) -> bool {
        keys_unique(self.entries@)
    }

    /// The keys, in the order they were inserted.
    pub closed spec fn key_order(&self) -> Seq<Seq<char>> {
        self.entries@.map_values(|e: (String, u64)| e.0@)
    }

    /// The key order lists exactly the keys.
    pub proof fn lemma_key_order(&self)
        requires
            self.wf(),
        ensures
            forall|k: Seq<char>| self@.contains_key(k) <==> #[trigger] self.key_order().contains(k),
            self.key_order().no_duplicates(),
    {
        lemma_entries_map(self.entries@);
        assert forall|i: int, j: int| 0 <= i < self.key_order().len() && 0 <= j < self.key_order().len() && i != j
            implies self.key_order()[i] != self.key_order()[j] by {
            if i < j {
                assert(self.entries@[i].0@ != self.entries@[j].0@);
            } else {
                assert(self.entries@[j].0@ != self.entries@[i].0@);
            }
        }
        assert forall|k: Seq<char>| self@.contains_key(k) <==> #[trigger] self.key_order().contains(k) by {
            if self@.contains_key(k) {
                let i = choose|i: int|
                    0 <= i < self.entries@.len() && (#[trigger] self.entries@[i]).0@ == k;
                assert(self.key_order()[i] == k);
            }
            if self.key_order().contains(k) {
                let i = choose|i: int| 0 <= i < self.key_order().len() && self.key_order()[i] == k;
                assert(self.entries@[i].0@ == k);
            }
        }
    }

    pub fn new() -> (r: NameIndex)
        ensures
            r.wf(),
            r@ == Map::<Seq<char>, u64>::empty(),
    {
        NameIndex { entries: Vec::new() }
    }

    fn find(&self, k: &str) -> (r: Option<usize>)
        requires
            self.wf(),
        ensures
            match r {
                Some(i) => i < self.entries@.len() && self.entries@[i as int].0@ == k@,
                None => forall|i: int|
                    0 <= i < self.entries@.len() ==> (#[trigger] self.entries@[i]).0@ != k@,
            },
    {
        let mut i: usize = 0;
        while i < self.entries.len()
            invariant
                i <= self.entries@.len(),
                forall|j: int| 0 <= j < i ==> (#[trigger] self.entries@[j]).0@ != k@,
            decreases self.entries@.len() - i,
        {
            if str_eq(self.entries[i].0.as_str(), k) {
                return Some(i);
            }
            i = i + 1;
        }
        None
    }

    /// The id filed under `k`.
    pub fn get(&self, k: &str) -> (r: Option<u64>)
        requires
            self.wf(),
        ensures
            r == (if self@.contains_key(k@) { Some(self@[k@]) } else { None::<u64> }),
    {
        proof {
            lemma_entries_map(self.entries@);
        }
        match self.find(k) {
            Some(i) => Some(self.entries[i].1),
            None => None,
        }
    }

    /// Files `v` under `k`, replacing what was there.
    pub fn insert(&mut self, k: String, v: u64)
        requires
            old(self).wf(),
        ensures
            final(self).wf(),
            final(self)@ == old(self)@.insert(k@, v),
    {
        proof {
            lemma_entries_map(self.entries@);
        }
        match self.find(k.as_str()) {
            Some(i) => {
                self.remove_at(i);
            },
            None => {},
        }
        let ghost mid = self.entries@;
        proof {
            lemma_entries_map(mid);
        }
        self.entries.push((k, v));
        assert(self.entries@.drop_last() == mid);
        assert(keys_unique(self.entries@));
        assert(entries_map(self.entries@) =~= old(self)@.insert(k@, v));
    }

    fn remove_at(&mut self, i: usize)
        requires
            old(self).wf(),
            i < old(self).entries@.len(),
        ensures
            final(self).wf(),
            final(self)@ == old(self)@.remove(old(self).entries@[i as int].0@),
            final(self).entries@ == old(self).entries@.remove(i as int),
    {
        let ghost k = self.entries@[i as int].0@;
        let ghost es = self.entries@;
        self.entries.remove(i);
        let ghost ns = self.entries@;
        proof {
            assert(keys_unique(ns));
            lemma_entries_map(es);
            lemma_entries_map(ns);
            assert forall|key: Seq<char>|
                #[trigger] entries_map(ns).contains_key(key) == entries_map(es).remove(
                    k,
                ).contains_key(key) by {
                if entries_map(ns).contains_key(key) {
                    let j = choose|j: int| 0 <= j < ns.len() && (#[trigger] ns[j]).0@ == key;
                    if j < i {
                        assert(ns[j] == es[j]);
                    } else {
                        assert(ns[j] == es[j + 1]);
                    }
                }
                if entries_map(es).remove(k).contains_key(key) {
                    let j = choose|j: int| 0 <= j < es.len() && (#[trigger] es[j]).0@ == key;
                    if j < i {
                        assert(ns[j] == es[j]);
                    } else {
                        assert(j != i);
                        assert(ns[j - 1] == es[j]);
                    }
                }
            }
            assert forall|key: Seq<char>| #[trigger]
                entries_map(ns).contains_key(key) implies entries_map(ns)[key]
                == entries_map(es)[key] by {
                let j = choose|j: int| 0 <= j < ns.len() && (#[trigger] ns[j]).0@ == key;
                if j < i {
                    assert(ns[j] == es[j]);
                } else {
                    assert(ns[j] == es[j + 1]);
                }
            }
            assert(entries_map(ns) =~= entries_map(es).remove(k));
        }
    }

    /// Removes what is filed under `k`, if anything.
    pub fn remove(&mut self, k: &str)
        requires
            old(self).wf(),
        ensures
            final(self).wf(),
            final(self)@ == old(self)@.remove(k@),
    {
        proof {
            lemma_entries_map(self.entries@);
        }
        match self.find(k) {
            Some(i) => self.remove_at(i),
            None => {
                assert(self@ =~= old(self)@.remove(k@));
            },
        }
    }

    /// How many entries there are: at least as many as keys.
    pub fn len(&self) -> (r: usize)
        ensures
            self@.dom().finite(),
            self@.dom().len() <= r,
    {
        proof {
            lemma_entries_dom_len(self.entries@);
        }
        self.entries.len()
    }

    /// The ids, in insertion order.
    pub fn ids(&self) -> (r: Vec<u64>)
        requires
            self.wf(),
        ensures
            forall|v: u64| #[trigger] r@.contains(v) <==> exists|k: Seq<char>|
                #[trigger] self@.contains_key(k) && self@[k] == v,
    {
        proof {
            lemma_entries_map(self.entries@);
        }
        let mut r: Vec<u64> = Vec::new();
        let mut i: usize = 0;
        while i < self.entries.len()
            invariant
                i <= self.entries@.len(),
                r@.len() == i,
                forall|j: int| 0 <= j < i ==> r@[j] == (#[trigger] self.entries@[j]).1,
            decreases self.entries@.len() - i,
        {
            r.push(self.entries[i].1);
            i = i + 1;
        }
        proof {
            assert forall|v: u64| #[trigger] r@.contains(v) <==> exists|k: Seq<char>|
                #[trigger] self@.contains_key(k) && self@[k] == v by {
                if r@.contains(v) {
                    let j = choose|j: int| 0 <= j < r@.len() && r@[j] == v;
                    let k = self.entries@[j].0@;
                    assert(self@.contains_key(k));
                }
                if exists|k: Seq<char>| #[trigger] self@.contains_key(k) && self@[k] == v {
                    let k = choose|k: Seq<char>| #[trigger] self@.contains_key(k) && self@[k] == v;
                    let j = choose|j: int| 0 <= j < self.entries@.len() && (#[trigger] self.entries@[j]).0@ == k;
                    assert(r@[j] == v);
                }
            }
        }
        r
    }

    /// The keys that start with `prefix`, in insertion order.
    pub fn keys_with_prefix(&self, prefix: &str) -> (r: Vec<String>)
        requires
            self.wf(),
        ensures
            r@.map_values(|s: String| s@) == self.key_order().filter(
                |k: Seq<char>| is_prefix(prefix@, k),
            ),
    {
        let mut r: Vec<String> = Vec::new();
        let mut i: usize = 0;
        while i < self.entries.len()
            invariant
                i <= self.entries@.len(),
                r@.map_values(|s: String| s@) == self.key_order().take(i as int).filter(
                    |k: Seq<char>| is_prefix(prefix@, k),
                ),
            decreases self.entries@.len() - i,
        {
            let ghost before = r@;
            proof {
                let ko = self.key_order();
                assert(ko.take(i + 1).drop_last() =~= ko.take(i as int));
                reveal(Seq::filter);
            }
            if starts_with(self.entries[i].0.as_str(), prefix) {
                r.push(self.entries[i].0.clone());
                assert(r@.map_values(|s: String| s@) =~= before.map_values(|s: String| s@).push(
                    self.entries@[i as int].0@,
                ));
            }
            i = i + 1;
        }
        assert(self.key_order().take(i as int) =~= self.key_order());
        r
    }
}

} // verus!
