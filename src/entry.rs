//! Build-command entries and the deduplicated set that holds them.

use vstd::prelude::*;
use crate::shell::token_views;

verus! {

/// One build command: the directory it ran in, the source file it compiled,
/// its tokens and, where known, the file it produced. Paths are held as the
/// bytes that name them.
#[derive(Debug)]
pub struct Entry {
    pub directory: Vec<u8>,
    pub file: Vec<u8>,
    pub command: Vec<String>,
    pub output: Option<Vec<u8>>,
}

/// The mathematical form of an entry.
pub struct EntryView {
    pub directory: Seq<u8>,
    pub file: Seq<u8>,
    pub command: Seq<Seq<char>>,
    pub output: Option<Seq<u8>>,
}

/// What tells two entries apart: everything but the output.
pub type EntryKey = (Seq<u8>, Seq<u8>, Seq<Seq<char>>);

impl EntryView {
    pub open spec fn key(self) -> EntryKey {
        (self.directory, self.file, self.command)
    }
}

pub open spec fn opt_bytes(o: Option<Vec<u8>>) -> Option<Seq<u8>> {
    match o {
        Some(b) => Some(b@),
        None => None,
    }
}

impl View for Entry {
    type V = EntryView;

    open spec fn view(&self) -> EntryView {
        EntryView {
            directory: self.directory@,
            file: self.file@,
            command: token_views(self.command@),
            output: opt_bytes(self.output),
        }
    }
}

fn same_bytes(a: &Vec<u8>, b: &Vec<u8>) -> (r: bool)
    ensures
        r == (a@ == b@),
{
    if a.len() != b.len() {
        return false;
    }
    let mut i: usize = 0;
    while i < a.len()
        invariant
            a@.len() == b@.len(),
            0 <= i <= a@.len(),
            forall|j: int| 0 <= j < i ==> a@[j] == b@[j],
        decreases a@.len() - i,
    {
        if a[i] != b[i] {
            return false;
        }
        i = i + 1;
    }
    assert(a@ =~= b@);
    true
}

fn same_tokens(a: &Vec<String>, b: &Vec<String>) -> (r: bool)
    ensures
        r == (token_views(a@) == token_views(b@)),
{
    if a.len() != b.len() {
        assert(token_views(a@).len() != token_views(b@).len());
        return false;
    }
    let mut i: usize = 0;
    while i < a.len()
        invariant
            a@.len() == b@.len(),
            0 <= i <= a@.len(),
            forall|j: int| 0 <= j < i ==> a@[j]@ == b@[j]@,
        decreases a@.len() - i,
    {
        if a[i] != b[i] {
            assert(token_views(a@)[i as int] != token_views(b@)[i as int]);
            return false;
        }
        i = i + 1;
    }
    assert(token_views(a@) =~= token_views(b@));
    true
}

impl Entry {
    /// Whether two entries share directory, file and command.
    pub fn same_key(&self, other: &Entry) -> (r: bool)
        ensures
            r == (self@.key() == other@.key()),
    {
        same_bytes(&self.directory, &other.directory) && same_bytes(&self.file, &other.file)
            && same_tokens(&self.command, &other.command)
    }
}

impl PartialEq for Entry {
    fn eq(&self, other: &Entry) -> (r: bool) {
        self.same_key(other)
    }
}

impl vstd::std_specs::cmp::PartialEqSpecImpl for Entry {
    open spec fn obeys_eq_spec() -> bool {
        true
    }

    open spec fn eq_spec(&self, other: &Entry) -> bool {
        self@.key() == other@.key()
    }
}

impl Eq for Entry {
}

/// The set that a sequence of entries makes when they are added in order: one
/// output per key, the last one added.
pub open spec fn entry_map(s: Seq<EntryView>) -> Map<EntryKey, Option<Seq<u8>>>
    decreases s.len(),
{
    if s.len() == 0 {
        Map::empty()
    } else {
        entry_map(s.drop_last()).insert(s.last().key(), s.last().output)
    }
}

pub open spec fn entry_views(s: Seq<Entry>) -> Seq<EntryView> {
    s.map_values(|e: Entry| e@)
}

pub open spec fn distinct_keys(s: Seq<EntryView>) -> bool {
    forall|i: int, j: int| 0 <= i < j < s.len() ==> s[i].key() != s[j].key()
}

/// A key is in the set of a sequence exactly where some entry of it has that key.
pub proof fn lemma_entry_map_dom(s: Seq<EntryView>, k: EntryKey)
    ensures
        entry_map(s).contains_key(k) <==> exists|i: int| 0 <= i < s.len() && s[i].key() == k,
    decreases s.len(),
{
    if s.len() > 0 {
        lemma_entry_map_dom(s.drop_last(), k);
        if exists|i: int| 0 <= i < s.drop_last().len() && s.drop_last()[i].key() == k {
            let i = choose|i: int| 0 <= i < s.drop_last().len() && s.drop_last()[i].key() == k;
            assert(s[i].key() == k);
        }
        if exists|i: int| 0 <= i < s.len() && s[i].key() == k {
            let i = choose|i: int| 0 <= i < s.len() && s[i].key() == k;
            if i < s.len() - 1 {
                assert(s.drop_last()[i].key() == k);
            }
        }
    }
}

/// Where keys are distinct, the set holds each entry's own output.
pub proof fn lemma_entry_map_at(s: Seq<EntryView>, i: int)
    requires
        distinct_keys(s),
        0 <= i < s.len(),
    ensures
        entry_map(s).contains_key(s[i].key()),
        entry_map(s)[s[i].key()] == s[i].output,
    decreases s.len(),
{
    if i < s.len() - 1 {
        assert(s.drop_last()[i] == s[i]);
        lemma_entry_map_at(s.drop_last(), i);
    }
}

/// The set of a sequence holds, for a key, the output of the last entry with it.
pub proof fn lemma_entry_map_last(s: Seq<EntryView>, i: int)
    requires
        0 <= i < s.len(),
        forall|j: int| i < j < s.len() ==> (#[trigger] s[j]).key() != s[i].key(),
    ensures
        entry_map(s).contains_key(s[i].key()),
        entry_map(s)[s[i].key()] == s[i].output,
    decreases s.len(),
{
    if i < s.len() - 1 {
        let d = s.drop_last();
        assert(d[i] == s[i]);
        assert forall|j: int| i < j < d.len() implies (#[trigger] d[j]).key() != d[i].key() by {
            assert(d[j] == s[j]);
        }
        lemma_entry_map_last(d, i);
        assert(s[s.len() - 1].key() != s[i].key());
    }
}

/// Where keys are distinct, the set has one key per entry.
pub proof fn lemma_entry_map_len(s: Seq<EntryView>)
    requires
        distinct_keys(s),
    ensures
        entry_map(s).dom().finite(),
        entry_map(s).len() == s.len(),
    decreases s.len(),
{
    if s.len() > 0 {
        let d = s.drop_last();
        assert(distinct_keys(d)) by {
            assert forall|i: int, j: int| 0 <= i < j < d.len() implies d[i].key() != d[j].key() by {
                assert(d[i] == s[i] && d[j] == s[j]);
            }
        }
        lemma_entry_map_len(d);
        lemma_entry_map_dom(d, s.last().key());
        if entry_map(d).contains_key(s.last().key()) {
            let i = choose|i: int| 0 <= i < d.len() && d[i].key() == s.last().key();
            assert(s[i].key() != s[s.len() - 1].key());
        }
        assert(entry_map(s).dom() == entry_map(d).dom().insert(s.last().key()));
    }
}

/// A set of entries: no two share directory, file and command.
#[derive(Debug)]
pub struct Entries {
    items: Vec<Entry>,
}

impl View for Entries {
    type V = Map<EntryKey, Option<Seq<u8>>>;

    open spec fn view(&self) -> Self::V {
        entry_map(self.members())
    }
}

impl Entries {
    /// The entries of the set, in the order in which they were first added.
    pub closed spec fn members(self) -> Seq<EntryView> {
        entry_views(self.items@)
    }

    /// The entries of the set, in the order in which they were first added.
    pub fn as_vec(&self) -> (r: &Vec<Entry>)
        ensures
            entry_views(r@) == self.members(),
    {
        &self.items
    }

    /// The number of entries in the set.
    pub fn len(&self) -> (r: usize)
        ensures
            r == self.members().len(),
            r == self@.len(),
    {
        proof {
            use_type_invariant(self);
            lemma_entry_map_len(self.members());
        }
        self.items.len()
    }

    #[verifier::type_invariant]
    spec fn wf(self) -> bool {
        distinct_keys(entry_views(self.items@))
    }

    /// An empty set.
    pub fn new() -> (r: Entries)
        ensures
            r@ == Map::<EntryKey, Option<Seq<u8>>>::empty(),
    {
        let r = Entries { items: Vec::new() };
        assert(entry_views(r.items@) =~= Seq::empty());
        r
    }

    /// The position of the entry with the same key, if there is one.
    fn position(&self, e: &Entry) -> (r: Option<usize>)
        ensures
            match r {
                Some(i) => i < self.items@.len() && self.items@[i as int]@.key() == e@.key(),
                None => forall|i: int|
                    0 <= i < self.items@.len() ==> self.items@[i]@.key() != e@.key(),
            },
    {
        let mut i: usize = 0;
        while i < self.items.len()
            invariant
                0 <= i <= self.items@.len(),
                forall|j: int| 0 <= j < i ==> self.items@[j]@.key() != e@.key(),
            decreases self.items@.len() - i,
        {
            if self.items[i].same_key(e) {
                return Some(i);
            }
            i = i + 1;
        }
        None
    }

    /// Whether an entry with the same directory, file and command is in the set.
    pub fn contains(&self, e: &Entry) -> (r: bool)
        ensures
            r == self@.contains_key(e@.key()),
    {
        let p = self.position(e);
        proof {
            let s = entry_views(self.items@);
            lemma_entry_map_dom(s, e@.key());
            if let Some(i) = p {
                assert(s[i as int].key() == e@.key());
            } else {
                assert forall|i: int| 0 <= i < s.len() implies s[i].key() != e@.key() by {
                    assert(s[i] == self.items@[i]@);
                }
            }
        }
        p.is_some()
    }

    /// The entry of the set with the same directory, file and command.
    pub fn find(&self, e: &Entry) -> (r: Option<&Entry>)
        ensures
            match r {
                Some(x) => self@.contains_key(e@.key()) && x@.key() == e@.key()
                    && self@[e@.key()] == x@.output,
                None => !self@.contains_key(e@.key()),
            },
    {
        proof {
            use_type_invariant(self);
        }
        let p = self.position(e);
        proof {
            let s = entry_views(self.items@);
            lemma_entry_map_dom(s, e@.key());
            if let Some(i) = p {
                assert(s[i as int] == self.items@[i as int]@);
                lemma_entry_map_at(s, i as int);
            } else {
                assert forall|i: int| 0 <= i < s.len() implies s[i].key() != e@.key() by {
                    assert(s[i] == self.items@[i]@);
                }
            }
        }
        match p {
            Some(i) => Some(&self.items[i]),
            None => None,
        }
    }

    /// Adds an entry; one with the same directory, file and command is replaced.
    pub fn insert(&mut self, e: Entry)
        ensures
            final(self)@ == old(self)@.insert(e@.key(), e@.output),
    {
        proof {
            use_type_invariant(&*self);
        }
        let p = self.position(&e);
        let ghost s = entry_views(self.items@);
        let ghost ev = e@;
        let mut items: Vec<Entry> = Vec::new();
        std::mem::swap(&mut self.items, &mut items);
        match p {
            Some(i) => {
                items.set(i, e);
                proof {
                    let t = entry_views(items@);
                    assert(t =~= s.update(i as int, ev));
                    assert(s[i as int] == old(self).items@[i as int]@);
                    assert(distinct_keys(t)) by {
                        assert forall|a: int, b: int| 0 <= a < b < t.len() implies t[a].key()
                            != t[b].key() by {
                            assert(s[a].key() != s[b].key());
                        }
                    }
                    assert forall|k: EntryKey| #[trigger] entry_map(t).contains_key(k)
                        == entry_map(s).insert(ev.key(), ev.output).contains_key(k) by {
                        lemma_entry_map_dom(s, k);
                        lemma_entry_map_dom(t, k);
                        if k != ev.key() {
                            if exists|a: int| 0 <= a < s.len() && s[a].key() == k {
                                let a = choose|a: int| 0 <= a < s.len() && s[a].key() == k;
                                assert(t[a].key() == k);
                            }
                            if exists|a: int| 0 <= a < t.len() && t[a].key() == k {
                                let a = choose|a: int| 0 <= a < t.len() && t[a].key() == k;
                                assert(s[a].key() == k);
                            }
                        } else {
                            assert(t[i as int].key() == k);
                        }
                    }
                    assert forall|k: EntryKey| #[trigger] entry_map(t).contains_key(k) implies entry_map(
                        t,
                    )[k] == entry_map(s).insert(ev.key(), ev.output)[k] by {
                        lemma_entry_map_dom(t, k);
                        let a = choose|a: int| 0 <= a < t.len() && t[a].key() == k;
                        lemma_entry_map_at(t, a);
                        if k != ev.key() {
                            lemma_entry_map_at(s, a);
                        } else {
                            lemma_entry_map_at(t, i as int);
                        }
                    }
                    assert(entry_map(t) =~= entry_map(s).insert(ev.key(), ev.output));
                }
            },
            None => {
                items.push(e);
                proof {
                    let t = entry_views(items@);
                    assert(t =~= s.push(ev));
                    assert(t.drop_last() =~= s);
                    assert(distinct_keys(t)) by {
                        assert forall|a: int, b: int| 0 <= a < b < t.len() implies t[a].key()
                            != t[b].key() by {
                            if b < s.len() {
                                assert(s[a].key() != s[b].key());
                            } else {
                                assert(s[a] == old(self).items@[a]@);
                            }
                        }
                    }
                }
            },
        }
        self.items = items;
    }
}

impl Entries {
    /// Whether every key of this set is a key of the other.
    fn keys_within(&self, other: &Entries) -> (r: bool)
        ensures
            r == (forall|k: EntryKey| self@.contains_key(k) ==> other@.contains_key(k)),
    {
        let mut i: usize = 0;
        while i < self.items.len()
            invariant
                0 <= i <= self.items@.len(),
                forall|j: int| 0 <= j < i ==> other@.contains_key((#[trigger] self.items@[j])@.key()),
            decreases self.items@.len() - i,
        {
            if !other.contains(&self.items[i]) {
                proof {
                    let k = self.items@[i as int]@.key();
                    lemma_entry_map_dom(self.members(), k);
                    assert(self.members()[i as int] == self.items@[i as int]@);
                }
                return false;
            }
            i = i + 1;
        }
        proof {
            assert forall|k: EntryKey| self@.contains_key(k) implies other@.contains_key(k) by {
                lemma_entry_map_dom(self.members(), k);
                let j = choose|j: int| 0 <= j < self.members().len() && self.members()[j].key() == k;
                assert(self.members()[j] == self.items@[j]@);
            }
        }
        true
    }
}

impl PartialEq for Entries {
    fn eq(&self, other: &Entries) -> (r: bool) {
        let r = self.keys_within(other) && other.keys_within(self);
        proof {
            if r {
                assert(self@.dom() =~= other@.dom());
            }
        }
        r
    }
}

impl vstd::std_specs::cmp::PartialEqSpecImpl for Entries {
    open spec fn obeys_eq_spec() -> bool {
        true
    }

    open spec fn eq_spec(&self, other: &Entries) -> bool {
        self@.dom() == other@.dom()
    }
}

} // verus!
