//! String-keyed attribute maps, and the split of an item's attributes into
//! those owned by the resolution protocol and those visible to clients.
use vstd::prelude::*;

verus! {

/// The mapping denoted by a sequence of key/value entries: each key maps to the
/// value of an entry that holds it.
pub open spec fn entries_view(s: Seq<(String, String)>) -> Map<Seq<char>, Seq<char>> {
    Map::new(
        |k: Seq<char>| exists|i: int| 0 <= i < s.len() && s[i].0@ == k,
        |k: Seq<char>| s[choose|i: int| 0 <= i < s.len() && s[i].0@ == k].1@,
    )
}

/// No two entries hold the same key.
pub open spec fn keys_distinct(s: Seq<(String, String)>) -> bool {
    forall|i: int, j: int|
        0 <= i < s.len() && 0 <= j < s.len() && i != j ==> s[i].0@ != s[j].0@
}

/// An entry's value is what the view gives for its key.
proof fn lemma_entry_in_view(s: Seq<(String, String)>, i: int)
    requires
        keys_distinct(s),
        0 <= i < s.len(),
    ensures
        entries_view(s).contains_key(s[i].0@),
        entries_view(s)[s[i].0@] == s[i].1@,
{
    let k = s[i].0@;
    assert(exists|j: int| 0 <= j < s.len() && s[j].0@ == k);
}

/// Appending an entry with a new key adds that key to the view.
proof fn lemma_view_push(s: Seq<(String, String)>, e: (String, String))
    requires
        keys_distinct(s),
        !entries_view(s).contains_key(e.0@),
    ensures
        keys_distinct(s.push(e)),
        entries_view(s.push(e)) =~= entries_view(s).insert(e.0@, e.1@),
{
    let t = s.push(e);
    assert(keys_distinct(t)) by {
        assert forall|i: int, j: int|
            0 <= i < t.len() && 0 <= j < t.len() && i != j implies t[i].0@ != t[j].0@ by {
            if i < s.len() && j == s.len() {
                assert(entries_view(s).contains_key(s[i].0@));
            } else if j < s.len() && i == s.len() {
                assert(entries_view(s).contains_key(s[j].0@));
            }
        }
    }
    assert forall|k: Seq<char>| #[trigger] entries_view(t).contains_key(k) implies entries_view(
        s,
    ).insert(e.0@, e.1@).contains_key(k) && entries_view(t)[k] == entries_view(s).insert(
        e.0@,
        e.1@,
    )[k] by {
        let j = choose|j: int| 0 <= j < t.len() && t[j].0@ == k;
        lemma_entry_in_view(t, j);
        if j < s.len() {
            lemma_entry_in_view(s, j);
        }
    }
    assert forall|k: Seq<char>| #[trigger]
        entries_view(s).insert(e.0@, e.1@).contains_key(k) implies entries_view(t).contains_key(
        k,
    ) by {
        if k == e.0@ {
            assert(t[s.len() as int].0@ == k);
        } else {
            let j = choose|j: int| 0 <= j < s.len() && s[j].0@ == k;
            assert(t[j].0@ == k);
        }
    }
}

/// Replacing the value of an existing entry replaces it in the view.
proof fn lemma_view_update(s: Seq<(String, String)>, i: int, e: (String, String))
    requires
        keys_distinct(s),
        0 <= i < s.len(),
        e.0@ == s[i].0@,
    ensures
        keys_distinct(s.update(i, e)),
        entries_view(s.update(i, e)) =~= entries_view(s).insert(e.0@, e.1@),
{
    let t = s.update(i, e);
    assert forall|k: Seq<char>| #[trigger] entries_view(t).contains_key(k) implies entries_view(
        s,
    ).insert(e.0@, e.1@).contains_key(k) && entries_view(t)[k] == entries_view(s).insert(
        e.0@,
        e.1@,
    )[k] by {
        let j = choose|j: int| 0 <= j < t.len() && t[j].0@ == k;
        lemma_entry_in_view(t, j);
        lemma_entry_in_view(s, j);
    }
    assert forall|k: Seq<char>| #[trigger]
        entries_view(s).insert(e.0@, e.1@).contains_key(k) implies entries_view(t).contains_key(
        k,
    ) by {
        if k == e.0@ {
            assert(t[i].0@ == k);
        } else {
            let j = choose|j: int| 0 <= j < s.len() && s[j].0@ == k;
            assert(t[j].0@ == k);
        }
    }
}

/// Taking out an entry takes its key out of the view.
proof fn lemma_view_remove(s: Seq<(String, String)>, i: int)
    requires
        keys_distinct(s),
        0 <= i < s.len(),
    ensures
        keys_distinct(s.remove(i)),
        entries_view(s.remove(i)) =~= entries_view(s).remove(s[i].0@),
{
    let t = s.remove(i);
    assert forall|k: Seq<char>| #[trigger] entries_view(t).contains_key(k) implies entries_view(
        s,
    ).remove(s[i].0@).contains_key(k) && entries_view(t)[k] == entries_view(s)[k] by {
        let j = choose|j: int| 0 <= j < t.len() && t[j].0@ == k;
        lemma_entry_in_view(t, j);
        if j < i {
            lemma_entry_in_view(s, j);
        } else {
            lemma_entry_in_view(s, j + 1);
        }
    }
    assert forall|k: Seq<char>| #[trigger]
        entries_view(s).remove(s[i].0@).contains_key(k) implies entries_view(t).contains_key(k) by {
        let j = choose|j: int| 0 <= j < s.len() && s[j].0@ == k;
        if j < i {
            assert(t[j].0@ == k);
        } else {
            assert(t[j - 1].0@ == k);
        }
    }
}

/// A mapping from attribute names to attribute values.
#[derive(Debug)]
pub struct AttrMap {
    entries: Vec<(String, String)>,
}

impl View for AttrMap {
    type V = Map<Seq<char>, Seq<char>>;

    closed spec fn view(&self) -> Map<Seq<char>, Seq<char>> {
        entries_view(self.entries@)
    }
}

impl AttrMap {
    /// No key is held twice.
    pub closed spec fn wf(&self) -> bool {
        keys_distinct(self.entries@)
    }

    /// An empty map.
    pub fn new() -> (r: AttrMap)
        ensures
            r.wf(),
            r@ == Map::<Seq<char>, Seq<char>>::empty(),
    {
        let r = AttrMap { entries: Vec::new() };
        assert(r@ =~= Map::<Seq<char>, Seq<char>>::empty());
        r
    }

    /// Whether no key is held twice.
    pub fn is_well_formed(&self) -> (r: bool)
        ensures
            r == self.wf(),
    {
        let mut i: usize = 0;
        while i < self.entries.len()
            invariant
                i <= self.entries@.len(),
                forall|a: int, b: int|
                    0 <= a < i && 0 <= b < i && a != b ==> self.entries@[a].0@
                        != self.entries@[b].0@,
            decreases self.entries@.len() - i,
        {
            let mut j: usize = 0;
            while j < i
                invariant
                    i < self.entries@.len(),
                    j <= i,
                    forall|b: int| 0 <= b < j ==> self.entries@[b].0@ != self.entries@[i as int].0@,
                decreases i - j,
            {
                if self.entries[j].0 == self.entries[i].0 {
                    assert(!keys_distinct(self.entries@)) by {
                        assert(self.entries@[j as int].0@ == self.entries@[i as int].0@);
                    }
                    return false;
                }
                j = j + 1;
            }
            i = i + 1;
        }
        true
    }

    /// The index of the entry that holds `key`, if any.
    fn find(&self, key: &String) -> (r: Option<usize>)
        requires
            self.wf(),
        ensures
            r matches Some(i) ==> i < self.entries@.len() && self.entries@[i as int].0@ == key@,
            r is None ==> !self@.contains_key(key@),
    {
        let mut i: usize = 0;
        while i < self.entries.len()
            invariant
                i <= self.entries@.len(),
                forall|j: int| 0 <= j < i ==> self.entries@[j].0@ != key@,
            decreases self.entries@.len() - i,
        {
            if self.entries[i].0 == *key {
                return Some(i);
            }
            i = i + 1;
        }
        None
    }

    /// Whether `key` is in the map.
    pub fn contains_key(&self, key: &str) -> (r: bool)
        requires
            self.wf(),
        ensures
            r == self@.contains_key(key@),
    {
        let k = key.to_owned();
        match self.find(&k) {
            Some(i) => {
                proof {
                    lemma_entry_in_view(self.entries@, i as int);
                }
                true
            },
            None => false,
        }
    }

    /// The value of `key`, if it is in the map.
    pub fn get(&self, key: &str) -> (r: Option<&str>)
        requires
            self.wf(),
        ensures
            r is Some == self@.contains_key(key@),
            r matches Some(v) ==> v@ == self@[key@],
    {
        let k = key.to_owned();
        match self.find(&k) {
            Some(i) => {
                proof {
                    lemma_entry_in_view(self.entries@, i as int);
                }
                Some(self.entries[i].1.as_str())
            },
            None => None,
        }
    }

    /// Sets `key` to `value`, replacing any earlier value.
    pub fn insert_string(&mut self, key: String, value: String)
        requires
            old(self).wf(),
        ensures
            final(self).wf(),
            final(self)@ == old(self)@.insert(key@, value@),
    {
        match self.find(&key) {
            Some(i) => {
                proof {
                    lemma_view_update(self.entries@, i as int, (key, value));
                }
                self.entries.set(i, (key, value));
            },
            None => {
                proof {
                    lemma_view_push(self.entries@, (key, value));
                }
                self.entries.push((key, value));
            },
        }
    }

    /// Sets `key` to `value`, replacing any earlier value.
    pub fn insert(&mut self, key: &str, value: &str)
        requires
            old(self).wf(),
        ensures
            final(self).wf(),
            final(self)@ == old(self)@.insert(key@, value@),
    {
        self.insert_string(key.to_owned(), value.to_owned());
    }

    /// Takes `key` out of the map, if it is there.
    pub fn remove(&mut self, key: &str)
        requires
            old(self).wf(),
        ensures
            final(self).wf(),
            final(self)@ == old(self)@.remove(key@),
    {
        let k = key.to_owned();
        match self.find(&k) {
            Some(i) => {
                proof {
                    lemma_view_remove(self.entries@, i as int);
                }
                self.entries.remove(i);
            },
            None => {
                assert(old(self)@ =~= old(self)@.remove(key@));
            },
        }
    }

    /// The keys of the map.
    pub fn keys(&self) -> (r: Vec<String>)
        requires
            self.wf(),
        ensures
            forall|i: int| 0 <= i < r@.len() ==> self@.contains_key(#[trigger] r@[i]@),
            forall|k: Seq<char>| #[trigger]
                self@.contains_key(k) ==> exists|i: int| 0 <= i < r@.len() && r@[i]@ == k,
    {
        let mut r: Vec<String> = Vec::new();
        let mut i: usize = 0;
        while i < self.entries.len()
            invariant
                self.wf(),
                i <= self.entries@.len(),
                r@.len() == i,
                forall|j: int| 0 <= j < i ==> #[trigger] r@[j]@ == self.entries@[j].0@,
            decreases self.entries@.len() - i,
        {
            r.push(self.entries[i].0.clone());
            i = i + 1;
        }
        assert forall|j: int| 0 <= j < r@.len() implies self@.contains_key(#[trigger] r@[j]@) by {
            lemma_entry_in_view(self.entries@, j);
        }
        assert forall|k: Seq<char>| #[trigger] self@.contains_key(k) implies exists|j: int|
            0 <= j < r@.len() && r@[j]@ == k by {
            let j = choose|j: int| 0 <= j < self.entries@.len() && self.entries@[j].0@ == k;
            assert(r@[j]@ == k);
        }
        r
    }

    /// A copy of the map.
    pub fn duplicate(&self) -> (r: AttrMap)
        requires
            self.wf(),
        ensures
            r.wf(),
            r@ == self@,
    {
        let mut entries: Vec<(String, String)> = Vec::new();
        let mut i: usize = 0;
        while i < self.entries.len()
            invariant
                i <= self.entries@.len(),
                keys_distinct(self.entries@),
                entries@.len() == i,
                forall|j: int|
                    0 <= j < i ==> entries@[j].0@ == self.entries@[j].0@ && entries@[j].1@
                        == self.entries@[j].1@,
            decreases self.entries@.len() - i,
        {
            let k = self.entries[i].0.clone();
            let v = self.entries[i].1.clone();
            entries.push((k, v));
            i = i + 1;
        }
        let r = AttrMap { entries };
        assert(forall|j: int| 0 <= j < r.entries@.len() ==> r.entries@[j].0@ == self.entries@[j].0@);
        assert(r@ =~= self@) by {
            assert forall|k: Seq<char>| #[trigger] r@.contains_key(k) implies self@.contains_key(k)
                && r@[k] == self@[k] by {
                let j = choose|j: int| 0 <= j < r.entries@.len() && r.entries@[j].0@ == k;
                lemma_entry_in_view(r.entries@, j);
                lemma_entry_in_view(self.entries@, j);
            }
            assert forall|k: Seq<char>| #[trigger] self@.contains_key(k) implies r@.contains_key(
                k,
            ) by {
                let j = choose|j: int| 0 <= j < self.entries@.len() && self.entries@[j].0@ == k;
                assert(r.entries@[j].0@ == k);
            }
        }
        r
    }
}


/// The attribute names that the resolution protocol owns: clients can neither
/// read nor change them.
pub open spec fn is_controlled(k: Seq<char>) -> bool {
    k == "target"@ || k == "service"@ || k == "username"@ || k == "application"@
}

/// What a client sees of an item: its attributes without the controlled ones,
/// with the item's label under the name `label`.
pub open spec fn client_view(attrs: Map<Seq<char>, Seq<char>>, label: Seq<char>) -> Map<
    Seq<char>,
    Seq<char>,
> {
    attrs.remove("target"@).remove("service"@).remove("username"@).remove("application"@).insert(
        "label"@,
        label,
    )
}

/// Whether a client update of `k` reaches the attribute map `attrs`: controlled
/// names never do, and `label` only where the map already holds it.
pub open spec fn updatable(k: Seq<char>, attrs: Map<Seq<char>, Seq<char>>) -> bool {
    !is_controlled(k) && (k != "label"@ || attrs.contains_key("label"@))
}

/// The attribute map `attrs` after the client updates `upd`.
pub open spec fn merged(attrs: Map<Seq<char>, Seq<char>>, upd: Map<Seq<char>, Seq<char>>) -> Map<
    Seq<char>,
    Seq<char>,
> {
    Map::new(
        |k: Seq<char>| attrs.contains_key(k) || (upd.contains_key(k) && updatable(k, attrs)),
        |k: Seq<char>|
            if upd.contains_key(k) && updatable(k, attrs) {
                upd[k]
            } else {
                attrs[k]
            },
    )
}

/// Client updates that would make a label empty, which are refused.
pub open spec fn label_rejected(upd: Map<Seq<char>, Seq<char>>) -> bool {
    upd.contains_key("label"@) && upd["label"@].len() == 0
}

/// An item's label after the client updates `upd`.
pub open spec fn updated_label(label: Seq<char>, upd: Map<Seq<char>, Seq<char>>) -> Seq<char> {
    if upd.contains_key("label"@) {
        upd["label"@]
    } else {
        label
    }
}

proof fn lemma_view_prefix(s: Seq<(String, String)>, i: int)
    requires
        keys_distinct(s),
        0 <= i < s.len(),
    ensures
        keys_distinct(s.subrange(0, i)),
        entries_view(s.subrange(0, i + 1)) =~= entries_view(s.subrange(0, i)).insert(
            s[i].0@,
            s[i].1@,
        ),
{
    let p = s.subrange(0, i);
    assert(s.subrange(0, i + 1) =~= p.push(s[i]));
    if entries_view(p).contains_key(s[i].0@) {
        let j = choose|j: int| 0 <= j < p.len() && p[j].0@ == s[i].0@;
        assert(s[j].0@ == s[i].0@);
    }
    lemma_view_push(p, s[i]);
}

proof fn lemma_merged_insert(
    attrs: Map<Seq<char>, Seq<char>>,
    upd: Map<Seq<char>, Seq<char>>,
    k: Seq<char>,
    v: Seq<char>,
)
    ensures
        updatable(k, attrs) ==> merged(attrs, upd.insert(k, v)) =~= merged(attrs, upd).insert(
            k,
            v,
        ),
        !updatable(k, attrs) ==> merged(attrs, upd.insert(k, v)) =~= merged(attrs, upd),
{
}

/// The attribute names that the protocol treats specially are distinct.
pub proof fn lemma_names_distinct()
    ensures
        "label"@ != "target"@,
        "label"@ != "service"@,
        "label"@ != "username"@,
        "target"@ != "service"@,
        "target"@ != "username"@,
        "service"@ != "username"@,
        "application"@ != "target"@,
        "application"@ != "service"@,
        "application"@ != "username"@,
        "application"@ != "label"@,
{
    reveal_strlit("label");
    reveal_strlit("target");
    reveal_strlit("service");
    reveal_strlit("username");
    reveal_strlit("application");
    assert("application"@.len() == 11);
    assert("label"@.len() == 5);
    assert("target"@.len() == 6);
    assert("service"@.len() == 7);
    assert("username"@.len() == 8);
}

/// Whether `name` is one of the controlled attribute names.
fn controlled_name(name: &String) -> (r: bool)
    ensures
        r == is_controlled(name@),
{
    *name == "target".to_owned() || *name == "service".to_owned() || *name == "username".to_owned()
        || *name == "application".to_owned()
}

impl AttrMap {
    /// Whether every entry of `self` is in `other` with the same value.
    pub fn is_submap_of(&self, other: &AttrMap) -> (r: bool)
        requires
            self.wf(),
            other.wf(),
        ensures
            r == self@.submap_of(other@),
    {
        let mut i: usize = 0;
        while i < self.entries.len()
            invariant
                self.wf(),
                other.wf(),
                i <= self.entries@.len(),
                forall|j: int|
                    0 <= j < i ==> other@.contains_key(#[trigger] self.entries@[j].0@)
                        && other@[self.entries@[j].0@] == self.entries@[j].1@,
            decreases self.entries@.len() - i,
        {
            let k = self.entries[i].0.as_str();
            match other.get(k) {
                Some(v) => {
                    if !(v.to_owned() == self.entries[i].1) {
                        proof {
                            lemma_entry_in_view(self.entries@, i as int);
                        }
                        return false;
                    }
                },
                None => {
                    proof {
                        lemma_entry_in_view(self.entries@, i as int);
                    }
                    return false;
                },
            }
            assert(other@.contains_key(self.entries@[i as int].0@) && other@[self.entries@[i as int].0@]
                == self.entries@[i as int].1@);
            i = i + 1;
        }
        assert forall|k: Seq<char>| #[trigger] self@.contains_key(k) implies other@.contains_key(k)
            && other@[k] == self@[k] by {
            let j = choose|j: int| 0 <= j < self.entries@.len() && self.entries@[j].0@ == k;
            lemma_entry_in_view(self.entries@, j);
        }
        true
    }

    /// What a client sees of an item with these attributes and `label`.
    pub fn client_attributes(&self, label: &String) -> (r: AttrMap)
        requires
            self.wf(),
        ensures
            r.wf(),
            r@ == client_view(self@, label@),
    {
        let mut r = self.duplicate();
        r.remove("target");
        r.remove("service");
        r.remove("username");
        r.remove("application");
        r.insert_string("label".to_owned(), label.clone());
        r
    }

    /// These attributes after the client updates `upd`, or `None` where `upd`
    /// would make the label empty.
    pub fn merge_updates(&self, upd: &AttrMap) -> (r: Option<AttrMap>)
        requires
            self.wf(),
            upd.wf(),
        ensures
            r is None <==> label_rejected(upd@),
            r matches Some(m) ==> m.wf() && m@ == merged(self@, upd@),
    {
        let label = "label".to_owned();
        let has_label = self.contains_key("label");
        let mut m = self.duplicate();
        let mut i: usize = 0;
        proof {
            assert(upd.entries@.subrange(0, 0) =~= Seq::<(String, String)>::empty());
            assert(entries_view(upd.entries@.subrange(0, 0)) =~= Map::<
                Seq<char>,
                Seq<char>,
            >::empty());
            assert(merged(self@, Map::empty()) =~= self@);
        }
        while i < upd.entries.len()
            invariant
                self.wf(),
                upd.wf(),
                m.wf(),
                i <= upd.entries@.len(),
                has_label == self@.contains_key("label"@),
                label@ == "label"@,
                m@ == merged(self@, entries_view(upd.entries@.subrange(0, i as int))),
                !label_rejected(entries_view(upd.entries@.subrange(0, i as int))),
            decreases upd.entries@.len() - i,
        {
            let k = &upd.entries[i].0;
            let v = &upd.entries[i].1;
            proof {
                lemma_view_prefix(upd.entries@, i as int);
                lemma_merged_insert(
                    self@,
                    entries_view(upd.entries@.subrange(0, i as int)),
                    k@,
                    v@,
                );
            }
            proof {
                lemma_names_distinct();
            }
            if controlled_name(k) {
            } else if *k == label {
                if v.as_str().is_empty() {
                    proof {
                        lemma_entry_in_view(upd.entries@, i as int);
                    }
                    return None;
                }
                if has_label {
                    m.insert_string(k.clone(), v.clone());
                }
            } else {
                m.insert_string(k.clone(), v.clone());
            }
            i = i + 1;
        }
        assert(upd.entries@.subrange(0, upd.entries@.len() as int) =~= upd.entries@);
        Some(m)
    }
}

} // verus!
