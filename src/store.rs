//! An in-memory attribute store in the shape of a secret service: named
//! collections of items, each item holding attributes, a label and a secret.
//! Its items are never locked, so a search gives them in the order of their
//! slots and no unlock step comes before an access.
use vstd::prelude::*;
use vstd::slice::slice_to_vec;

use crate::attributes::{client_view, label_rejected, merged, updated_label, AttrMap};
use crate::error::{decode_password, outcome, password_of, Error, ErrorModel};
use crate::secret_service::{empty_label, empty_label_error, names_default_collection};

verus! {

/// What an item holds.
#[verifier::ext_equal]
pub struct ItemModel {
    pub collection: nat,
    pub attributes: Map<Seq<char>, Seq<char>>,
    pub label: Seq<char>,
    pub secret: Seq<u8>,
}

/// What a store holds: the labels of its collections (the first is the default
/// collection) and its item slots, `None` where an item was deleted.
#[verifier::ext_equal]
pub struct StoreModel {
    pub collections: Seq<Seq<char>>,
    pub items: Seq<Option<ItemModel>>,
}

impl StoreModel {
    /// Whether slot `i` holds an item.
    pub open spec fn live(self, i: int) -> bool {
        0 <= i < self.items.len() && self.items[i] is Some
    }

    /// The item in slot `i`.
    pub open spec fn item(self, i: int) -> ItemModel {
        self.items[i]->Some_0
    }

    /// The store after the item in slot `i` takes `secret`.
    pub open spec fn with_secret(self, i: int, secret: Seq<u8>) -> StoreModel {
        StoreModel {
            items: self.items.update(i, Some(ItemModel { secret, ..self.item(i) })),
            ..self
        }
    }

    /// The store after the item in slot `i` takes new attributes and label.
    pub open spec fn with_attributes(
        self,
        i: int,
        attributes: Map<Seq<char>, Seq<char>>,
        label: Seq<char>,
    ) -> StoreModel {
        StoreModel {
            items: self.items.update(i, Some(ItemModel { attributes, label, ..self.item(i) })),
            ..self
        }
    }

    /// The store after the item in slot `i` is deleted.
    pub open spec fn without(self, i: int) -> StoreModel {
        StoreModel { items: self.items.update(i, None), ..self }
    }

    /// The store after a new item is added.
    pub open spec fn with_item(self, item: ItemModel) -> StoreModel {
        StoreModel { items: self.items.push(Some(item)), ..self }
    }

    /// The first collection labelled `name`, if any.
    pub open spec fn labelled(self, name: Seq<char>) -> Option<int> {
        if exists|i: int| 0 <= i < self.collections.len() && self.collections[i] == name {
            Some(
                choose|i: int|
                    0 <= i < self.collections.len() && self.collections[i] == name && forall|
                        j: int,
                    |
                        0 <= j < i ==> self.collections[j] != name,
            )
        } else {
            None
        }
    }

    /// The collection named `name`: the default one for `default`, else the
    /// first one labelled `name`.
    pub open spec fn collection_named(self, name: Seq<char>) -> Option<int> {
        if name == "default"@ {
            Some(0)
        } else {
            self.labelled(name)
        }
    }

    /// The collection that a new item for the target `name` goes to, and the
    /// store after it was looked up or created.
    pub open spec fn collection_for(self, name: Seq<char>) -> (int, StoreModel) {
        match self.collection_named(name) {
            Some(c) => (c, self),
            None => (
                self.collections.len() as int,
                StoreModel { collections: self.collections.push(name), ..self },
            ),
        }
    }

    /// The store's own consistency: it has a default collection, and each item
    /// lies in one of its collections.
    pub open spec fn wf(self) -> bool {
        &&& self.collections.len() >= 1
        &&& forall|i: int| #[trigger]
            self.live(i) ==> self.item(i).collection < self.collections.len()
    }
}

/// What applying the client updates `upd` to the item in slot `i` gives, and the
/// store after it: an empty label is refused; otherwise the attributes are
/// merged and the label is replaced where `upd` names one.
pub open spec fn item_update_outcome(s: StoreModel, i: int, upd: Map<Seq<char>, Seq<char>>) -> (
    Result<(), ErrorModel>,
    StoreModel,
) {
    if label_rejected(upd) {
        (Err(empty_label_error()), s)
    } else {
        (
            Ok(()),
            s.with_attributes(
                i,
                merged(s.item(i).attributes, upd),
                updated_label(s.item(i).label, upd),
            ),
        )
    }
}

/// Whether an item matches `query`: it holds each of the query's attributes
/// with the same value, and lies in the default collection where asked.
pub open spec fn item_matches(
    item: ItemModel,
    query: Map<Seq<char>, Seq<char>>,
    default_only: bool,
) -> bool {
    query.submap_of(item.attributes) && (!default_only || item.collection == 0)
}

/// Whether slot `i` holds an item that matches `query`.
pub open spec fn slot_matches(
    s: StoreModel,
    query: Map<Seq<char>, Seq<char>>,
    default_only: bool,
    i: int,
) -> bool {
    s.live(i) && item_matches(s.item(i), query, default_only)
}

/// The slots below `n` that hold a matching item, in ascending order.
pub open spec fn matching_below(
    s: StoreModel,
    query: Map<Seq<char>, Seq<char>>,
    default_only: bool,
    n: int,
) -> Seq<int>
    decreases n,
{
    if n <= 0 {
        Seq::empty()
    } else if slot_matches(s, query, default_only, n - 1) {
        matching_below(s, query, default_only, n - 1).push(n - 1)
    } else {
        matching_below(s, query, default_only, n - 1)
    }
}

/// The slots that hold a matching item, in ascending order.
pub open spec fn matching(
    s: StoreModel,
    query: Map<Seq<char>, Seq<char>>,
    default_only: bool,
) -> Seq<int> {
    matching_below(s, query, default_only, s.items.len() as int)
}

/// The slots found below `n` are exactly the matching ones, in ascending order.
pub proof fn lemma_matching_below(
    s: StoreModel,
    query: Map<Seq<char>, Seq<char>>,
    default_only: bool,
    n: int,
)
    requires
        0 <= n <= s.items.len(),
    ensures
        forall|k: int|
            0 <= k < matching_below(s, query, default_only, n).len() ==> 0 <= #[trigger] matching_below(
                s,
                query,
                default_only,
                n,
            )[k] < n && slot_matches(s, query, default_only, matching_below(s, query, default_only, n)[k]),
        forall|k1: int, k2: int|
            0 <= k1 < k2 < matching_below(s, query, default_only, n).len() ==> #[trigger] matching_below(
                s,
                query,
                default_only,
                n,
            )[k1] < #[trigger] matching_below(s, query, default_only, n)[k2],
        forall|i: int|
            0 <= i < n && #[trigger] slot_matches(s, query, default_only, i) ==> matching_below(
                s,
                query,
                default_only,
                n,
            ).contains(i),
    decreases n,
{
    if n > 0 {
        lemma_matching_below(s, query, default_only, n - 1);
        let p = matching_below(s, query, default_only, n - 1);
        if slot_matches(s, query, default_only, n - 1) {
            assert forall|i: int|
                0 <= i < n && #[trigger] slot_matches(s, query, default_only, i) implies p.push(
                n - 1,
            ).contains(i) by {
                if i < n - 1 {
                    let k = choose|k: int| 0 <= k < p.len() && p[k] == i;
                    assert(p.push(n - 1)[k] == i);
                } else {
                    assert(p.push(n - 1)[p.len() as int] == i);
                }
            }
        }
    }
}

/// Two stores whose slots below `n` match alike give the same slots.
pub proof fn lemma_matching_frame(
    s1: StoreModel,
    s2: StoreModel,
    query: Map<Seq<char>, Seq<char>>,
    default_only: bool,
    n: int,
)
    requires
        forall|i: int|
            0 <= i < n ==> slot_matches(s1, query, default_only, i) == slot_matches(
                s2,
                query,
                default_only,
                i,
            ),
    ensures
        matching_below(s1, query, default_only, n) == matching_below(s2, query, default_only, n),
    decreases n,
{
    if n > 0 {
        lemma_matching_frame(s1, s2, query, default_only, n - 1);
    }
}

/// An item as the store keeps it.
pub struct StoredItem {
    collection: usize,
    attributes: AttrMap,
    label: String,
    secret: Vec<u8>,
}

impl View for StoredItem {
    type V = ItemModel;

    closed spec fn view(&self) -> ItemModel {
        ItemModel {
            collection: self.collection as nat,
            attributes: self.attributes@,
            label: self.label@,
            secret: self.secret@,
        }
    }
}

/// The view of an item slot.
pub open spec fn slot_view(slot: Option<StoredItem>) -> Option<ItemModel> {
    match slot {
        Some(item) => Some(item@),
        None => None,
    }
}

/// An in-memory secret store.
pub struct SecretStore {
    collections: Vec<String>,
    items: Vec<Option<StoredItem>>,
}

impl View for SecretStore {
    type V = StoreModel;

    closed spec fn view(&self) -> StoreModel {
        StoreModel {
            collections: self.collections@.map_values(|c: String| c@),
            items: self.items@.map_values(|slot: Option<StoredItem>| slot_view(slot)),
        }
    }
}

impl SecretStore {
    /// The store's consistency; the attribute maps of its items are well formed.
    pub closed spec fn wf(&self) -> bool {
        &&& self@.wf()
        &&& forall|i: int|
            0 <= i < self.items@.len() && #[trigger] self.items@[i] is Some
                ==> self.items@[i]->Some_0.attributes.wf()
    }

    /// A store with an empty default collection, labelled `Login`, and nothing else.
    pub fn new() -> (r: SecretStore)
        ensures
            r.wf(),
            r@.collections == seq!["Login"@],
            r@.items == Seq::<Option<ItemModel>>::empty(),
    {
        let mut collections: Vec<String> = Vec::new();
        collections.push("Login".to_owned());
        let r = SecretStore { collections, items: Vec::new() };
        assert(r@.collections =~= seq!["Login"@]);
        assert(r@.items =~= Seq::<Option<ItemModel>>::empty());
        r
    }

    /// The slots of the items that match `query`, in ascending order; only
    /// those of the default collection where `default_only` holds.
    pub fn search_items(&self, query: &AttrMap, default_only: bool) -> (r: Vec<usize>)
        requires
            self.wf(),
            query.wf(),
        ensures
            r@.map_values(|i: usize| i as int) == matching(self@, query@, default_only),
    {
        let mut r: Vec<usize> = Vec::new();
        let mut i: usize = 0;
        while i < self.items.len()
            invariant
                self.wf(),
                query.wf(),
                i <= self.items@.len(),
                r@.map_values(|j: usize| j as int) == matching_below(
                    self@,
                    query@,
                    default_only,
                    i as int,
                ),
            decreases self.items@.len() - i,
        {
            let found = match &self.items[i] {
                Some(item) => query.is_submap_of(&item.attributes) && (!default_only
                    || item.collection == 0),
                None => false,
            };
            assert(self@.items[i as int] == slot_view(self.items@[i as int]));
            if found {
                r.push(i);
                assert(r@.map_values(|j: usize| j as int) =~= matching_below(
                    self@,
                    query@,
                    default_only,
                    i as int,
                ).push(i as int));
            }
            i = i + 1;
        }
        r
    }

    /// Whether the store is consistent.
    pub fn is_well_formed(&self) -> (r: bool)
        ensures
            r == self.wf(),
    {
        if self.collections.len() == 0 {
            return false;
        }
        let mut i: usize = 0;
        while i < self.items.len()
            invariant
                self.collections@.len() >= 1,
                i <= self.items@.len(),
                forall|j: int|
                    0 <= j < i && #[trigger] self.items@[j] is Some ==> self.items@[j]->Some_0.attributes.wf()
                        && (self.items@[j]->Some_0.collection as int) < self.collections@.len(),
            decreases self.items@.len() - i,
        {
            match &self.items[i] {
                Some(item) => {
                    if item.collection >= self.collections.len() {
                        assert(self@.items[i as int] == slot_view(self.items@[i as int]));
                        assert(self@.live(i as int));
                        return false;
                    }
                    if !item.attributes.is_well_formed() {
                        return false;
                    }
                },
                None => {},
            }
            i = i + 1;
        }
        assert forall|j: int| #[trigger] self@.live(j) implies self@.item(j).collection
            < self@.collections.len() by {
            assert(self@.items[j] == slot_view(self.items@[j]));
        }
        true
    }

    /// The collection named `name`: the default collection for `default`,
    /// else the first collection labelled `name`.
    pub fn get_collection(&self, name: &String) -> (r: Option<usize>)
        requires
            self.wf(),
        ensures
            r matches Some(c) ==> self@.collection_named(name@) == Some(c as int) && c
                < self@.collections.len(),
            r is None ==> self@.collection_named(name@) is None,
    {
        if names_default_collection(name) {
            return Some(0);
        }
        let mut j: usize = 0;
        while j < self.collections.len()
            invariant
                j <= self.collections@.len(),
                name@ != "default"@,
                forall|k: int| 0 <= k < j ==> self@.collections[k] != name@,
            decreases self.collections@.len() - j,
        {
            assert(self@.collections[j as int] == self.collections@[j as int]@);
            if self.collections[j] == *name {
                let ghost cs = self@.collections;
                assert(0 <= j < cs.len() && cs[j as int] == name@ && forall|k: int|
                    0 <= k < j ==> cs[k] != name@);
                let ghost i = choose|i: int|
                    0 <= i < cs.len() && cs[i] == name@ && forall|k: int|
                        0 <= k < i ==> cs[k] != name@;
                assert(forall|k: int| 0 <= k < j ==> cs[k] != name@);
                assert(i == j);
                assert(exists|k: int| 0 <= k < cs.len() && cs[k] == name@);
                return Some(j);
            }
            j = j + 1;
        }
        None
    }

    /// Creates a collection labelled `name` and gives its index; for `default`,
    /// gives the default collection.
    pub fn create_collection(&mut self, name: &String) -> (r: usize)
        requires
            old(self).wf(),
        ensures
            final(self).wf(),
            name@ == "default"@ ==> r == 0 && final(self)@ == old(self)@,
            name@ != "default"@ ==> r == old(self)@.collections.len() && final(self)@
                == (StoreModel { collections: old(self)@.collections.push(name@), ..old(self)@ }),
    {
        if names_default_collection(name) {
            return 0;
        }
        let r = self.collections.len();
        self.collections.push(name.clone());
        assert(self@.collections =~= old(self)@.collections.push(name@));
        assert(self@.items =~= old(self)@.items);
        assert(forall|j: int| #[trigger] self@.live(j) ==> old(self)@.live(j));
        r
    }

    /// Adds an item to collection `collection`.
    pub fn create_item(
        &mut self,
        collection: usize,
        label: &String,
        attributes: &AttrMap,
        secret: &[u8],
    )
        requires
            old(self).wf(),
            attributes.wf(),
            collection < old(self)@.collections.len(),
        ensures
            final(self).wf(),
            final(self)@ == old(self)@.with_item(
                ItemModel {
                    collection: collection as nat,
                    attributes: attributes@,
                    label: label@,
                    secret: secret@,
                },
            ),
    {
        let item = StoredItem {
            collection,
            attributes: attributes.duplicate(),
            label: label.clone(),
            secret: slice_to_vec(secret),
        };
        self.items.push(Some(item));
        assert(self@.items =~= old(self)@.items.push(Some(item@)));
        assert(self@.collections =~= old(self)@.collections);
        assert forall|j: int|
            0 <= j < self.items@.len() && #[trigger] self.items@[j] is Some implies self.items@[
                j
            ]->Some_0.attributes.wf() by {
            if j < old(self).items@.len() {
                assert(self.items@[j] == old(self).items@[j]);
            }
        }
        assert forall|j: int| #[trigger] self@.live(j) implies self@.item(j).collection
            < self@.collections.len() by {
            if j < old(self).items@.len() {
                assert(old(self)@.live(j));
            }
        }
    }

    /// The secret of the item in slot `i`.
    pub fn get_item_secret(&self, i: usize) -> (r: Vec<u8>)
        requires
            self.wf(),
            self@.live(i as int),
        ensures
            r@ == self@.item(i as int).secret,
    {
        assert(self@.items[i as int] == slot_view(self.items@[i as int]));
        match &self.items[i] {
            Some(item) => slice_to_vec(item.secret.as_slice()),
            None => Vec::new(),
        }
    }

    /// The label of the item in slot `i`.
    pub fn item_label(&self, i: usize) -> (r: String)
        requires
            self.wf(),
            self@.live(i as int),
        ensures
            r@ == self@.item(i as int).label,
    {
        assert(self@.items[i as int] == slot_view(self.items@[i as int]));
        match &self.items[i] {
            Some(item) => item.label.clone(),
            None => String::new(),
        }
    }

    /// All attributes of the item in slot `i`.
    pub fn item_all_attributes(&self, i: usize) -> (r: AttrMap)
        requires
            self.wf(),
            self@.live(i as int),
        ensures
            r.wf(),
            r@ == self@.item(i as int).attributes,
    {
        assert(self@.items[i as int] == slot_view(self.items@[i as int]));
        match &self.items[i] {
            Some(item) => item.attributes.duplicate(),
            None => AttrMap::new(),
        }
    }

    /// What a client sees of the attributes of the item in slot `i`.
    pub fn get_item_attributes(&self, i: usize) -> (r: AttrMap)
        requires
            self.wf(),
            self@.live(i as int),
        ensures
            r.wf(),
            r@ == client_view(self@.item(i as int).attributes, self@.item(i as int).label),
    {
        assert(self@.items[i as int] == slot_view(self.items@[i as int]));
        match &self.items[i] {
            Some(item) => item.attributes.client_attributes(&item.label),
            None => AttrMap::new(),
        }
    }

    /// Sets the secret of the item in slot `i`.
    pub fn set_item_secret(&mut self, i: usize, secret: &[u8])
        requires
            old(self).wf(),
            old(self)@.live(i as int),
        ensures
            final(self).wf(),
            final(self)@ == old(self)@.with_secret(i as int, secret@),
    {
        assert(self@.items[i as int] == slot_view(self.items@[i as int]));
        let item = match &self.items[i] {
            Some(item) => StoredItem {
                collection: item.collection,
                attributes: item.attributes.duplicate(),
                label: item.label.clone(),
                secret: slice_to_vec(secret),
            },
            None => {
                return ;
            },
        };
        let ghost v = item@;
        self.items.set(i, Some(item));
        assert(self@.items =~= old(self)@.items.update(i as int, Some(v)));
        assert(self@.collections =~= old(self)@.collections);
        assert(self@ =~= old(self)@.with_secret(i as int, secret@));
        assert forall|j: int|
            0 <= j < self.items@.len() && #[trigger] self.items@[j] is Some implies self.items@[
                j
            ]->Some_0.attributes.wf() by {
            if j != i {
                assert(self.items@[j] == old(self).items@[j]);
            }
        }
        assert forall|j: int| #[trigger] self@.live(j) implies self@.item(j).collection
            < self@.collections.len() by {
            assert(old(self)@.live(j));
        }
    }

    /// Replaces the attributes and the label of the item in slot `i`.
    pub fn set_item_attributes(&mut self, i: usize, attributes: AttrMap, label: String)
        requires
            old(self).wf(),
            old(self)@.live(i as int),
            attributes.wf(),
        ensures
            final(self).wf(),
            final(self)@ == old(self)@.with_attributes(i as int, attributes@, label@),
    {
        assert(self@.items[i as int] == slot_view(self.items@[i as int]));
        let item = match &self.items[i] {
            Some(item) => StoredItem {
                collection: item.collection,
                attributes,
                label,
                secret: slice_to_vec(item.secret.as_slice()),
            },
            None => {
                return ;
            },
        };
        let ghost v = item@;
        self.items.set(i, Some(item));
        assert(self@.items =~= old(self)@.items.update(i as int, Some(v)));
        assert(self@.collections =~= old(self)@.collections);
        assert(self@ =~= old(self)@.with_attributes(i as int, attributes@, label@));
        assert forall|j: int|
            0 <= j < self.items@.len() && #[trigger] self.items@[j] is Some implies self.items@[
                j
            ]->Some_0.attributes.wf() by {
            if j != i {
                assert(self.items@[j] == old(self).items@[j]);
            }
        }
        assert forall|j: int| #[trigger] self@.live(j) implies self@.item(j).collection
            < self@.collections.len() by {
            assert(old(self)@.live(j));
        }
    }

    /// The secret of the item in slot `i`, read as a UTF-8 password.
    pub fn get_item_password(&self, i: usize) -> (r: Result<String, Error>)
        requires
            self.wf(),
            self@.live(i as int),
        ensures
            outcome(r, |p: String| p@) == password_of(self@.item(i as int).secret),
    {
        decode_password(self.get_item_secret(i))
    }

    /// Applies client updates to the item in slot `i`: controlled names are
    /// ignored, `label` sets the label and may not be empty, and any other name
    /// is set.
    pub fn update_item_attributes(&mut self, i: usize, updates: &AttrMap) -> (r: Result<(), Error>)
        requires
            old(self).wf(),
            old(self)@.live(i as int),
            updates.wf(),
        ensures
            final(self).wf(),
            (outcome(r, |u: ()| u), final(self)@) == item_update_outcome(
                old(self)@,
                i as int,
                updates@,
            ),
    {
        let existing = self.item_all_attributes(i);
        match existing.merge_updates(updates) {
            None => Err(empty_label()),
            Some(attributes) => {
                let label = match updates.get("label") {
                    Some(l) => l.to_owned(),
                    None => self.item_label(i),
                };
                self.set_item_attributes(i, attributes, label);
                Ok(())
            },
        }
    }

    /// Deletes the item in slot `i`.
    pub fn delete_item(&mut self, i: usize)
        requires
            old(self).wf(),
            old(self)@.live(i as int),
        ensures
            final(self).wf(),
            final(self)@ == old(self)@.without(i as int),
    {
        self.items.set(i, None);
        assert(self@.items =~= old(self)@.items.update(i as int, None));
        assert(self@.collections =~= old(self)@.collections);
        assert forall|j: int|
            0 <= j < self.items@.len() && #[trigger] self.items@[j] is Some implies self.items@[
                j
            ]->Some_0.attributes.wf() by {
            if j != i {
                assert(self.items@[j] == old(self).items@[j]);
            }
        }
        assert forall|j: int| #[trigger] self@.live(j) implies self@.item(j).collection
            < self@.collections.len() by {
            assert(old(self)@.live(j));
        }
    }
}

} // verus!