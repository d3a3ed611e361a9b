//! Credentials whose identity is a `(target, service, user)` triple, resolved
//! against the items of a [`SecretStore`].
//!
//! The resolution protocol controls four attributes of an item: `target`,
//! `service`, `username` and the `application` marker; clients can neither read
//! nor change them. A credential made with a target also gives the item it
//! creates a label. Items are searched in every collection by `target`,
//! `service` and `username`; where that finds nothing and
//! the target is `default`, items of the default collection that carry no
//! `target` attribute are searched for instead, as older writers left them.
use vstd::prelude::*;
use vstd::string::*;
use vstd::utf8::{decode_utf8, encode_utf8, valid_utf8};

use crate::attributes::{client_view, AttrMap};
use crate::error::{decode_password, outcome, password_of, Error, ErrorModel};
use crate::store::{
    item_update_outcome, lemma_matching_below, matching, ItemModel, SecretStore, StoreModel,
};

verus! {

/// What a credential holds.
#[verifier::ext_equal]
pub struct CredModel {
    pub attributes: Map<Seq<char>, Seq<char>>,
    pub label: Seq<char>,
}

impl CredModel {
    /// A credential names a service and a user.
    pub open spec fn wf(self) -> bool {
        self.attributes.contains_key("service"@) && self.attributes.contains_key("username"@)
    }

    /// The credential's target, if it has one.
    pub open spec fn target(self) -> Option<Seq<char>> {
        if self.attributes.contains_key("target"@) {
            Some(self.attributes["target"@])
        } else {
            None
        }
    }
}

/// The tag that labels of new credentials end with.
pub open spec fn version_tag() -> Seq<char> {
    " (keyring v4)"@
}

/// The label of a credential made with a target.
pub open spec fn target_label(target: Seq<char>, service: Seq<char>, user: Seq<char>) -> Seq<char> {
    user + "@"@ + service + ":"@ + target + version_tag()
}

/// The label of a credential made without a target.
pub open spec fn legacy_label(service: Seq<char>, user: Seq<char>) -> Seq<char> {
    "keyring-rs v4 for no target, service '"@ + service + "', user '"@ + user + "'"@
}

/// The credential for a target, a service and a user.
pub open spec fn target_identity(target: Seq<char>, service: Seq<char>, user: Seq<char>) -> CredModel {
    CredModel {
        attributes: Map::empty().insert("service"@, service).insert("username"@, user).insert(
            "target"@,
            target,
        ).insert("application"@, "rust-keyring"@),
        label: target_label(target, service, user),
    }
}

/// The credential for a service and a user, without a target.
pub open spec fn legacy_identity(service: Seq<char>, user: Seq<char>) -> CredModel {
    CredModel {
        attributes: Map::empty().insert("service"@, service).insert("username"@, user).insert(
            "application"@,
            "rust-keyring"@,
        ),
        label: legacy_label(service, user),
    }
}

/// The target that a credential made with `target` gets.
pub open spec fn target_or_default(target: Option<&str>) -> Seq<char> {
    match target {
        Some(t) => t@,
        None => "default"@,
    }
}

/// The credential that stands for an item.
pub open spec fn item_credential(item: ItemModel) -> CredModel {
    CredModel { attributes: item.attributes, label: item.label }
}

/// The attributes that items are searched by: `service`, `username` and, unless
/// omitted or absent, `target`.
pub open spec fn search_query(c: CredModel, omit_target: bool) -> Map<Seq<char>, Seq<char>> {
    let base = Map::empty().insert("service"@, c.attributes["service"@]).insert(
        "username"@,
        c.attributes["username"@],
    );
    if c.attributes.contains_key("target"@) && !omit_target {
        base.insert("target"@, c.attributes["target"@])
    } else {
        base
    }
}

/// Whether the legacy search follows an empty search: the target is `default`.
pub open spec fn legacy_fallback(c: CredModel) -> bool {
    c.target() == Some("default"@)
}

/// The slots of the items that a credential resolves to: those that match it
/// in any collection; where there are none and the target is `default`, those
/// of the default collection that match it without regard to `target`.
pub open spec fn resolved(s: StoreModel, c: CredModel) -> Seq<int> {
    let found = matching(s, search_query(c, false), false);
    if found.len() == 0 && legacy_fallback(c) {
        matching(s, search_query(c, true), true)
    } else {
        found
    }
}

/// The error of a resolution that asked for one item and found `found`.
pub open spec fn resolution_failure(s: StoreModel, found: Seq<int>) -> ErrorModel {
    if found.len() == 0 {
        ErrorModel::NoEntry
    } else {
        ErrorModel::Ambiguous(found.map_values(|i: int| item_credential(s.item(i))))
    }
}

/// What a search that found `found` gives under the uniqueness policy.
pub open spec fn uniqueness_outcome(s: StoreModel, found: Seq<int>, require_unique: bool) -> Result<
    Seq<int>,
    ErrorModel,
> {
    if require_unique && found.len() != 1 {
        Err(resolution_failure(s, found))
    } else {
        Ok(found)
    }
}

/// The view of a sequence of slots.
pub open spec fn slots_view(v: Vec<usize>) -> Seq<int> {
    v@.map_values(|i: usize| i as int)
}

/// The error for a missing or empty target.
pub open spec fn empty_target_error() -> ErrorModel {
    ErrorModel::Invalid("target"@, "cannot be empty"@)
}

/// The error for an empty label.
pub open spec fn empty_label_error() -> ErrorModel {
    ErrorModel::Invalid("label"@, "cannot be empty"@)
}

/// Where a write found no item to overwrite with `failure`, the name of the
/// collection to create one in, or the error that stands.
pub open spec fn creation_outcome(c: CredModel, failure: ErrorModel) -> Result<
    Seq<char>,
    ErrorModel,
> {
    match failure {
        ErrorModel::NoEntry => match c.target() {
            Some(t) => Ok(t),
            None => Err(empty_target_error()),
        },
        _ => Err(failure),
    }
}

/// What reading the secret of a credential gives.
pub open spec fn secret_outcome(s: StoreModel, c: CredModel) -> Result<Seq<u8>, ErrorModel> {
    let found = resolved(s, c);
    if found.len() == 1 {
        Ok(s.item(found[0]).secret)
    } else {
        Err(resolution_failure(s, found))
    }
}

/// What reading the password of a credential gives.
pub open spec fn password_outcome(s: StoreModel, c: CredModel) -> Result<Seq<char>, ErrorModel> {
    match secret_outcome(s, c) {
        Ok(bytes) => password_of(bytes),
        Err(e) => Err(e),
    }
}

/// What reading the client attributes of a credential gives.
pub open spec fn attributes_outcome(s: StoreModel, c: CredModel) -> Result<
    Map<Seq<char>, Seq<char>>,
    ErrorModel,
> {
    let found = resolved(s, c);
    if found.len() == 1 {
        Ok(client_view(s.item(found[0]).attributes, s.item(found[0]).label))
    } else {
        Err(resolution_failure(s, found))
    }
}

/// What looking up the one item of a credential gives.
pub open spec fn matching_item_outcome(s: StoreModel, c: CredModel) -> Result<CredModel, ErrorModel> {
    let found = resolved(s, c);
    if found.len() == 1 {
        Ok(item_credential(s.item(found[0])))
    } else {
        Err(resolution_failure(s, found))
    }
}

/// What setting the secret of a credential gives, and the store after it: the
/// one matching item takes the secret; where none matches, a credential with a
/// target creates one in the collection named by the target.
pub open spec fn set_secret_outcome(s: StoreModel, c: CredModel, secret: Seq<u8>) -> (
    Result<(), ErrorModel>,
    StoreModel,
) {
    let found = resolved(s, c);
    if found.len() == 1 {
        (Ok(()), s.with_secret(found[0], secret))
    } else if found.len() > 1 {
        (Err(resolution_failure(s, found)), s)
    } else {
        match c.target() {
            None => (Err(empty_target_error()), s),
            Some(t) => {
                let (coll, s1) = s.collection_for(t);
                (
                    Ok(()),
                    s1.with_item(
                        ItemModel {
                            collection: coll as nat,
                            attributes: c.attributes,
                            label: c.label,
                            secret,
                        },
                    ),
                )
            },
        }
    }
}

/// What updating the client attributes of a credential gives, and the store
/// after it.
pub open spec fn update_outcome(s: StoreModel, c: CredModel, upd: Map<Seq<char>, Seq<char>>) -> (
    Result<(), ErrorModel>,
    StoreModel,
) {
    let found = resolved(s, c);
    if found.len() != 1 {
        (Err(resolution_failure(s, found)), s)
    } else {
        item_update_outcome(s, found[0], upd)
    }
}

/// What deleting a credential gives, and the store after it.
pub open spec fn delete_outcome(s: StoreModel, c: CredModel) -> (Result<(), ErrorModel>, StoreModel) {
    let found = resolved(s, c);
    if found.len() == 1 {
        (Ok(()), s.without(found[0]))
    } else {
        (Err(resolution_failure(s, found)), s)
    }
}

/// The store after every item in `slots` is deleted.
pub open spec fn without_all(s: StoreModel, slots: Seq<int>) -> StoreModel {
    StoreModel {
        items: Seq::new(
            s.items.len(),
            |i: int|
                if slots.contains(i) {
                    None
                } else {
                    s.items[i]
                },
        ),
        ..s
    }
}

/// The slots a credential resolves to hold items, in ascending order.
pub proof fn lemma_resolved_live(s: StoreModel, c: CredModel)
    ensures
        forall|k: int| 0 <= k < resolved(s, c).len() ==> s.live(#[trigger] resolved(s, c)[k]),
        forall|k1: int, k2: int|
            0 <= k1 < k2 < resolved(s, c).len() ==> #[trigger] resolved(s, c)[k1]
                < #[trigger] resolved(s, c)[k2],
{
    lemma_matching_below(s, search_query(c, false), false, s.items.len() as int);
    lemma_matching_below(s, search_query(c, true), true, s.items.len() as int);
}

/// A credential: the attributes that identify its item, and the label that a
/// new item gets.
#[derive(Debug)]
pub struct SsCredential {
    pub attributes: AttrMap,
    pub label: String,
}

impl View for SsCredential {
    type V = CredModel;

    open spec fn view(&self) -> CredModel {
        CredModel { attributes: self.attributes@, label: self.label@ }
    }
}

/// The error for a missing or empty target.
pub fn empty_target() -> (r: Error)
    ensures
        r@ == empty_target_error(),
{
    Error::Invalid("target".to_owned(), "cannot be empty".to_owned())
}

/// What the uniqueness policy makes of a search.
#[derive(Debug, Clone, Copy, PartialEq, Eq, Structural)]
pub enum Verdict {
    /// Fail with `NoEntry`.
    NoEntry,
    /// Fail with `Ambiguous`, carrying a credential for each item found.
    Ambiguous,
    /// Go on with the items found.
    Proceed,
}

/// The uniqueness policy: where one item is required, none fails with `NoEntry`
/// and several with `Ambiguous`.
pub fn verdict(found: usize, require_unique: bool) -> (r: Verdict)
    ensures
        r == (if require_unique && found == 0 {
            Verdict::NoEntry
        } else if require_unique && found > 1 {
            Verdict::Ambiguous
        } else {
            Verdict::Proceed
        }),
{
    if require_unique && found == 0 {
        Verdict::NoEntry
    } else if require_unique && found > 1 {
        Verdict::Ambiguous
    } else {
        Verdict::Proceed
    }
}

/// Whether `name` names the default collection, whatever its label.
pub fn names_default_collection(name: &String) -> (r: bool)
    ensures
        r == (name@ == "default"@),
{
    *name == "default".to_owned()
}

/// The error for an empty label.
pub fn empty_label() -> (r: Error)
    ensures
        r@ == empty_label_error(),
{
    Error::Invalid("label".to_owned(), "cannot be empty".to_owned())
}

impl SsCredential {
    /// The credential's attribute map is well formed and names a service and a
    /// user.
    pub open spec fn wf(&self) -> bool {
        self.attributes.wf() && self@.wf()
    }

    /// Whether the credential's attribute map is well formed and names a
    /// service and a user.
    pub fn is_well_formed(&self) -> (r: bool)
        ensures
            r == self.wf(),
    {
        self.attributes.is_well_formed() && self.attributes.contains_key("service")
            && self.attributes.contains_key("username")
    }

    /// A credential for `target` (`default` where it is `None`), `service` and
    /// `user`; an empty target is refused. No item is created.
    pub fn new_with_target(target: Option<&str>, service: &str, user: &str) -> (r: Result<
        SsCredential,
        Error,
    >)
        ensures
            r is Err <==> (target matches Some(t) && t@.len() == 0),
            r matches Err(e) ==> e@ == empty_target_error(),
            r matches Ok(c) ==> c.wf() && c@ == target_identity(
                target_or_default(target),
                service@,
                user@,
            ),
    {
        let target: &str = match target {
            Some(t) => {
                if t.is_empty() {
                    return Err(empty_target());
                }
                t
            },
            None => "default",
        };
        let mut attributes = AttrMap::new();
        attributes.insert("service", service);
        attributes.insert("username", user);
        attributes.insert("target", target);
        attributes.insert("application", "rust-keyring");
        let mut label = user.to_owned();
        label.append("@");
        label.append(service);
        label.append(":");
        label.append(target);
        label.append(" (keyring v4)");
        Ok(SsCredential { attributes, label })
    }

    /// A credential for `service` and `user` without a target, as older writers
    /// made them: it finds their items, and cannot create one.
    pub fn new_with_no_target(service: &str, user: &str) -> (r: Result<SsCredential, Error>)
        ensures
            r matches Ok(c) && c.wf() && c@ == legacy_identity(service@, user@),
    {
        let mut attributes = AttrMap::new();
        attributes.insert("service", service);
        attributes.insert("username", user);
        attributes.insert("application", "rust-keyring");
        let mut label = "keyring-rs v4 for no target, service '".to_owned();
        label.append(service);
        label.append("', user '");
        label.append(user);
        label.append("'");
        Ok(SsCredential { attributes, label })
    }

    /// A credential with the attributes and the label of the item in slot `i`.
    pub fn new_from_item(store: &SecretStore, i: usize) -> (r: SsCredential)
        requires
            store.wf(),
            store@.live(i as int),
        ensures
            r.attributes.wf(),
            r@ == item_credential(store@.item(i as int)),
    {
        SsCredential { attributes: store.item_all_attributes(i), label: store.item_label(i) }
    }

    /// All attributes of the credential, as a new item gets them.
    pub fn all_attributes(&self) -> (r: AttrMap)
        requires
            self.wf(),
        ensures
            r.wf(),
            r@ == self@.attributes,
    {
        self.attributes.duplicate()
    }

    /// The attributes that items are searched by.
    pub fn search_attributes(&self, omit_target: bool) -> (r: AttrMap)
        requires
            self.wf(),
        ensures
            r.wf(),
            r@ == search_query(self@, omit_target),
    {
        let mut r = AttrMap::new();
        match self.attributes.get("service") {
            Some(v) => r.insert("service", v),
            None => {},
        }
        match self.attributes.get("username") {
            Some(v) => r.insert("username", v),
            None => {},
        }
        if !omit_target {
            match self.attributes.get("target") {
                Some(v) => r.insert("target", v),
                None => {},
            }
        }
        r
    }

    /// Whether a search that found `found` items is followed by the legacy
    /// search: it found none and the target is `default`.
    pub fn falls_back(&self, found: usize) -> (r: bool)
        requires
            self.wf(),
        ensures
            r == (found == 0 && legacy_fallback(self@)),
    {
        if found != 0 {
            return false;
        }
        match self.attributes.get("target") {
            Some(t) => names_default_collection(&t.to_owned()),
            None => false,
        }
    }

    /// Where a write found no item to overwrite, the name of the collection to
    /// create the item in; only `NoEntry` leads to a creation, and only a
    /// credential with a target can create. Any other failure stands.
    pub fn creation_target(&self, failure: Error) -> (r: Result<String, Error>)
        requires
            self.wf(),
        ensures
            outcome(r, |t: String| t@) == creation_outcome(self@, failure@),
    {
        match failure {
            Error::NoEntry => match self.attributes.get("target") {
                Some(t) => Ok(t.to_owned()),
                None => Err(empty_target()),
            },
            other => Err(other),
        }
    }

    /// Applies the uniqueness policy to the slots `found`.
    fn unique_or_fail(store: &SecretStore, found: Vec<usize>, require_unique: bool) -> (r: Result<
        Vec<usize>,
        Error,
    >)
        requires
            store.wf(),
            forall|k: int| 0 <= k < found@.len() ==> store@.live(#[trigger] found@[k] as int),
        ensures
            outcome(r, |v: Vec<usize>| slots_view(v)) == uniqueness_outcome(
                store@,
                slots_view(found),
                require_unique,
            ),
    {
        match verdict(found.len(), require_unique) {
            Verdict::NoEntry => Err(Error::NoEntry),
            Verdict::Ambiguous => {
                let mut creds: Vec<SsCredential> = Vec::new();
                let mut k: usize = 0;
                while k < found.len()
                    invariant
                        store.wf(),
                        forall|j: int| 0 <= j < found@.len() ==> store@.live(#[trigger] found@[j] as int),
                        k <= found@.len(),
                        creds@.len() == k,
                        forall|j: int|
                            0 <= j < k ==> #[trigger] creds@[j]@ == item_credential(
                                store@.item(found@[j] as int),
                            ),
                    decreases found@.len() - k,
                {
                    creds.push(SsCredential::new_from_item(store, found[k]));
                    k = k + 1;
                }
                let r = Error::Ambiguous(creds);
                assert(r@ == resolution_failure(store@, found@.map_values(|i: usize| i as int))) by {
                    assert(creds@.map_values(|c: SsCredential| c@) =~= found@.map_values(
                        |i: usize| i as int,
                    ).map_values(|i: int| item_credential(store@.item(i))));
                }
                Err(r)
            },
            Verdict::Proceed => Ok(found),
        }
    }

    /// The slots of the items that the credential resolves to, in ascending
    /// order. Where `require_unique` holds, finding no item fails with `NoEntry`
    /// and finding several with `Ambiguous`, which carries a credential for each.
    pub fn matching_items(&self, store: &SecretStore, require_unique: bool) -> (r: Result<
        Vec<usize>,
        Error,
    >)
        requires
            self.wf(),
            store.wf(),
        ensures
            outcome(r, |v: Vec<usize>| slots_view(v)) == uniqueness_outcome(
                store@,
                resolved(store@, self@),
                require_unique,
            ),
    {
        proof {
            lemma_matching_below(store@, search_query(self@, false), false, store@.items.len() as int);
        }
        let query = self.search_attributes(false);
        let found = store.search_items(&query, false);
        if self.falls_back(found.len()) {
            return self.legacy_matching_items(store, require_unique);
        }
        assert forall|k: int| 0 <= k < found@.len() implies store@.live(#[trigger] found@[k] as int) by {
            assert(slots_view(found)[k] == matching(store@, search_query(self@, false), false)[k]);
        }
        Self::unique_or_fail(store, found, require_unique)
    }

    /// The slots of the items of the default collection that match the
    /// credential without regard to `target`, as `matching_items` gives them.
    pub fn legacy_matching_items(&self, store: &SecretStore, require_unique: bool) -> (r: Result<
        Vec<usize>,
        Error,
    >)
        requires
            self.wf(),
            store.wf(),
        ensures
            outcome(r, |v: Vec<usize>| slots_view(v)) == uniqueness_outcome(
                store@,
                matching(store@, search_query(self@, true), true),
                require_unique,
            ),
    {
        proof {
            lemma_matching_below(store@, search_query(self@, true), true, store@.items.len() as int);
        }
        let query = self.search_attributes(true);
        let found = store.search_items(&query, true);
        assert forall|k: int| 0 <= k < found@.len() implies store@.live(#[trigger] found@[k] as int) by {
            assert(slots_view(found)[k] == matching(store@, search_query(self@, true), true)[k]);
        }
        Self::unique_or_fail(store, found, require_unique)
    }

    /// The one slot the credential resolves to, or the resolution's error.
    fn unique_item(&self, store: &SecretStore) -> (r: Result<usize, Error>)
        requires
            self.wf(),
            store.wf(),
        ensures
            resolved(store@, self@).len() == 1 <==> r is Ok,
            r matches Ok(i) ==> i as int == resolved(store@, self@)[0] && store@.live(i as int),
            r matches Err(e) ==> e@ == resolution_failure(store@, resolved(store@, self@)),
    {
        proof {
            lemma_resolved_live(store@, self@);
        }
        match self.matching_items(store, true) {
            Ok(found) => {
                assert(slots_view(found)[0] == found@[0] as int);
                Ok(found[0])
            },
            Err(e) => Err(e),
        }
    }

    /// Reads the secret of the one matching item.
    pub fn get_secret(&self, store: &SecretStore) -> (r: Result<Vec<u8>, Error>)
        requires
            self.wf(),
            store.wf(),
        ensures
            outcome(r, |v: Vec<u8>| v@) == secret_outcome(store@, self@),
    {
        match self.unique_item(store) {
            Ok(i) => Ok(store.get_item_secret(i)),
            Err(e) => Err(e),
        }
    }

    /// Reads the secret of the one matching item as a UTF-8 password.
    pub fn get_password(&self, store: &SecretStore) -> (r: Result<String, Error>)
        requires
            self.wf(),
            store.wf(),
        ensures
            outcome(r, |v: String| v@) == password_outcome(store@, self@),
    {
        match self.get_secret(store) {
            Ok(bytes) => decode_password(bytes),
            Err(e) => Err(e),
        }
    }

    /// Reads what a client sees of the attributes of the one matching item:
    /// all but the controlled ones, and its label under `label`.
    pub fn get_attributes(&self, store: &SecretStore) -> (r: Result<AttrMap, Error>)
        requires
            self.wf(),
            store.wf(),
        ensures
            r matches Ok(m) ==> m.wf(),
            outcome(r, |m: AttrMap| m@) == attributes_outcome(store@, self@),
    {
        match self.unique_item(store) {
            Ok(i) => Ok(store.get_item_attributes(i)),
            Err(e) => Err(e),
        }
    }

    /// A credential with the attributes and the label of the one matching item.
    pub fn new_from_matching_item(&self, store: &SecretStore) -> (r: Result<SsCredential, Error>)
        requires
            self.wf(),
            store.wf(),
        ensures
            r matches Ok(c) ==> c.attributes.wf(),
            outcome(r, |c: SsCredential| c@) == matching_item_outcome(store@, self@),
    {
        match self.unique_item(store) {
            Ok(i) => Ok(SsCredential::new_from_item(store, i)),
            Err(e) => Err(e),
        }
    }

    /// Sets the secret of the one matching item; where none matches, creates an
    /// item for the credential in the collection named by its target, which is
    /// created where it is missing. Several matching items are left as they are.
    /// An item is created only where the search found none, so no item with the
    /// same attributes can be there to be replaced.
    pub fn set_secret(&self, store: &mut SecretStore, secret: &[u8]) -> (r: Result<(), Error>)
        requires
            self.wf(),
            old(store).wf(),
        ensures
            final(store).wf(),
            (outcome(r, |u: ()| u), final(store)@) == set_secret_outcome(
                old(store)@,
                self@,
                secret@,
            ),
    {
        let target = match self.unique_item(store) {
            Ok(i) => {
                store.set_item_secret(i, secret);
                return Ok(());
            },
            Err(e) => match self.creation_target(e) {
                Ok(t) => t,
                Err(e) => {
                    return Err(e);
                },
            },
        };
        let collection = match store.get_collection(&target) {
            Some(c) => c,
            None => store.create_collection(&target),
        };
        store.create_item(collection, &self.label, &self.attributes, secret);
        Ok(())
    }

    /// Sets the secret of the credential to the UTF-8 bytes of `password`.
    pub fn set_password(&self, store: &mut SecretStore, password: &str) -> (r: Result<(), Error>)
        requires
            self.wf(),
            old(store).wf(),
        ensures
            final(store).wf(),
            (outcome(r, |u: ()| u), final(store)@) == set_secret_outcome(
                old(store)@,
                self@,
                encode_utf8(password@),
            ),
    {
        self.set_secret(store, password.as_bytes())
    }

    /// Updates the attributes of the one matching item: controlled names are
    /// ignored, `label` sets the item's label and may not be empty, and any
    /// other name is set.
    pub fn update_attributes(&self, store: &mut SecretStore, updates: &AttrMap) -> (r: Result<
        (),
        Error,
    >)
        requires
            self.wf(),
            old(store).wf(),
            updates.wf(),
        ensures
            final(store).wf(),
            (outcome(r, |u: ()| u), final(store)@) == update_outcome(
                old(store)@,
                self@,
                updates@,
            ),
    {
        let i = match self.unique_item(store) {
            Ok(i) => i,
            Err(e) => {
                return Err(e);
            },
        };
        store.update_item_attributes(i, updates)
    }

    /// Deletes the one matching item.
    pub fn delete_credential(&self, store: &mut SecretStore) -> (r: Result<(), Error>)
        requires
            self.wf(),
            old(store).wf(),
        ensures
            final(store).wf(),
            (outcome(r, |u: ()| u), final(store)@) == delete_outcome(old(store)@, self@),
    {
        match self.unique_item(store) {
            Ok(i) => {
                store.delete_item(i);
                Ok(())
            },
            Err(e) => Err(e),
        }
    }

    /// The passwords of all matching items, in the order of their slots; the
    /// first secret that is not UTF-8 fails the whole call with `BadEncoding`.
    pub fn get_all_passwords(&self, store: &SecretStore) -> (r: Result<Vec<String>, Error>)
        requires
            self.wf(),
            store.wf(),
        ensures
            r is Ok <==> forall|k: int|
                0 <= k < resolved(store@, self@).len() ==> valid_utf8(
                    #[trigger] store@.item(resolved(store@, self@)[k]).secret,
                ),
            r matches Ok(v) ==> v@.len() == resolved(store@, self@).len() && forall|k: int|
                0 <= k < v@.len() ==> #[trigger] v@[k]@ == decode_utf8(
                    store@.item(resolved(store@, self@)[k]).secret,
                ),
            r matches Err(e) ==> exists|k: int|
                0 <= k < resolved(store@, self@).len() && e@ == ErrorModel::BadEncoding(
                    #[trigger] store@.item(resolved(store@, self@)[k]).secret,
                ) && !valid_utf8(store@.item(resolved(store@, self@)[k]).secret) && forall|j: int|
                    0 <= j < k ==> valid_utf8(store@.item(resolved(store@, self@)[j]).secret),
    {
        proof {
            lemma_resolved_live(store@, self@);
        }
        let ghost found = resolved(store@, self@);
        let slots = match self.matching_items(store, false) {
            Ok(v) => v,
            Err(e) => {
                return Err(e);
            },
        };
        assert(forall|k: int| 0 <= k < slots@.len() ==> #[trigger] slots@[k] as int == found[k]) by {
            assert(forall|k: int| 0 <= k < slots@.len() ==> slots_view(slots)[k] == slots@[k] as int);
        }
        let mut passwords: Vec<String> = Vec::new();
        let mut k: usize = 0;
        while k < slots.len()
            invariant
                self.wf(),
                store.wf(),
                found == resolved(store@, self@),
                slots@.len() == found.len(),
                forall|j: int| 0 <= j < slots@.len() ==> #[trigger] slots@[j] as int == found[j],
                forall|j: int| 0 <= j < found.len() ==> store@.live(#[trigger] found[j]),
                k <= slots@.len(),
                passwords@.len() == k,
                forall|j: int|
                    0 <= j < k ==> valid_utf8(#[trigger] store@.item(found[j]).secret)
                        && passwords@[j]@ == decode_utf8(store@.item(found[j]).secret),
            decreases slots@.len() - k,
        {
            assert(store@.live(slots@[k as int] as int));
            match store.get_item_password(slots[k]) {
                Ok(p) => passwords.push(p),
                Err(e) => {
                    return Err(e);
                },
            }
            k = k + 1;
        }
        Ok(passwords)
    }

    /// Deletes all matching items.
    pub fn delete_all_passwords(&self, store: &mut SecretStore) -> (r: Result<(), Error>)
        requires
            self.wf(),
            old(store).wf(),
        ensures
            final(store).wf(),
            r is Ok,
            final(store)@ == without_all(old(store)@, resolved(old(store)@, self@)),
    {
        proof {
            lemma_resolved_live(store@, self@);
        }
        let ghost found = resolved(store@, self@);
        let ghost s0 = store@;
        let slots = match self.matching_items(store, false) {
            Ok(v) => v,
            Err(e) => {
                return Err(e);
            },
        };
        assert(forall|k: int| 0 <= k < slots@.len() ==> #[trigger] slots@[k] as int == found[k]) by {
            assert(forall|k: int| 0 <= k < slots@.len() ==> slots_view(slots)[k] == slots@[k] as int);
        }
        let mut k: usize = 0;
        while k < slots.len()
            invariant
                store.wf(),
                slots@.len() == found.len(),
                forall|j: int| 0 <= j < slots@.len() ==> #[trigger] slots@[j] as int == found[j],
                forall|j: int| 0 <= j < found.len() ==> s0.live(#[trigger] found[j]),
                forall|j1: int, j2: int|
                    0 <= j1 < j2 < found.len() ==> #[trigger] found[j1] < #[trigger] found[j2],
                k <= slots@.len(),
                store@ == without_all(s0, found.subrange(0, k as int)),
            decreases slots@.len() - k,
        {
            let ghost before = store@;
            proof {
                let j = k as int;
                assert(!found.subrange(0, j).contains(found[j])) by {
                    if found.subrange(0, j).contains(found[j]) {
                        let m = choose|m: int| 0 <= m < j && found.subrange(0, j)[m] == found[j];
                        assert(found[m] < found[j]);
                    }
                }
                assert(store@.live(found[j]));
            }
            store.delete_item(slots[k]);
            proof {
                let j = k as int;
                let next = found.subrange(0, j + 1);
                assert(next =~= found.subrange(0, j).push(found[j]));
                assert forall|x: int| 0 <= x < store@.items.len() implies store@.items[x]
                    == without_all(s0, next).items[x] by {
                    if x == found[j] {
                        assert(next[j] == x);
                    } else {
                        assert(next.contains(x) == found.subrange(0, j).contains(x)) by {
                            if next.contains(x) {
                                let m = choose|m: int| 0 <= m < next.len() && next[m] == x;
                                assert(found.subrange(0, j)[m] == x);
                            }
                            if found.subrange(0, j).contains(x) {
                                let m = choose|m: int| 0 <= m < j && found.subrange(0, j)[m] == x;
                                assert(next[m] == x);
                            }
                        }
                    }
                }
                assert(store@.items =~= without_all(s0, next).items);
                assert(store@ =~= without_all(s0, found.subrange(0, j + 1)));
            }
            k = k + 1;
        }
        proof {
            assert(found.subrange(0, found.len() as int) =~= found);
        }
        Ok(())
    }
}

} // verus!
