//! Properties of the resolution protocol that relate several operations.
use vstd::prelude::*;
use vstd::utf8::{encode_utf8, encode_utf8_decode_utf8, encode_utf8_valid_utf8};

use crate::attributes::{is_controlled, lemma_names_distinct};
use crate::error::ErrorModel;
use crate::secret_service::{
    attributes_outcome, delete_outcome, empty_label_error, item_credential, legacy_fallback,
    legacy_identity, password_outcome, resolution_failure, resolved, search_query, secret_outcome,
    set_secret_outcome, target_identity, update_outcome, CredModel,
};
use crate::store::{
    item_matches, lemma_matching_below, lemma_matching_frame, matching, matching_below,
    slot_matches, ItemModel, StoreModel,
};

verus! {

/// The search attributes of a credential are among its attributes.
proof fn lemma_query_within(c: CredModel, omit_target: bool)
    requires
        c.wf(),
    ensures
        search_query(c, omit_target).submap_of(c.attributes),
{
}

/// Adding an item adds its slot to a search exactly where it matches.
proof fn lemma_matching_push(
    s: StoreModel,
    s1: StoreModel,
    item: ItemModel,
    query: Map<Seq<char>, Seq<char>>,
    default_only: bool,
)
    requires
        s1.items == s.items.push(Some(item)),
    ensures
        matching(s1, query, default_only) == if item_matches(item, query, default_only) {
            matching(s, query, default_only).push(s.items.len() as int)
        } else {
            matching(s, query, default_only)
        },
{
    let n = s.items.len() as int;
    assert forall|i: int| 0 <= i < n implies slot_matches(s, query, default_only, i)
        == slot_matches(s1, query, default_only, i) by {
        assert(s1.items[i] == s.items[i]);
    }
    lemma_matching_frame(s, s1, query, default_only, n);
    assert(s1.items[n] == Some(item));
}

/// Changing a secret changes no search.
proof fn lemma_matching_with_secret(
    s: StoreModel,
    i: int,
    secret: Seq<u8>,
    query: Map<Seq<char>, Seq<char>>,
    default_only: bool,
)
    requires
        s.live(i),
    ensures
        matching(s.with_secret(i, secret), query, default_only) == matching(s, query, default_only),
{
    let s1 = s.with_secret(i, secret);
    assert forall|j: int| 0 <= j < s.items.len() implies slot_matches(s, query, default_only, j)
        == slot_matches(s1, query, default_only, j) by {
        if j != i {
            assert(s1.items[j] == s.items[j]);
        }
    }
    lemma_matching_frame(s, s1, query, default_only, s.items.len() as int);
}

/// Deleting the one item that a search can find leaves the search empty.
proof fn lemma_matching_without(
    s: StoreModel,
    i: int,
    query: Map<Seq<char>, Seq<char>>,
    default_only: bool,
)
    requires
        0 <= i < s.items.len(),
        forall|j: int| #[trigger] slot_matches(s, query, default_only, j) ==> j == i,
    ensures
        matching(s.without(i), query, default_only).len() == 0,
{
    let s1 = s.without(i);
    lemma_matching_below(s1, query, default_only, s1.items.len() as int);
    if matching(s1, query, default_only).len() > 0 {
        let x = matching_below(s1, query, default_only, s1.items.len() as int)[0];
        assert(0 <= x < s1.items.len());
        assert(s1.items.len() == s.items.len());
        assert(slot_matches(s1, query, default_only, x));
        if x != i {
            assert(s1.items[x] == s.items[x]);
            assert(slot_matches(s, query, default_only, x));
        }
    }
}

/// Where a credential with a target resolves to no item, setting its secret
/// creates one item, the only one it then resolves to.
proof fn lemma_create_resolves(s: StoreModel, c: CredModel, secret: Seq<u8>)
    requires
        c.wf(),
        c.target() is Some,
        resolved(s, c).len() == 0,
    ensures
        set_secret_outcome(s, c, secret).0 is Ok,
        resolved(set_secret_outcome(s, c, secret).1, c) == seq![s.items.len() as int],
        set_secret_outcome(s, c, secret).1.item(s.items.len() as int).secret == secret,
        set_secret_outcome(s, c, secret).1.items == s.items.push(
            set_secret_outcome(s, c, secret).1.items.last(),
        ),
{
    let s1 = set_secret_outcome(s, c, secret).1;
    let (coll, s0) = s.collection_for(c.target()->Some_0);
    let item = ItemModel { collection: coll as nat, attributes: c.attributes, label: c.label, secret };
    assert(s1 == s0.with_item(item));
    assert(s0.items == s.items);
    lemma_query_within(c, false);
    lemma_matching_push(s, s1, item, search_query(c, false), false);
    assert(matching(s, search_query(c, false), false).len() == 0);
    assert(matching(s1, search_query(c, false), false) =~= seq![s.items.len() as int]);
    assert(s1.items.last() == Some(item));
    assert(s1.items =~= s.items.push(s1.items.last()));
}

/// Where a credential resolves to at most one item, and it has a target or
/// resolves to one, setting a secret succeeds and the credential then reads
/// that secret back.
pub proof fn lemma_set_then_get_secret(s: StoreModel, c: CredModel, secret: Seq<u8>)
    requires
        c.wf(),
        resolved(s, c).len() == 1 || (resolved(s, c).len() == 0 && c.target() is Some),
    ensures
        set_secret_outcome(s, c, secret).0 is Ok,
        secret_outcome(set_secret_outcome(s, c, secret).1, c) == Ok::<Seq<u8>, ErrorModel>(secret),
{
    if resolved(s, c).len() == 1 {
        let h = resolved(s, c)[0];
        crate::secret_service::lemma_resolved_live(s, c);
        lemma_matching_with_secret(s, h, secret, search_query(c, false), false);
        lemma_matching_with_secret(s, h, secret, search_query(c, true), true);
        assert(resolved(s.with_secret(h, secret), c) == resolved(s, c));
    } else {
        lemma_create_resolves(s, c, secret);
    }
}

/// Two credentials built from the same target, service and user are one
/// credential: what is written through one is read through the other.
pub proof fn lemma_same_identity_interchangeable(
    s: StoreModel,
    target: Seq<char>,
    service: Seq<char>,
    user: Seq<char>,
    secret: Seq<u8>,
)
    requires
        resolved(s, target_identity(target, service, user)).len() <= 1,
    ensures
        ({
            let c1 = target_identity(target, service, user);
            let c2 = target_identity(target, service, user);
            let (r, s1) = set_secret_outcome(s, c1, secret);
            r is Ok && secret_outcome(s1, c2) == Ok::<Seq<u8>, ErrorModel>(secret)
        }),
{
    let c = target_identity(target, service, user);
    lemma_names_distinct();
    assert(c.wf());
    assert(c.target() is Some);
    lemma_set_then_get_secret(s, c, secret);
}

/// The round trip where no item matched before the write.
proof fn lemma_round_trip_fresh(s: StoreModel, c: CredModel, password: Seq<char>)
    requires
        c.wf(),
        c.target() is Some,
        resolved(s, c).len() == 0,
    ensures
        ({
            let (r1, s1) = set_secret_outcome(s, c, encode_utf8(password));
            let (r2, s2) = delete_outcome(s1, c);
            &&& r1 is Ok
            &&& password_outcome(s1, c) == Ok::<Seq<char>, ErrorModel>(password)
            &&& r2 is Ok
            &&& password_outcome(s2, c) == Err::<Seq<char>, ErrorModel>(ErrorModel::NoEntry)
        }),
{
    let bytes = encode_utf8(password);
    lemma_create_resolves(s, c, bytes);
    lemma_set_then_get_secret(s, c, bytes);
    encode_utf8_valid_utf8(password);
    encode_utf8_decode_utf8(password);
    let s1 = set_secret_outcome(s, c, bytes).1;
    let n = s.items.len() as int;
    let s2 = s1.without(n);
    assert(delete_outcome(s1, c).1 == s2);
    // every slot of `s2` matches as in `s`, and the last one is empty
    assert forall|q: Map<Seq<char>, Seq<char>>, d: bool|
        #![trigger matching(s2, q, d)]
        matching(s2, q, d) == matching(s, q, d) by {
        assert forall|i: int| 0 <= i < n implies slot_matches(s, q, d, i) == slot_matches(
            s2,
            q,
            d,
            i,
        ) by {
            assert(s2.items[i] == s.items[i]);
        }
        lemma_matching_frame(s, s2, q, d, n);
        assert(!slot_matches(s2, q, d, n));
    }
    assert(matching(s2, search_query(c, false), false) == matching(s, search_query(c, false), false));
    assert(matching(s2, search_query(c, true), true) == matching(s, search_query(c, true), true));
    assert(resolved(s2, c) == resolved(s, c));
}

/// Whether every item that matches a credential, by the global search or (for
/// the target `default`) by the legacy search, is the one it resolves to.
pub open spec fn only_resolved_matches(s: StoreModel, c: CredModel) -> bool {
    &&& forall|j: int| #[trigger]
        slot_matches(s, search_query(c, false), false, j) ==> resolved(s, c).len() == 1 && j
            == resolved(s, c)[0]
    &&& legacy_fallback(c) ==> forall|j: int| #[trigger]
        slot_matches(s, search_query(c, true), true, j) ==> resolved(s, c).len() == 1 && j
            == resolved(s, c)[0]
}

/// Round trip: where a credential can write (it resolves to one item, or to none
/// and has a target) and no other item matches it, a password set through it
/// reads back unchanged; after a delete, reading fails with `NoEntry`.
pub proof fn lemma_password_round_trip(s: StoreModel, c: CredModel, password: Seq<char>)
    requires
        c.wf(),
        resolved(s, c).len() == 1 || (resolved(s, c).len() == 0 && c.target() is Some),
        only_resolved_matches(s, c),
    ensures
        ({
            let (r1, s1) = set_secret_outcome(s, c, encode_utf8(password));
            let (r2, s2) = delete_outcome(s1, c);
            &&& r1 is Ok
            &&& password_outcome(s1, c) == Ok::<Seq<char>, ErrorModel>(password)
            &&& r2 is Ok
            &&& password_outcome(s2, c) == Err::<Seq<char>, ErrorModel>(ErrorModel::NoEntry)
        }),
{
    if resolved(s, c).len() == 0 {
        lemma_round_trip_fresh(s, c, password);
    } else {
        let bytes = encode_utf8(password);
        let h = resolved(s, c)[0];
        crate::secret_service::lemma_resolved_live(s, c);
        lemma_set_then_get_secret(s, c, bytes);
        encode_utf8_valid_utf8(password);
        encode_utf8_decode_utf8(password);
        let s1 = s.with_secret(h, bytes);
        assert(set_secret_outcome(s, c, bytes).1 == s1);
        lemma_matching_with_secret(s, h, bytes, search_query(c, false), false);
        lemma_matching_with_secret(s, h, bytes, search_query(c, true), true);
        assert(resolved(s1, c) == resolved(s, c));
        assert(delete_outcome(s1, c).1 == s1.without(h));
        assert forall|q: Map<Seq<char>, Seq<char>>, d: bool, j: int|
            #![trigger slot_matches(s1, q, d, j)]
            slot_matches(s1, q, d, j) == slot_matches(s, q, d, j) by {
            if j != h && 0 <= j < s.items.len() {
                assert(s1.items[j] == s.items[j]);
            }
        }
        lemma_matching_without(s1, h, search_query(c, false), false);
        if legacy_fallback(c) {
            lemma_matching_without(s1, h, search_query(c, true), true);
        }
    }
}

/// A search that no slot matches finds nothing.
proof fn lemma_matching_none(s: StoreModel, query: Map<Seq<char>, Seq<char>>, default_only: bool)
    requires
        forall|j: int| !#[trigger] slot_matches(s, query, default_only, j),
    ensures
        matching(s, query, default_only).len() == 0,
{
    lemma_matching_below(s, query, default_only, s.items.len() as int);
    if matching(s, query, default_only).len() > 0 {
        assert(slot_matches(s, query, default_only, matching(s, query, default_only)[0]));
    }
}

/// A slot is found by a search exactly where it matches.
proof fn lemma_matching_contains(
    s: StoreModel,
    query: Map<Seq<char>, Seq<char>>,
    default_only: bool,
    i: int,
)
    ensures
        matching(s, query, default_only).contains(i) == slot_matches(s, query, default_only, i),
{
    lemma_matching_below(s, query, default_only, s.items.len() as int);
    if matching(s, query, default_only).contains(i) {
        let k = choose|k: int|
            0 <= k < matching(s, query, default_only).len() && matching(s, query, default_only)[k]
                == i;
        assert(slot_matches(s, query, default_only, matching(s, query, default_only)[k]));
    }
}

/// A search by a service and a user finds nothing where no item carries them.
proof fn lemma_no_item_for(
    s: StoreModel,
    q: Map<Seq<char>, Seq<char>>,
    d: bool,
    service: Seq<char>,
    user: Seq<char>,
)
    requires
        q.contains_key("service"@) && q["service"@] == service,
        q.contains_key("username"@) && q["username"@] == user,
        forall|i: int|
            #[trigger] s.live(i) ==> !(s.item(i).attributes.contains_key("service"@)
                && s.item(i).attributes["service"@] == service && s.item(i).attributes.contains_key(
                "username"@,
            ) && s.item(i).attributes["username"@] == user),
    ensures
        matching(s, q, d).len() == 0,
{
    assert forall|j: int| !#[trigger] slot_matches(s, q, d, j) by {
        if slot_matches(s, q, d, j) {
            let a = s.item(j).attributes;
            assert(q.dom().contains("service"@) ==> a.dom().contains("service"@));
            assert(q.dom().contains("username"@) ==> a.dom().contains("username"@));
            assert(s.live(j));
        }
    }
    lemma_matching_none(s, q, d);
}

/// Deleting a credential made with a target fails with `NoEntry`, and changes
/// nothing, where no item of the store carries its service and user.
pub proof fn lemma_delete_without_item(
    s: StoreModel,
    target: Seq<char>,
    service: Seq<char>,
    user: Seq<char>,
)
    requires
        target.len() > 0,
        forall|i: int|
            #[trigger] s.live(i) ==> !(s.item(i).attributes.contains_key("service"@)
                && s.item(i).attributes["service"@] == service && s.item(i).attributes.contains_key(
                "username"@,
            ) && s.item(i).attributes["username"@] == user),
    ensures
        delete_outcome(s, target_identity(target, service, user)) == (
            Err::<(), ErrorModel>(ErrorModel::NoEntry),
            s,
        ),
{
    let c = target_identity(target, service, user);
    lemma_names_distinct();
    let qg = search_query(c, false);
    let ql = search_query(c, true);
    assert(qg.contains_key("service"@) && qg["service"@] == service);
    assert(qg.contains_key("username"@) && qg["username"@] == user);
    assert(ql.contains_key("service"@) && ql["service"@] == service);
    assert(ql.contains_key("username"@) && ql["username"@] == user);
    lemma_no_item_for(s, qg, false, service, user);
    lemma_no_item_for(s, ql, true, service, user);
}

/// Deleting twice: where a credential resolves to one item, and (for the
/// target `default`) no other item of the default collection matches it
/// without regard to `target`, the first delete succeeds and the second fails
/// with `NoEntry` and changes nothing.
pub proof fn lemma_delete_twice(s: StoreModel, c: CredModel)
    requires
        c.wf(),
        resolved(s, c).len() == 1,
        legacy_fallback(c) ==> forall|j: int|
            #[trigger] slot_matches(s, search_query(c, true), true, j) ==> j == resolved(s, c)[0],
    ensures
        ({
            let (r1, s1) = delete_outcome(s, c);
            let (r2, s2) = delete_outcome(s1, c);
            &&& r1 is Ok
            &&& r2 == Err::<(), ErrorModel>(ErrorModel::NoEntry)
            &&& s2 == s1
        }),
{
    let h = resolved(s, c)[0];
    crate::secret_service::lemma_resolved_live(s, c);
    let qg = search_query(c, false);
    let ql = search_query(c, true);
    assert forall|j: int| #[trigger] slot_matches(s, qg, false, j) implies j == h by {
        lemma_matching_contains(s, qg, false, j);
        let k = choose|k: int| 0 <= k < matching(s, qg, false).len() && matching(s, qg, false)[k] == j;
    }
    lemma_matching_without(s, h, qg, false);
    if legacy_fallback(c) {
        lemma_matching_without(s, h, ql, true);
    }
}

/// Where a credential resolves to several items, asking for one fails with
/// `Ambiguous`, which carries one credential per item: each has its item's
/// attributes and label, and each finds its own item when it searches.
pub proof fn lemma_ambiguous_candidates(s: StoreModel, c: CredModel)
    requires
        c.wf(),
        resolved(s, c).len() > 1,
    ensures
        resolution_failure(s, resolved(s, c)) matches ErrorModel::Ambiguous(cands) && cands.len()
            == resolved(s, c).len() && forall|k: int|
            0 <= k < cands.len() ==> #[trigger] cands[k] == item_credential(
                s.item(resolved(s, c)[k]),
            ) && cands[k].wf() && resolved(s, cands[k]).contains(resolved(s, c)[k]),
{
    let found = resolved(s, c);
    crate::secret_service::lemma_resolved_live(s, c);
    lemma_matching_below(s, search_query(c, false), false, s.items.len() as int);
    lemma_matching_below(s, search_query(c, true), true, s.items.len() as int);
    let cands = found.map_values(|i: int| item_credential(s.item(i)));
    assert forall|k: int| 0 <= k < cands.len() implies #[trigger] cands[k] == item_credential(
        s.item(found[k]),
    ) && cands[k].wf() && resolved(s, cands[k]).contains(found[k]) by {
        let h = found[k];
        let cand = cands[k];
        let a = s.item(h).attributes;
        let q = if matching(s, search_query(c, false), false).len() == 0 && legacy_fallback(c) {
            search_query(c, true)
        } else {
            search_query(c, false)
        };
        assert(q.dom().contains("service"@) ==> a.dom().contains("service"@));
        assert(q.dom().contains("username"@) ==> a.dom().contains("username"@));
        assert(cand.wf());
        lemma_query_within(cand, false);
        lemma_matching_contains(s, search_query(cand, false), false, h);
        assert(slot_matches(s, search_query(cand, false), false, h));
    }
}

/// What a client reads of an item's attributes never holds `target`,
/// `service`, `username` or `application`.
pub proof fn lemma_attributes_hide_controlled(s: StoreModel, c: CredModel)
    ensures
        attributes_outcome(s, c) matches Ok(m) ==> !m.contains_key("target"@) && !m.contains_key(
            "service"@,
        ) && !m.contains_key("username"@) && !m.contains_key("application"@),
{
    lemma_names_distinct();
}

/// An update of the attributes leaves the controlled attributes of the item as
/// they were, whatever it asks for.
pub proof fn lemma_update_keeps_controlled(
    s: StoreModel,
    c: CredModel,
    upd: Map<Seq<char>, Seq<char>>,
)
    ensures
        ({
            let (r, s1) = update_outcome(s, c, upd);
            let h = resolved(s, c)[0];
            r is Ok ==> forall|k: Seq<char>|
                #[trigger] is_controlled(k) ==> s1.item(h).attributes.contains_key(k)
                    == s.item(h).attributes.contains_key(k) && (s.item(h).attributes.contains_key(k)
                    ==> s1.item(h).attributes[k] == s.item(h).attributes[k])
        }),
{
    crate::secret_service::lemma_resolved_live(s, c);
}

/// An update that would make the label empty fails with `Invalid` and leaves
/// the store, and so the label, as it was.
pub proof fn lemma_empty_label_refused(
    s: StoreModel,
    c: CredModel,
    upd: Map<Seq<char>, Seq<char>>,
)
    requires
        resolved(s, c).len() == 1,
        upd.contains_key("label"@),
        upd["label"@].len() == 0,
    ensures
        update_outcome(s, c, upd) == (Err::<(), ErrorModel>(empty_label_error()), s),
{
}

/// An item that a credential without a target would create, in the default
/// collection, is found by the credential with the target `default` for the same
/// service and user wherever no item matches that credential with its target;
/// no credential with another target finds it.
pub proof fn lemma_legacy_item_found(s: StoreModel, service: Seq<char>, user: Seq<char>, i: int)
    requires
        s.live(i),
        s.item(i).collection == 0,
        s.item(i).attributes == legacy_identity(service, user).attributes,
    ensures
        matching(s, search_query(target_identity("default"@, service, user), false), false).len()
            == 0 ==> resolved(s, target_identity("default"@, service, user)).contains(i),
        forall|t: Seq<char>|
            t != "default"@ ==> !#[trigger] resolved(s, target_identity(t, service, user)).contains(
                i,
            ),
{
    lemma_names_distinct();
    let c = target_identity("default"@, service, user);
    lemma_matching_contains(s, search_query(c, true), true, i);
    assert(search_query(c, true).submap_of(s.item(i).attributes));
    assert forall|t: Seq<char>| t != "default"@ implies !#[trigger] resolved(
        s,
        target_identity(t, service, user),
    ).contains(i) by {
        let ct = target_identity(t, service, user);
        lemma_matching_contains(s, search_query(ct, false), false, i);
        assert(search_query(ct, false).contains_key("target"@));
        assert(!s.item(i).attributes.contains_key("target"@));
    }
}

} // verus!
