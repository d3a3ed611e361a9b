//! The interfaces that credentials and credential builders offer, and the
//! builder of [`SsCredential`]s.
use vstd::prelude::*;

use vstd::utf8::encode_utf8;

use crate::attributes::AttrMap;
use crate::error::{outcome, Error};
use crate::secret_service::{
    attributes_outcome, delete_outcome, empty_target_error, password_outcome, secret_outcome,
    set_secret_outcome, target_identity, target_or_default, update_outcome, SsCredential,
};
use crate::store::SecretStore;

verus! {

/// The operations of a credential on the store that holds it. Each operation
/// states what it does through a predicate over the store before and after it
/// and its result, which each kind of credential defines.
pub trait CredentialApi {
    /// The store the credential's items live in.
    type Store;

    /// Whether the credential and the store are fit for the operations.
    spec fn ready(&self, store: &Self::Store) -> bool;

    /// What setting the secret `secret` does.
    spec fn set_secret_done(
        &self,
        before: Self::Store,
        secret: Seq<u8>,
        r: Result<(), Error>,
        after: Self::Store,
    ) -> bool;

    /// What reading the password gives.
    spec fn password_read(&self, store: Self::Store, r: Result<String, Error>) -> bool;

    /// What reading the secret gives.
    spec fn secret_read(&self, store: Self::Store, r: Result<Vec<u8>, Error>) -> bool;

    /// What reading the attributes gives.
    spec fn attributes_read(&self, store: Self::Store, r: Result<AttrMap, Error>) -> bool;

    /// What updating the attributes with `updates` does.
    spec fn attributes_updated(
        &self,
        before: Self::Store,
        updates: Map<Seq<char>, Seq<char>>,
        r: Result<(), Error>,
        after: Self::Store,
    ) -> bool;

    /// What deleting does.
    spec fn deleted(&self, before: Self::Store, r: Result<(), Error>, after: Self::Store) -> bool;

    /// Whether the credential and the store are fit for the operations.
    fn is_ready(&self, store: &Self::Store) -> (r: bool)
        ensures
            r == self.ready(store),
    ;

    /// Sets the password (a string): its UTF-8 bytes become the secret.
    fn set_password(&self, store: &mut Self::Store, password: &str) -> (r: Result<(), Error>)
        requires
            self.ready(old(store)),
        ensures
            self.ready(final(store)),
            self.set_secret_done(*old(store), encode_utf8(password@), r, *final(store)),
    ;

    /// Sets the secret (a byte string).
    fn set_secret(&self, store: &mut Self::Store, secret: &[u8]) -> (r: Result<(), Error>)
        requires
            self.ready(old(store)),
        ensures
            self.ready(final(store)),
            self.set_secret_done(*old(store), secret@, r, *final(store)),
    ;

    /// Reads the password.
    fn get_password(&self, store: &Self::Store) -> (r: Result<String, Error>)
        requires
            self.ready(store),
        ensures
            self.password_read(*store, r),
    ;

    /// Reads the secret.
    fn get_secret(&self, store: &Self::Store) -> (r: Result<Vec<u8>, Error>)
        requires
            self.ready(store),
        ensures
            self.secret_read(*store, r),
    ;

    /// Reads the attributes that clients may see.
    fn get_attributes(&self, store: &Self::Store) -> (r: Result<AttrMap, Error>)
        requires
            self.ready(store),
        ensures
            self.attributes_read(*store, r),
    ;

    /// Updates the attributes that clients may change.
    fn update_attributes(&self, store: &mut Self::Store, updates: &AttrMap) -> (r: Result<
        (),
        Error,
    >)
        requires
            self.ready(old(store)),
            updates.wf(),
        ensures
            self.ready(final(store)),
            self.attributes_updated(*old(store), updates@, r, *final(store)),
    ;

    /// Deletes the underlying item. Deleting twice fails with `NoEntry`.
    fn delete_credential(&self, store: &mut Self::Store) -> (r: Result<(), Error>)
        requires
            self.ready(old(store)),
        ensures
            self.ready(final(store)),
            self.deleted(*old(store), r, *final(store)),
    ;
}

impl CredentialApi for SsCredential {
    type Store = SecretStore;

    open spec fn ready(&self, store: &SecretStore) -> bool {
        self.wf() && store.wf()
    }

    open spec fn set_secret_done(
        &self,
        before: SecretStore,
        secret: Seq<u8>,
        r: Result<(), Error>,
        after: SecretStore,
    ) -> bool {
        (outcome(r, |u: ()| u), after@) == set_secret_outcome(before@, self@, secret)
    }

    open spec fn password_read(&self, store: SecretStore, r: Result<String, Error>) -> bool {
        outcome(r, |v: String| v@) == password_outcome(store@, self@)
    }

    open spec fn secret_read(&self, store: SecretStore, r: Result<Vec<u8>, Error>) -> bool {
        outcome(r, |v: Vec<u8>| v@) == secret_outcome(store@, self@)
    }

    open spec fn attributes_read(&self, store: SecretStore, r: Result<AttrMap, Error>) -> bool {
        outcome(r, |m: AttrMap| m@) == attributes_outcome(store@, self@)
    }

    open spec fn attributes_updated(
        &self,
        before: SecretStore,
        updates: Map<Seq<char>, Seq<char>>,
        r: Result<(), Error>,
        after: SecretStore,
    ) -> bool {
        (outcome(r, |u: ()| u), after@) == update_outcome(before@, self@, updates)
    }

    open spec fn deleted(&self, before: SecretStore, r: Result<(), Error>, after: SecretStore) -> bool {
        (outcome(r, |u: ()| u), after@) == delete_outcome(before@, self@)
    }

    fn is_ready(&self, store: &SecretStore) -> bool {
        self.is_well_formed() && store.is_well_formed()
    }

    fn set_password(&self, store: &mut SecretStore, password: &str) -> Result<(), Error> {
        SsCredential::set_password(self, store, password)
    }

    fn set_secret(&self, store: &mut SecretStore, secret: &[u8]) -> Result<(), Error> {
        SsCredential::set_secret(self, store, secret)
    }

    fn get_password(&self, store: &SecretStore) -> Result<String, Error> {
        SsCredential::get_password(self, store)
    }

    fn get_secret(&self, store: &SecretStore) -> Result<Vec<u8>, Error> {
        SsCredential::get_secret(self, store)
    }

    fn get_attributes(&self, store: &SecretStore) -> Result<AttrMap, Error> {
        SsCredential::get_attributes(self, store)
    }

    fn update_attributes(&self, store: &mut SecretStore, updates: &AttrMap) -> Result<(), Error> {
        SsCredential::update_attributes(self, store, updates)
    }

    fn delete_credential(&self, store: &mut SecretStore) -> Result<(), Error> {
        SsCredential::delete_credential(self, store)
    }
}

/// How long the credentials of a builder last.
#[non_exhaustive]
#[derive(Debug, Clone, Copy, PartialEq, Eq, Structural)]
pub enum CredentialPersistence {
    /// As long as the entry that holds them.
    EntryOnly,
    /// As long as the process.
    ProcessOnly,
    /// Until the machine restarts.
    UntilReboot,
    /// Until they are deleted.
    UntilDelete,
}

/// The operations of a credential builder.
pub trait CredentialBuilderApi {
    /// The credentials it builds.
    type Credential;

    /// What building a credential for `target`, `service` and `user` gives.
    spec fn builds(
        &self,
        target: Option<&str>,
        service: Seq<char>,
        user: Seq<char>,
        r: Result<Self::Credential, Error>,
    ) -> bool;

    /// How long its credentials last.
    spec fn lifetime(&self) -> CredentialPersistence;

    /// A credential for `target`, `service` and `user`; no item is created.
    fn build(&self, target: Option<&str>, service: &str, user: &str) -> (r: Result<
        Self::Credential,
        Error,
    >)
        ensures
            self.builds(target, service@, user@, r),
    ;

    /// How long its credentials last.
    fn persistence(&self) -> (r: CredentialPersistence)
        ensures
            r == self.lifetime(),
    ;
}

/// The builder of [`SsCredential`]s.
#[derive(Debug, Default)]
pub struct SsCredentialBuilder {}

impl CredentialBuilderApi for SsCredentialBuilder {
    type Credential = SsCredential;

    /// The credential of `SsCredential::new_with_target`: an empty target is
    /// refused, else the target (`default` where none is given), the service
    /// and the user make the credential.
    open spec fn builds(
        &self,
        target: Option<&str>,
        service: Seq<char>,
        user: Seq<char>,
        r: Result<SsCredential, Error>,
    ) -> bool {
        &&& (r is Err <==> (target matches Some(t) && t@.len() == 0))
        &&& (r matches Err(e) ==> e@ == empty_target_error())
        &&& (r matches Ok(c) ==> c.wf() && c@ == target_identity(
            target_or_default(target),
            service,
            user,
        ))
    }

    /// Items stay in the store until they are deleted.
    open spec fn lifetime(&self) -> CredentialPersistence {
        CredentialPersistence::UntilDelete
    }

    fn build(&self, target: Option<&str>, service: &str, user: &str) -> Result<SsCredential, Error> {
        SsCredential::new_with_target(target, service, user)
    }

    fn persistence(&self) -> CredentialPersistence {
        CredentialPersistence::UntilDelete
    }
}

/// The builder of [`SsCredential`]s.
pub fn default_credential_builder() -> SsCredentialBuilder {
    SsCredentialBuilder {}
}

} // verus!
