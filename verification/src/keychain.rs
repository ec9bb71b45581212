//! Secret settings and the store that holds them.
//!
//! API keys must never be persisted in the plain settings table. Settings
//! whose key is a secret are routed to a [`SecretStore`]; production code
//! backs it with the OS credential store, and [`InMemorySecretStore`] is the
//! verified in-memory store used as a test double.
use vstd::prelude::*;

use crate::assoc::{
    distinct_keys, entries_view, find_entry, lemma_absent_key, lemma_find_entry_bounds, lookup, position, removed,
    stored, lookup_after_remove, lookup_after_store,
};
use crate::text::{has_prefix, push_str, str_eq};

verus! {

/// Service name used for all Keychain entries.
pub const KEYCHAIN_SERVICE: &'static str = "com.huynhdung.echo-note";

/// Account name used for the OpenAI-compatible API key.
pub const API_KEY_ACCOUNT: &'static str = "api_key";

/// Settings keys whose values are secrets and must never live in the
/// settings table.
pub open spec fn secret_setting_keys() -> Seq<Seq<char>> {
    seq!["api_key"@]
}

/// Returns true when a settings key holds a secret that must be routed to
/// the credential store instead of the settings table.
pub fn is_secret_setting(key: &str) -> (r: bool)
    ensures
        r == secret_setting_keys().contains(key@),
{
    let r = str_eq(key, API_KEY_ACCOUNT);
    assert(secret_setting_keys()[0] == API_KEY_ACCOUNT@);
    proof {
        if secret_setting_keys().contains(key@) {
            let i = choose|i: int| 0 <= i < secret_setting_keys().len() && secret_setting_keys()[i] == key@;
            assert(i == 0);
        }
    }
    r
}

/// Abstraction over a credential store, so settings code can work with the
/// OS store in production and with an in-memory store in tests.
pub trait SecretStore {
    /// Read a secret, returning `None` when no entry exists.
    fn get(&self, account: &str) -> Result<Option<String>, String>;

    /// Create or update a secret.
    fn set(&mut self, account: &str, value: &str) -> Result<(), String>;

    /// Remove a secret. Returns `Ok(false)` when the entry does not exist.
    fn delete(&mut self, account: &str) -> Result<bool, String>;
}

/// In-memory secret store, one value per account.
pub struct InMemorySecretStore {
    entries: Vec<(String, String)>,
}

impl InMemorySecretStore {
    /// The stored secrets, account and value, oldest account first.
    pub closed spec fn view(&self) -> Seq<(Seq<char>, Seq<char>)> {
        Seq::new(self.entries@.len(), |i: int| (self.entries@[i].0@, self.entries@[i].1@))
    }

    /// No account is stored twice.
    #[verifier::type_invariant]
    closed spec fn accounts_distinct(&self) -> bool {
        distinct_keys(entries_view(self.entries@))
    }

    /// An empty store.
    pub fn new() -> (store: Self)
        ensures
            store.view() == Seq::<(Seq<char>, Seq<char>)>::empty(),
    {
        let store = InMemorySecretStore { entries: Vec::new() };
        assert(store.view() =~= Seq::<(Seq<char>, Seq<char>)>::empty());
        store
    }
}

/// The values of string-keyed string entries, taken by their characters.
proof fn lemma_view_of_entries(v: Seq<(String, String)>)
    ensures
        forall|key: Seq<char>| #[trigger] find_entry(entries_view(v), key) == find_entry(
            Seq::new(v.len(), |i: int| (v[i].0@, v[i].1@)),
            key,
        ),
{
    assert forall|key: Seq<char>| #[trigger] find_entry(entries_view(v), key) == find_entry(
        Seq::new(v.len(), |i: int| (v[i].0@, v[i].1@)),
        key,
    ) by {
        lemma_same_keys_same_find(entries_view(v), Seq::new(v.len(), |i: int| (v[i].0@, v[i].1@)), key);
    }
}

/// Two entry lists with the same keys find a key at the same place.
proof fn lemma_same_keys_same_find<A, B>(a: Seq<(Seq<char>, A)>, b: Seq<(Seq<char>, B)>, key: Seq<char>)
    requires
        a.len() == b.len(),
        forall|i: int| 0 <= i < a.len() ==> #[trigger] a[i].0 == b[i].0,
    ensures
        find_entry(a, key) == find_entry(b, key),
    decreases a.len(),
{
    if a.len() > 0 {
        assert(a.last().0 == b.last().0);
        lemma_same_keys_same_find(a.drop_last(), b.drop_last(), key);
    }
}

impl SecretStore for InMemorySecretStore {
    fn get(&self, account: &str) -> (r: Result<Option<String>, String>)
        ensures
            r matches Ok(found) && match lookup(self.view(), account@) {
                Some(v) => found matches Some(s) && s@ == v,
                None => found is None,
            },
    {
        proof {
            lemma_view_of_entries(self.entries@);
            lemma_find_entry_bounds(self.view(), account@);
        }
        match position(&self.entries, account) {
            Some(i) => Ok(Some(self.entries[i].1.clone())),
            None => Ok(None),
        }
    }

    fn set(&mut self, account: &str, value: &str) -> (r: Result<(), String>)
        ensures
            r is Ok,
            final(self).view() == stored(old(self).view(), account@, value@),
    {
        proof {
            use_type_invariant(&*self);
            lemma_view_of_entries(self.entries@);
            lemma_find_entry_bounds(self.view(), account@);
            lemma_find_entry_bounds(entries_view(self.entries@), account@);
        }
        let ghost before = self.view();
        let ghost raw = entries_view(self.entries@);
        let mut key = String::new();
        push_str(&mut key, account);
        let mut val = String::new();
        push_str(&mut val, value);
        let mut entries: Vec<(String, String)> = Vec::new();
        std::mem::swap(&mut entries, &mut self.entries);
        match position(&entries, account) {
            Some(i) => {
                proof {
                    lookup_after_store(raw, account@, val, account@);
                    assert(entries_view(entries@.update(i as int, (key, val))) =~= stored(raw, account@, val));
                }
                entries.set(i, (key, val));
            },
            None => {
                proof {
                    lemma_absent_key(raw, account@);
                    lookup_after_store(raw, account@, val, account@);
                    assert(entries_view(entries@.push((key, val))) =~= stored(raw, account@, val));
                }
                entries.push((key, val));
            },
        }
        self.entries = entries;
        proof {
            let ghost after = self.view();
            match find_entry(raw, account@) {
                Some(i) => { assert(after =~= before.update(i, (account@, value@))); },
                None => { assert(after =~= before.push((account@, value@))); },
            }
        }
        Ok(())
    }

    fn delete(&mut self, account: &str) -> (r: Result<bool, String>)
        ensures
            r == Ok::<bool, String>(lookup(old(self).view(), account@) is Some),
            final(self).view() == removed(old(self).view(), account@),
    {
        proof {
            use_type_invariant(&*self);
            lemma_view_of_entries(self.entries@);
            lemma_find_entry_bounds(self.view(), account@);
        }
        let ghost before = self.view();
        let ghost raw = entries_view(self.entries@);
        match position(&self.entries, account) {
            Some(i) => {
                proof {
                    lookup_after_remove(raw, account@, account@);
                    assert(entries_view(self.entries@.remove(i as int)) =~= removed(raw, account@));
                }
                let mut entries: Vec<(String, String)> = Vec::new();
                std::mem::swap(&mut entries, &mut self.entries);
                entries.remove(i);
                self.entries = entries;
                assert(self.view() =~= before.remove(i as int));
                Ok(true)
            },
            None => Ok(false),
        }
    }
}

// ---------------------------------------------------------------------------
// The OS credential store (keyring)
// ---------------------------------------------------------------------------

/// keyring's handle on one credential, carried through opaque.
#[verifier::external_type_specification]
#[verifier::external_body]
pub struct ExKeyringEntry(keyring::Entry);

/// What the credential store answered.
pub enum StoreReply<T> {
    /// The operation succeeded with this value.
    Done(T),
    /// No credential exists for the entry.
    Missing,
    /// The store failed; its message.
    Failed(String),
}

/// Calls `keyring::Entry::new(service, account)`; `None` when keyring
/// rejects the service or account. What comes back depends on the platform
/// store, so nothing is claimed of it.
#[verifier::external_body]
fn keyring_entry(service: &str, account: &str) -> Option<keyring::Entry> {
    keyring::Entry::new(service, account).ok()
}

/// Calls `keyring::Entry::get_password`, telling its `NoEntry` error apart
/// from other failures. The answer depends on the store's contents, so
/// nothing is claimed of it.
#[verifier::external_body]
fn entry_password(entry: &keyring::Entry) -> StoreReply<String> {
    match entry.get_password() {
        Ok(value) => StoreReply::Done(value),
        Err(keyring::Error::NoEntry) => StoreReply::Missing,
        Err(e) => StoreReply::Failed(e.to_string()),
    }
}

/// Calls `keyring::Entry::set_password`; the error is keyring's message.
/// Whether the store accepts the write is up to the store, so nothing is
/// claimed of it.
#[verifier::external_body]
fn entry_set_password(entry: &keyring::Entry, value: &str) -> Result<(), String> {
    entry.set_password(value).map_err(|e| e.to_string())
}

/// Calls `keyring::Entry::delete_credential`, telling its `NoEntry` error
/// apart from other failures. Nothing is claimed of the answer.
#[verifier::external_body]
fn entry_delete(entry: &keyring::Entry) -> StoreReply<()> {
    match entry.delete_credential() {
        Ok(()) => StoreReply::Done(()),
        Err(keyring::Error::NoEntry) => StoreReply::Missing,
        Err(e) => StoreReply::Failed(e.to_string()),
    }
}

/// The error when keyring rejects an entry.
pub const ENTRY_ERROR: &'static str = "Failed to create Keychain entry";

/// The prefix of the error when a read fails.
pub const READ_ERROR_PREFIX: &'static str = "Failed to read Keychain entry: ";

/// The error when a write fails.
pub const WRITE_ERROR: &'static str = "Failed to write Keychain entry";

/// The prefix of the error when a delete fails.
pub const DELETE_ERROR_PREFIX: &'static str = "Failed to delete Keychain entry: ";

/// A store error: `prefix` followed by the store's message.
fn store_error(prefix: &str, message: &str) -> (r: String)
    ensures
        r@ == prefix@ + message@,
        has_prefix(r@, prefix@),
{
    let mut e = String::new();
    push_str(&mut e, prefix);
    push_str(&mut e, message);
    assert(e@.subrange(0, prefix@.len() as int) =~= prefix@);
    e
}

/// A fixed store error.
fn fixed_error(text: &str) -> (r: String)
    ensures
        r@ == text@,
{
    let mut e = String::new();
    push_str(&mut e, text);
    e
}

/// A read's result taken by its characters.
pub open spec fn read_result_view(r: Result<Option<String>, String>) -> Result<Option<Seq<char>>, Seq<char>> {
    match r {
        Ok(Some(v)) => Ok(Some(v@)),
        Ok(None) => Ok(None),
        Err(e) => Err(e@),
    }
}

/// What a read returns for the store's answer: the secret, no secret when
/// the store has no entry, or the read error with the store's message.
pub open spec fn read_reply_view(reply: StoreReply<String>) -> Result<Option<Seq<char>>, Seq<char>> {
    match reply {
        StoreReply::Done(v) => Ok(Some(v@)),
        StoreReply::Missing => Ok(None),
        StoreReply::Failed(m) => Err(READ_ERROR_PREFIX@ + m@),
    }
}

/// What a delete returns for the store's answer: `true` when a credential
/// was removed, `false` when there was none, or the delete error with the
/// store's message.
pub open spec fn delete_reply_view(reply: StoreReply<()>) -> Result<bool, Seq<char>> {
    match reply {
        StoreReply::Done(()) => Ok(true),
        StoreReply::Missing => Ok(false),
        StoreReply::Failed(m) => Err(DELETE_ERROR_PREFIX@ + m@),
    }
}

/// A delete's result with its error taken by its characters.
pub open spec fn delete_result_view(r: Result<bool, String>) -> Result<bool, Seq<char>> {
    match r {
        Ok(b) => Ok(b),
        Err(e) => Err(e@),
    }
}

/// The result of a read from the store's answer.
pub fn read_reply(reply: StoreReply<String>) -> (r: Result<Option<String>, String>)
    ensures
        read_result_view(r) == read_reply_view(reply),
        r matches Err(e) ==> has_prefix(e@, READ_ERROR_PREFIX@),
{
    match reply {
        StoreReply::Done(value) => Ok(Some(value)),
        StoreReply::Missing => Ok(None),
        StoreReply::Failed(message) => Err(store_error(READ_ERROR_PREFIX, message.as_str())),
    }
}

/// The result of a write from the store's answer: any failure becomes the
/// write error.
pub fn write_reply(reply: Result<(), String>) -> (r: Result<(), String>)
    ensures
        r is Ok <==> reply is Ok,
        r matches Err(e) ==> e@ == WRITE_ERROR@,
{
    match reply {
        Ok(()) => Ok(()),
        Err(_) => Err(fixed_error(WRITE_ERROR)),
    }
}

/// The result of a delete from the store's answer.
pub fn delete_reply(reply: StoreReply<()>) -> (r: Result<bool, String>)
    ensures
        delete_result_view(r) == delete_reply_view(reply),
        r matches Err(e) ==> has_prefix(e@, DELETE_ERROR_PREFIX@),
{
    match reply {
        StoreReply::Done(()) => Ok(true),
        StoreReply::Missing => Ok(false),
        StoreReply::Failed(message) => Err(store_error(DELETE_ERROR_PREFIX, message.as_str())),
    }
}

/// Production store backed by the OS credential store, one entry per
/// account under the app's service name.
pub struct KeychainStore;

impl KeychainStore {
    /// The store.
    pub fn new() -> Self {
        KeychainStore
    }
}

impl SecretStore for KeychainStore {
    fn get(&self, account: &str) -> (r: Result<Option<String>, String>)
        ensures
            r matches Err(e) ==> e@ == ENTRY_ERROR@ || has_prefix(e@, READ_ERROR_PREFIX@),
            read_result_view(r) == Err::<Option<Seq<char>>, Seq<char>>(ENTRY_ERROR@)
                || exists|reply: StoreReply<String>| read_result_view(r) == #[trigger] read_reply_view(reply),
    {
        let entry = match keyring_entry(KEYCHAIN_SERVICE, account) {
            Some(entry) => entry,
            None => return Err(fixed_error(ENTRY_ERROR)),
        };
        let reply = entry_password(&entry);
        let ghost answer = reply;
        let r = read_reply(reply);
        assert(read_result_view(r) == read_reply_view(answer));
        r
    }

    fn set(&mut self, account: &str, value: &str) -> (r: Result<(), String>)
        ensures
            r matches Err(e) ==> e@ == ENTRY_ERROR@ || e@ == WRITE_ERROR@,
    {
        let entry = match keyring_entry(KEYCHAIN_SERVICE, account) {
            Some(entry) => entry,
            None => return Err(fixed_error(ENTRY_ERROR)),
        };
        write_reply(entry_set_password(&entry, value))
    }

    fn delete(&mut self, account: &str) -> (r: Result<bool, String>)
        ensures
            r matches Err(e) ==> e@ == ENTRY_ERROR@ || has_prefix(e@, DELETE_ERROR_PREFIX@),
            delete_result_view(r) == Err::<bool, Seq<char>>(ENTRY_ERROR@)
                || exists|reply: StoreReply<()>| delete_result_view(r) == #[trigger] delete_reply_view(reply),
    {
        let entry = match keyring_entry(KEYCHAIN_SERVICE, account) {
            Some(entry) => entry,
            None => return Err(fixed_error(ENTRY_ERROR)),
        };
        let reply = entry_delete(&entry);
        let ghost answer = reply;
        let r = delete_reply(reply);
        assert(delete_result_view(r) == delete_reply_view(answer));
        r
    }
}

} // verus!
