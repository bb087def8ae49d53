//! API-key storage in the OS keyring. Keys are stored under the service
//! `rift-terminal` with the model id as user name; the configuration only
//! refers to the model id.
use vstd::prelude::*;
use crate::text::{chars_of, string_of};

verus! {

#[verifier::external_type_specification]
#[verifier::external_body]
pub struct ExKeyringEntry(::keyring::Entry);

#[verifier::external_type_specification]
#[verifier::external_body]
pub struct ExKeyringError(::keyring::Error);

/// Keyring service name under which API keys are stored.
pub const SERVICE_NAME: &'static str = "rift-terminal";

/// A keyring error as the library reads it: whether it is
/// `keyring::Error::NoEntry`, and its `Display` text. The wrappers below
/// build it from the crate's error; nothing is stated of the text.
#[derive(Clone, Debug)]
pub struct KeyringFailure {
    pub no_entry: bool,
    pub text: String,
}

/// `keyring::Entry::new(service, user)`: builds a credential entry with the
/// default credential builder, kept with the service and user it was made
/// for; a failure comes back as a [`KeyringFailure`]. The ghost part records
/// what was handed to the crate. Whether it succeeds depends on the
/// platform store; nothing is promised of the outcome.
#[verifier::external_body]
fn entry_new(service: &str, user: &str) -> (r: (Result<KeyEntry, KeyringFailure>, Ghost<(Seq<char>, Seq<char>)>))
    ensures
        r.1@ == (service@, user@),
        r.0 matches Ok(e) ==> e.service() == service@ && e.user() == user@,
{
    let made = match ::keyring::Entry::new(service, user) {
        Ok(entry) => Ok(KeyEntry { service: service.to_string(), user: user.to_string(), entry }),
        Err(e) => Err(KeyringFailure { no_entry: matches!(e, ::keyring::Error::NoEntry), text: e.to_string() }),
    };
    (made, Ghost((service@, user@)))
}

/// `keyring::Entry::set_password` on the entry's credential; the ghost part
/// records the entry's service and user and the password handed over. The
/// outcome depends on the platform store.
#[verifier::external_body]
fn entry_set_password(entry: &KeyEntry, password: &str) -> (r: (Result<(), KeyringFailure>, Ghost<(Seq<char>, Seq<char>, Seq<char>)>))
    ensures
        r.1@ == (entry.service(), entry.user(), password@),
{
    let got = match entry.entry.set_password(password) {
        Ok(v) => Ok(v),
        Err(e) => Err(KeyringFailure { no_entry: matches!(e, ::keyring::Error::NoEntry), text: e.to_string() }),
    };
    (got, Ghost((entry.service(), entry.user(), password@)))
}

/// `keyring::Entry::get_password` on the entry's credential; what it returns
/// depends on the platform store.
#[verifier::external_body]
fn entry_get_password(entry: &KeyEntry) -> Result<String, KeyringFailure> {
    match entry.entry.get_password() {
        Ok(v) => Ok(v),
        Err(e) => Err(KeyringFailure { no_entry: matches!(e, ::keyring::Error::NoEntry), text: e.to_string() }),
    }
}

/// `keyring::Entry::delete_credential` on the entry's credential; the
/// outcome depends on the platform store.
#[verifier::external_body]
fn entry_delete_credential(entry: &KeyEntry) -> Result<(), KeyringFailure> {
    match entry.entry.delete_credential() {
        Ok(v) => Ok(v),
        Err(e) => Err(KeyringFailure { no_entry: matches!(e, ::keyring::Error::NoEntry), text: e.to_string() }),
    }
}

/// Whether `m` starts with `prefix`.
pub open spec fn starts_with_text(m: Seq<char>, prefix: Seq<char>) -> bool {
    m.len() >= prefix.len() && m.subrange(0, prefix.len() as int) == prefix
}

/// A text starts with its prefix.
pub proof fn lemma_starts_with_concat(p: Seq<char>, t: Seq<char>)
    ensures
        starts_with_text(p + t, p),
{
    assert((p + t).subrange(0, p.len() as int) =~= p);
}

/// `prefix` followed by the failure's text.
pub fn failure_message(prefix: &str, f: &KeyringFailure) -> (m: String)
    ensures
        m@ == prefix@ + f.text@,
        starts_with_text(m@, prefix@),
{
    let mut v = chars_of(prefix);
    let mut t = chars_of(f.text.as_str());
    v.append(&mut t);
    proof {
        lemma_starts_with_concat(prefix@, f.text@);
    }
    string_of(v.as_slice())
}

/// A store's answer as the library reads it: the value, or the failure as
/// (is `NoEntry`, text).
pub open spec fn answer_view<T>(r: Result<T, KeyringFailure>) -> Result<T, (bool, Seq<char>)> {
    match r {
        Ok(v) => Ok(v),
        Err(f) => Err((f.no_entry, f.text@)),
    }
}

pub open spec fn string_answer_view(r: Result<String, KeyringFailure>) -> Result<Seq<char>, (bool, Seq<char>)> {
    match r {
        Ok(v) => Ok(v@),
        Err(f) => Err((f.no_entry, f.text@)),
    }
}

pub open spec fn unit_string_view(r: Result<(), String>) -> Result<(), Seq<char>> {
    match r {
        Ok(()) => Ok(()),
        Err(m) => Err(m@),
    }
}

/// What a read reports for the store's answer: the key; `None` when the
/// store has no entry; otherwise `keyring read error: ` and the error text.
pub open spec fn read_report(a: Result<Seq<char>, (bool, Seq<char>)>) -> Result<Option<Seq<char>>, Seq<char>> {
    match a {
        Ok(k) => Ok(Some(k)),
        Err((no_entry, t)) => if no_entry {
            Ok(None)
        } else {
            Err("keyring read error: "@ + t)
        },
    }
}

/// What a store reports for the keyring's answer: success, or
/// `keyring store error: ` and the error text.
pub open spec fn store_report(a: Result<(), (bool, Seq<char>)>) -> Result<(), Seq<char>> {
    match a {
        Ok(()) => Ok(()),
        Err((_, t)) => Err("keyring store error: "@ + t),
    }
}

/// What a delete reports for the keyring's answer: success, also when there
/// was no entry; otherwise `keyring delete error: ` and the error text.
pub open spec fn delete_report(a: Result<(), (bool, Seq<char>)>) -> Result<(), Seq<char>> {
    match a {
        Ok(()) => Ok(()),
        Err((no_entry, t)) => if no_entry {
            Ok(())
        } else {
            Err("keyring delete error: "@ + t)
        },
    }
}

/// The report of setting a password: success, or the store error.
pub fn store_outcome(set: Result<(), KeyringFailure>) -> (r: Result<(), String>)
    ensures
        unit_string_view(r) == store_report(answer_view(set)),
{
    match set {
        Ok(()) => Ok(()),
        Err(f) => Err(failure_message("keyring store error: ", &f)),
    }
}

/// The report of reading a password: the key; `None` when the store has no
/// entry; otherwise the read error.
pub fn read_outcome(got: Result<String, KeyringFailure>) -> (r: Result<Option<String>, String>)
    ensures
        lookup_view(r) == read_report(string_answer_view(got)),
{
    match got {
        Ok(key) => Ok(Some(key)),
        Err(f) => if f.no_entry {
            Ok(None)
        } else {
            Err(failure_message("keyring read error: ", &f))
        },
    }
}

/// The report of deleting a password: success, also when the store had no
/// entry; otherwise the delete error.
pub fn delete_outcome(got: Result<(), KeyringFailure>) -> (r: Result<(), String>)
    ensures
        unit_string_view(r) == delete_report(answer_view(got)),
{
    match got {
        Ok(()) => Ok(()),
        Err(f) => if f.no_entry {
            Ok(())
        } else {
            Err(failure_message("keyring delete error: ", &f))
        },
    }
}

/// A credential entry of the OS keyring, with the service and user it was
/// made for.
pub struct KeyEntry {
    service: String,
    user: String,
    entry: ::keyring::Entry,
}

impl KeyEntry {
    /// The keyring service the entry was made for.
    pub closed spec fn service(&self) -> Seq<char> {
        self.service@
    }

    /// The user name the entry was made for.
    pub closed spec fn user(&self) -> Seq<char> {
        self.user@
    }
}

/// The report of a failure to make an entry.
pub open spec fn entry_error(t: Seq<char>) -> Seq<char> {
    "keyring entry error: "@ + t
}

/// The keyring entry of a model's API key: service [`SERVICE_NAME`]
/// (`rift-terminal`), user the model id; or the entry error. The ghost part
/// is the (service, user) handed to `Entry::new`.
pub fn keyring_entry(model_id: &str) -> (r: (Result<KeyEntry, String>, Ghost<(Seq<char>, Seq<char>)>))
    ensures
        r.1@ == ("rift-terminal"@, model_id@),
        match r.0 {
            Ok(e) => e.service() == "rift-terminal"@ && e.user() == model_id@,
            Err(m) => exists|t: Seq<char>| m@ == #[trigger] entry_error(t),
        },
{
    let (made, handed) = entry_new(SERVICE_NAME, model_id);
    let r = match made {
        Ok(entry) => Ok(entry),
        Err(f) => {
            let m = failure_message("keyring entry error: ", &f);
            assert(m@ == entry_error(f.text@));
            Err(m)
        },
    };
    (r, handed)
}

/// Store `key` in `entry`: the [`store_report`] of the keyring's answer.
/// The ghost part is the (service, user, password) handed to the store.
pub fn store_key(entry: &KeyEntry, key: &str) -> (r: (Result<(), String>, Ghost<(Seq<char>, Seq<char>, Seq<char>)>))
    ensures
        r.1@ == (entry.service(), entry.user(), key@),
        exists|a: Result<(), (bool, Seq<char>)>| unit_string_view(r.0) == #[trigger] store_report(a),
{
    let (got, handed) = entry_set_password(entry, key);
    let ghost a = answer_view(got);
    let r = store_outcome(got);
    assert(unit_string_view(r) == store_report(a));
    (r, handed)
}

/// Read the key of `entry`: the [`read_report`] of the keyring's answer.
pub fn read_key(entry: &KeyEntry) -> (r: Result<Option<String>, String>)
    ensures
        exists|a: Result<Seq<char>, (bool, Seq<char>)>| lookup_view(r) == #[trigger] read_report(a),
{
    let got = entry_get_password(entry);
    let ghost a = string_answer_view(got);
    let r = read_outcome(got);
    assert(lookup_view(r) == read_report(a));
    r
}

/// Delete the key of `entry`: the [`delete_report`] of the keyring's answer.
pub fn delete_key(entry: &KeyEntry) -> (r: Result<(), String>)
    ensures
        exists|a: Result<(), (bool, Seq<char>)>| unit_string_view(r) == #[trigger] delete_report(a),
{
    let got = entry_delete_credential(entry);
    let ghost a = answer_view(got);
    let r = delete_outcome(got);
    assert(unit_string_view(r) == delete_report(a));
    r
}

/// What a lookup of a model's key can report: the entry error, or the
/// [`read_report`] of some answer of the keyring.
pub open spec fn possible_lookup(l: Result<Option<Seq<char>>, Seq<char>>) -> bool {
    ||| exists|t: Seq<char>| l == Err::<Option<Seq<char>>, Seq<char>>(#[trigger] entry_error(t))
    ||| exists|a: Result<Seq<char>, (bool, Seq<char>)>| l == #[trigger] read_report(a)
}

/// What a store or delete of a model's key can report, given what the
/// keyring answers are reported as: the entry error, or such a report.
pub open spec fn possible_change(r: Result<(), Seq<char>>, is_store: bool) -> bool {
    ||| exists|t: Seq<char>| r == Err::<(), Seq<char>>(#[trigger] entry_error(t))
    ||| is_store && exists|a: Result<(), (bool, Seq<char>)>| r == #[trigger] store_report(a)
    ||| !is_store && exists|a: Result<(), (bool, Seq<char>)>| r == #[trigger] delete_report(a)
}

/// Store an API key in the OS keyring, under [`SERVICE_NAME`] with the
/// model id as user ([`keyring_entry`], [`store_key`]). Whether the store
/// accepts it is the platform's. The ghost part is what was handed to the
/// keyring: the service and user of the entry, and the password when the
/// entry was made.
pub fn store_api_key(model_id: &str, key: &str) -> (r: (Result<(), String>, Ghost<(Seq<char>, Seq<char>, Option<Seq<char>>)>))
    ensures
        r.1@.0 == "rift-terminal"@,
        r.1@.1 == model_id@,
        r.1@.2 is None ==> exists|t: Seq<char>| unit_string_view(r.0) == Err::<(), Seq<char>>(#[trigger] entry_error(t)),
        r.1@.2 is Some ==> r.1@.2 == Some(key@) && exists|a: Result<(), (bool, Seq<char>)>| unit_string_view(r.0) == #[trigger] store_report(a),
{
    let (made, handed) = keyring_entry(model_id);
    match made {
        Ok(entry) => {
            let (r, sent) = store_key(&entry, key);
            (r, Ghost((handed@.0, handed@.1, Some(sent@.2))))
        },
        Err(m) => (Err(m), Ghost((handed@.0, handed@.1, None))),
    }
}

/// Retrieve an API key from the OS keyring ([`keyring_entry`],
/// [`read_key`]): `Ok(None)` when no key is stored. What is stored is the
/// platform's. The ghost part is the (service, user) of the entry read.
pub fn get_api_key(model_id: &str) -> (r: (Result<Option<String>, String>, Ghost<(Seq<char>, Seq<char>)>))
    ensures
        r.1@ == ("rift-terminal"@, model_id@),
        possible_lookup(lookup_view(r.0)),
{
    let (made, handed) = keyring_entry(model_id);
    match made {
        Ok(entry) => (read_key(&entry), handed),
        Err(m) => (Err(m), handed),
    }
}

/// Delete an API key from the OS keyring ([`keyring_entry`],
/// [`delete_key`]); deleting an absent key succeeds. The ghost part is the
/// (service, user) of the entry deleted.
pub fn delete_api_key(model_id: &str) -> (r: (Result<(), String>, Ghost<(Seq<char>, Seq<char>)>))
    ensures
        r.1@ == ("rift-terminal"@, model_id@),
        possible_change(unit_string_view(r.0), false),
{
    let (made, handed) = keyring_entry(model_id);
    match made {
        Ok(entry) => {
            let r = delete_key(&entry);
            (r, handed)
        },
        Err(m) => (Err(m), handed),
    }
}

/// The key resolution rule: a key found in the keyring wins; otherwise the
/// raw value of the configuration (empty when absent).
pub open spec fn resolved_key(lookup: Result<Option<Seq<char>>, Seq<char>>, api_key_ref: Option<Seq<char>>) -> Seq<char> {
    match lookup {
        Ok(Some(k)) => k,
        _ => match api_key_ref {
            Some(r) => r,
            None => Seq::empty(),
        },
    }
}

pub open spec fn lookup_view(lookup: Result<Option<String>, String>) -> Result<Option<Seq<char>>, Seq<char>> {
    match lookup {
        Ok(Some(k)) => Ok(Some(k@)),
        Ok(None) => Ok(None),
        Err(m) => Err(m@),
    }
}

pub open spec fn opt_str_view(o: Option<&str>) -> Option<Seq<char>> {
    match o {
        Some(s) => Some(s@),
        None => None,
    }
}

/// Apply the resolution rule to a keyring lookup result.
pub fn resolve_from_lookup(lookup: Result<Option<String>, String>, api_key_ref: Option<&str>) -> (k: String)
    ensures
        k@ == resolved_key(lookup_view(lookup), opt_str_view(api_key_ref)),
{
    match lookup {
        Ok(Some(key)) => key,
        _ => match api_key_ref {
            Some(r) => string_of(chars_of(r).as_slice()),
            None => String::new(),
        },
    }
}

/// Resolve an API key: the keyring first, then the raw value in
/// `api_key_ref` (configurations written before keyring support).
/// The ghost part is the (service, user) of the entry read.
pub fn resolve_api_key(model_id: &str, api_key_ref: Option<&str>) -> (r: (String, Ghost<(Seq<char>, Seq<char>)>))
    ensures
        r.1@ == ("rift-terminal"@, model_id@),
        exists|lookup: Result<Option<Seq<char>>, Seq<char>>|
            possible_lookup(lookup) && r.0@ == #[trigger] resolved_key(lookup, opt_str_view(api_key_ref)),
{
    let (lookup, handed) = get_api_key(model_id);
    let k = resolve_from_lookup(lookup, api_key_ref);
    assert(k@ == resolved_key(lookup_view(lookup), opt_str_view(api_key_ref)));
    (k, handed)
}

} // verus!
