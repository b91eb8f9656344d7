//! Reading, writing and deleting entries of the operating system's credential
//! store through the `keyring` crate.
//!
//! What a read returns depends on the store's contents, which other programs
//! may change too; the functions here therefore promise nothing of the value
//! read, only which entry a failure concerns.
use vstd::prelude::*;
use vstd::string::StringExecFns;
use crate::names::KEYRING_SERVICE;
use crate::types::{StorageError, opt_view, copy_opt};

verus! {

#[verifier::external_type_specification]
#[verifier::external_body]
pub struct ExKeyringEntry(keyring::Entry);

#[verifier::external_type_specification]
#[verifier::external_body]
pub struct ExKeyringError(keyring::Error);

/// `keyring::Entry::new`: opens the credential of `user` under `service`.
/// Nothing is stated of the outcome, which depends on the platform's store (the crate
/// panics only where its internal lock was poisoned, which no input brings about).
#[verifier::external_body]
fn open_entry(service: &str, user: &str) -> Result<keyring::Entry, keyring::Error> {
    keyring::Entry::new(service, user)
}

/// `keyring::Entry::get_password`, with the `NoEntry` error turned into `Ok(None)`.
/// Nothing is stated of the value read: it is whatever the store holds.
#[verifier::external_body]
fn entry_password(entry: &keyring::Entry) -> Result<Option<String>, keyring::Error> {
    match entry.get_password() {
        Ok(value) => Ok(Some(value)),
        Err(keyring::Error::NoEntry) => Ok(None),
        Err(error) => Err(error),
    }
}

/// `keyring::Entry::set_password`: stores `value` under the entry.
/// Nothing is stated of the outcome, which depends on the platform's store.
#[verifier::external_body]
fn entry_set_password(entry: &keyring::Entry, value: &str) -> Result<(), keyring::Error> {
    entry.set_password(value)
}

/// `keyring::Entry::delete_credential`, with the `NoEntry` error turned into `Ok(())`.
/// Nothing is stated of the outcome, which depends on the platform's store.
#[verifier::external_body]
fn entry_delete(entry: &keyring::Entry) -> Result<(), keyring::Error> {
    match entry.delete_credential() {
        Ok(()) => Ok(()),
        Err(keyring::Error::NoEntry) => Ok(()),
        Err(error) => Err(error),
    }
}

/// The entry is the one named.
pub open spec fn names_entry(e: StorageError, entry_name: Seq<char>) -> bool {
    match e {
        StorageError::CredentialOpen { entry } => entry@ == entry_name,
        StorageError::CredentialRead { entry } => entry@ == entry_name,
        StorageError::CredentialWrite { entry } => entry@ == entry_name,
        StorageError::CredentialDelete { entry } => entry@ == entry_name,
        _ => false,
    }
}

/// What opening an entry comes to: the entry, or a failure that names it.
pub fn open_outcome(entry_name: &str, opened: Result<keyring::Entry, keyring::Error>)
    -> (r: Result<keyring::Entry, StorageError>)
    ensures
        opened matches Ok(entry) ==> r == Ok::<keyring::Entry, StorageError>(entry),
        opened is Err ==> (r matches Err(StorageError::CredentialOpen { entry }) && entry@ == entry_name@),
{
    match opened {
        Ok(entry) => Ok(entry),
        Err(_) => Err(StorageError::CredentialOpen { entry: String::from_str(entry_name) }),
    }
}

/// What reading an entry comes to: its value (`None` where it does not exist), or a
/// failure that names it.
pub fn read_outcome(entry_name: &str, read: Result<Option<String>, keyring::Error>)
    -> (r: Result<Option<String>, StorageError>)
    ensures
        read matches Ok(value) ==> r == Ok::<Option<String>, StorageError>(value),
        read is Err ==> (r matches Err(StorageError::CredentialRead { entry }) && entry@ == entry_name@),
{
    match read {
        Ok(value) => Ok(value),
        Err(_) => Err(StorageError::CredentialRead { entry: String::from_str(entry_name) }),
    }
}

/// What writing an entry comes to: success, or a failure that names it.
pub fn write_outcome(entry_name: &str, written: Result<(), keyring::Error>) -> (r: Result<(), StorageError>)
    ensures
        written is Ok ==> r is Ok,
        written is Err ==> (r matches Err(StorageError::CredentialWrite { entry }) && entry@ == entry_name@),
{
    match written {
        Ok(()) => Ok(()),
        Err(_) => Err(StorageError::CredentialWrite { entry: String::from_str(entry_name) }),
    }
}

/// What deleting an entry comes to: success, or a failure that names it.
pub fn delete_outcome(entry_name: &str, deleted: Result<(), keyring::Error>) -> (r: Result<(), StorageError>)
    ensures
        deleted is Ok ==> r is Ok,
        deleted is Err ==> (r matches Err(StorageError::CredentialDelete { entry }) && entry@ == entry_name@),
{
    match deleted {
        Ok(()) => Ok(()),
        Err(_) => Err(StorageError::CredentialDelete { entry: String::from_str(entry_name) }),
    }
}

/// Opens the switcher's credential entry of this name.
pub fn keyring_entry(entry_name: &str) -> (r: Result<keyring::Entry, StorageError>)
    ensures
        r matches Err(e) ==> e matches StorageError::CredentialOpen { entry } && entry@ == entry_name@,
{
    open_outcome(entry_name, open_entry(KEYRING_SERVICE, entry_name))
}

/// Evidence of a read of the credential store: the entry read and what the store gave
/// for it (`None` where the entry does not exist). Only `read_keyring_entry` makes one.
#[derive(Debug)]
pub struct EntryRead {
    entry: String,
    value: Option<String>,
}

impl EntryRead {
    /// The entry that was read.
    pub closed spec fn entry(&self) -> Seq<char> {
        self.entry@
    }

    /// What the store gave for it.
    pub closed spec fn value(&self) -> Option<Seq<char>> {
        opt_view(self.value)
    }

    /// Whether the entry was not there.
    pub fn is_missing(&self) -> (b: bool)
        ensures
            b == (self.value() is None),
    {
        self.value.is_none()
    }

    /// A copy of the value read, leaving the evidence in place.
    pub fn value_copy(&self) -> (v: Option<String>)
        ensures
            opt_view(v) == self.value(),
    {
        copy_opt(&self.value)
    }

    /// The value read.
    pub fn into_value(self) -> (v: Option<String>)
        ensures
            opt_view(v) == self.value(),
    {
        self.value
    }
}

/// Evidence of a write to the credential store: the entry written and the value handed to
/// it, which the store accepted. Only `write_keyring_value` makes one.
#[derive(Debug)]
pub struct EntryWrite {
    entry: String,
    value: String,
}

impl EntryWrite {
    /// The entry that was written.
    pub closed spec fn entry(&self) -> Seq<char> {
        self.entry@
    }

    /// The value written to it.
    pub closed spec fn value(&self) -> Seq<char> {
        self.value@
    }

    /// The name of the entry that was written.
    pub fn entry_name(&self) -> (name: &str)
        ensures
            name@ == self.entry(),
    {
        self.entry.as_str()
    }
}

/// Reads an entry, giving the evidence of the read.
pub fn read_keyring_entry(entry_name: &str) -> (r: Result<EntryRead, StorageError>)
    ensures
        r matches Ok(read) ==> read.entry() == entry_name@,
        r matches Err(e) ==> names_entry(e, entry_name@) && (e is CredentialOpen || e is CredentialRead),
{
    let entry = keyring_entry(entry_name)?;
    let value = read_outcome(entry_name, entry_password(&entry))?;
    Ok(EntryRead { entry: String::from_str(entry_name), value })
}

/// Reads an entry: `Ok(None)` where it does not exist.
pub fn read_keyring_value(entry_name: &str) -> (r: Result<Option<String>, StorageError>)
    ensures
        r matches Err(e) ==> names_entry(e, entry_name@) && (e is CredentialOpen || e is CredentialRead),
{
    match read_keyring_entry(entry_name) {
        Ok(read) => Ok(read.into_value()),
        Err(e) => Err(e),
    }
}

/// Writes an entry, giving the evidence of the write.
pub fn write_keyring_value(entry_name: &str, value: &str) -> (r: Result<EntryWrite, StorageError>)
    ensures
        r matches Ok(written) ==> written.entry() == entry_name@ && written.value() == value@,
        r matches Err(e) ==> names_entry(e, entry_name@) && (e is CredentialOpen || e is CredentialWrite),
{
    let entry = keyring_entry(entry_name)?;
    write_outcome(entry_name, entry_set_password(&entry, value))?;
    Ok(EntryWrite { entry: String::from_str(entry_name), value: String::from_str(value) })
}

/// Deletes an entry; an entry that does not exist counts as deleted.
pub fn delete_keyring_value(entry_name: &str) -> (r: Result<(), StorageError>)
    ensures
        r matches Err(e) ==> names_entry(e, entry_name@) && (e is CredentialOpen || e is CredentialDelete),
{
    let entry = keyring_entry(entry_name)?;
    delete_outcome(entry_name, entry_delete(&entry))
}

} // verus!
