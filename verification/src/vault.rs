//! Reading and writing records through their seals, and checking a secret
//! against its stored verifier.

use crate::crypto::{
    derive_key, derived_key, fresh_nonce, hash, open_field, opened_field, seal_field, sealed_field, sha256,
    MAX_PLAINTEXT_LEN, NONCE_LEN, TAG_LEN,
};
use crate::encoding::{hex_bytes, hex_decode, hex_text, is_hex_text};
use crate::error::BackendError;
use crate::password::{PasswordField, PasswordInfo, PasswordInfoView};
use crate::table::{
    contains_name, get_password, lemma_upserted, lookup, next_id, upserted, well_formed, PasswordTable,
};
use vstd::prelude::*;
use vstd::utf8::*;

verus! {

/// The name of the record that holds the verifiers of the master password
/// and of the recovery phrase.
pub const MASTER_KEYWORD: &'static str = ".master";

/// What reading makes of an optional stored field under `key`.
pub open spec fn opened_optional(key: Seq<u8>, stored: Option<Seq<char>>) -> Result<Option<Seq<char>>, BackendError> {
    match stored {
        None => Ok(None),
        Some(text) => match opened_field(key, text) {
            Ok(plain) => Ok(Some(plain)),
            Err(e) => Err(e),
        },
    }
}

/// The record `row` with every field read under the key that `master`
/// gives for the record's name. The fields are read in the order email,
/// username, password, notes, and the first that fails decides the error: no
/// record comes back in part.
pub open spec fn decrypted(row: PasswordInfoView, master: Seq<char>) -> Result<PasswordInfoView, BackendError> {
    let key = derived_key(master, row.name);
    match opened_optional(key, row.email) {
        Err(e) => Err(e),
        Ok(email) => match opened_optional(key, row.username) {
            Err(e) => Err(e),
            Ok(username) => match opened_optional(key, row.password) {
                Err(e) => Err(e),
                Ok(password) => match opened_optional(key, row.notes) {
                    Err(e) => Err(e),
                    Ok(notes) => Ok(PasswordInfoView { id: row.id, name: row.name, email, username, notes, password }),
                },
            },
        },
    }
}

/// What a read of `name` under `master` returns: nothing where no record has
/// the name, else the record in the clear or the error of its first bad field.
pub open spec fn read_outcome(rows: Seq<PasswordInfoView>, name: Seq<char>, master: Seq<char>) -> Result<Option<PasswordInfoView>, BackendError> {
    match lookup(rows, name) {
        None => Ok(None),
        Some(row) => match decrypted(row, master) {
            Ok(clear) => Ok(Some(clear)),
            Err(e) => Err(e),
        },
    }
}

/// Reads one optional field under `key`.
fn open_optional(key: &[u8; 32], stored: &Option<String>) -> (r: Result<Option<String>, BackendError>)
    ensures
        match r {
            Ok(Some(text)) => opened_optional(key@, crate::password::text_of(*stored)) == Ok::<Option<Seq<char>>, BackendError>(Some(text@)),
            Ok(None) => opened_optional(key@, crate::password::text_of(*stored)) == Ok::<Option<Seq<char>>, BackendError>(None),
            Err(e) => opened_optional(key@, crate::password::text_of(*stored)) == Err::<Option<Seq<char>>, BackendError>(e),
        },
{
    match stored {
        None => Ok(None),
        Some(text) => match open_field(key, text.as_str()) {
            Ok(plain) => Ok(Some(plain)),
            Err(e) => Err(e),
        },
    }
}

/// Decrypts a record whose fields are sealed. The key is derived once, from
/// `master` and the record's name, and serves all four fields. Any field
/// that fails makes the whole read fail.
pub fn decrypt_password(password: PasswordInfo, master: &str) -> (r: Result<PasswordInfo, BackendError>)
    ensures
        match r {
            Ok(clear) => decrypted(password@, master@) == Ok::<PasswordInfoView, BackendError>(clear@),
            Err(e) => decrypted(password@, master@) == Err::<PasswordInfoView, BackendError>(e),
        },
{
    let key: [u8; 32] = derive_key(master, password.name.as_str());
    let email: Option<String> = match open_optional(&key, &password.email) {
        Ok(text) => text,
        Err(e) => {
            return Err(e);
        },
    };
    let username: Option<String> = match open_optional(&key, &password.username) {
        Ok(text) => text,
        Err(e) => {
            return Err(e);
        },
    };
    let pass: Option<String> = match open_optional(&key, &password.password) {
        Ok(text) => text,
        Err(e) => {
            return Err(e);
        },
    };
    let notes: Option<String> = match open_optional(&key, &password.notes) {
        Ok(text) => text,
        Err(e) => {
            return Err(e);
        },
    };
    Ok(PasswordInfo { id: password.id, name: password.name, email, username, notes, password: pass })
}

/// Reads the record named `search_term` and decrypts it under `master`.
/// `Ok(None)` where no record has that name: absence is no error.
pub fn read_password(table: &PasswordTable, search_term: &str, master: &str) -> (r: Result<Option<PasswordInfo>, BackendError>)
    ensures
        match r {
            Ok(Some(clear)) => read_outcome(table@, search_term@, master@) == Ok::<Option<PasswordInfoView>, BackendError>(Some(clear@)),
            Ok(None) => read_outcome(table@, search_term@, master@) == Ok::<Option<PasswordInfoView>, BackendError>(None),
            Err(e) => read_outcome(table@, search_term@, master@) == Err::<Option<PasswordInfoView>, BackendError>(e),
        },
{
    match get_password(table, search_term) {
        None => Ok(None),
        Some(sealed) => match decrypt_password(sealed, master) {
            Ok(clear) => Ok(Some(clear)),
            Err(e) => Err(e),
        },
    }
}

/// Whether the record `name` holds in `field` a stored value that reads as
/// `data` under `key`.
pub open spec fn stored_opens_under(rows: Seq<PasswordInfoView>, name: Seq<char>, key: Seq<u8>, field: PasswordField, data: Seq<char>) -> bool {
    &&& lookup(rows, name) matches Some(row)
    &&& row.field(field) matches Some(stored)
    &&& opened_field(key, stored) == Ok::<Seq<char>, BackendError>(data)
}

/// Whether the record `name` holds in `field` a stored value that reads as
/// `data` under `master`.
pub open spec fn stored_opens_to(rows: Seq<PasswordInfoView>, name: Seq<char>, master: Seq<char>, field: PasswordField, data: Seq<char>) -> bool {
    stored_opens_under(rows, name, derived_key(master, name), field, data)
}

/// Seals `data` under `key` with the given nonce and stores it in
/// `column_name` of the record `password_name`, which is created where it
/// does not exist. Nothing is stored where this fails: with `AesError` where
/// the text is longer than the cipher accepts, else with `StorageError`
/// where a new record is needed and no id is left. A caller that writes
/// several fields of one record derives the record's key once and hands it
/// to each write.
pub fn store_sealed(
    table: &mut PasswordTable,
    password_name: &str,
    key: &[u8; 32],
    column_name: PasswordField,
    data: &str,
    nonce: &[u8; 12],
) -> (r: Result<usize, BackendError>)
    ensures
        well_formed(final(table)@),
        r is Ok <==> encode_utf8(data@).len() <= MAX_PLAINTEXT_LEN && (contains_name(old(table)@, password_name@)
            || next_id(old(table)@) <= i32::MAX),
        r matches Ok(n) ==> n == 1 && final(table)@ == upserted(
            old(table)@,
            password_name@,
            column_name,
            sealed_field(key@, nonce@, data@),
        ),
        r matches Ok(_) ==> sealed_field(key@, nonce@, data@).len() == 2 * (NONCE_LEN + encode_utf8(data@).len() + TAG_LEN),
        r matches Ok(_) ==> stored_opens_under(final(table)@, password_name@, key@, column_name, data@),
        r matches Err(e) ==> final(table)@ == old(table)@ && e == (if encode_utf8(data@).len() > MAX_PLAINTEXT_LEN {
            BackendError::AesError
        } else {
            BackendError::StorageError
        }),
{
    match seal_field(key, nonce, data) {
        Err(e) => {
            proof {
                use_type_invariant(&*table);
            }
            Err(e)
        },
        Ok(stored) => table.upsert_field(password_name, column_name, stored),
    }
}

/// Seals `data` under the key of `password_name` with the given nonce and
/// stores it in `column_name` of that record: `store_sealed` under the key
/// that `master` gives for the record's name.
pub fn insert_sealed(
    table: &mut PasswordTable,
    password_name: &str,
    master: &str,
    column_name: PasswordField,
    data: &str,
    nonce: &[u8; 12],
) -> (r: Result<usize, BackendError>)
    ensures
        well_formed(final(table)@),
        r is Ok <==> encode_utf8(data@).len() <= MAX_PLAINTEXT_LEN && (contains_name(old(table)@, password_name@)
            || next_id(old(table)@) <= i32::MAX),
        r matches Ok(n) ==> n == 1 && final(table)@ == upserted(
            old(table)@,
            password_name@,
            column_name,
            sealed_field(derived_key(master@, password_name@), nonce@, data@),
        ),
        r matches Ok(_) ==> sealed_field(derived_key(master@, password_name@), nonce@, data@).len() == 2 * (NONCE_LEN
            + encode_utf8(data@).len() + TAG_LEN),
        r matches Ok(_) ==> stored_opens_to(final(table)@, password_name@, master@, column_name, data@),
        r matches Err(e) ==> final(table)@ == old(table)@ && e == (if encode_utf8(data@).len() > MAX_PLAINTEXT_LEN {
            BackendError::AesError
        } else {
            BackendError::StorageError
        }),
{
    let key: [u8; 32] = derive_key(master, password_name);
    store_sealed(table, password_name, &key, column_name, data, nonce)
}

/// Encrypts `data` under a fresh random nonce and stores it in `column_name`
/// of the record `password_name`, which is created on its first field. The
/// result is the number of records written, which is 1. Nothing is stored
/// where this fails; it fails on the same inputs and with the same errors as
/// `insert_sealed`.
pub fn insert_data(
    table: &mut PasswordTable,
    password_name: &str,
    master: &str,
    column_name: PasswordField,
    data: &str,
) -> (r: Result<usize, BackendError>)
    ensures
        well_formed(final(table)@),
        r is Ok <==> encode_utf8(data@).len() <= MAX_PLAINTEXT_LEN && (contains_name(old(table)@, password_name@)
            || next_id(old(table)@) <= i32::MAX),
        r matches Ok(n) ==> n == 1 && exists|nonce: Seq<u8>|
            nonce.len() == NONCE_LEN && final(table)@ == upserted(
                old(table)@,
                password_name@,
                column_name,
                #[trigger] sealed_field(derived_key(master@, password_name@), nonce, data@),
            ) && sealed_field(derived_key(master@, password_name@), nonce, data@).len() == 2 * (NONCE_LEN + encode_utf8(
                data@,
            ).len() + TAG_LEN),
        r matches Ok(_) ==> stored_opens_to(final(table)@, password_name@, master@, column_name, data@),
        r matches Err(e) ==> final(table)@ == old(table)@ && e == (if encode_utf8(data@).len() > MAX_PLAINTEXT_LEN {
            BackendError::AesError
        } else {
            BackendError::StorageError
        }),
{
    let nonce: [u8; 12] = fresh_nonce();
    insert_sealed(table, password_name, master, column_name, data, &nonce)
}

/// The verifier that is stored for `secret`: the hexadecimal text of its
/// SHA-256 digest.
pub open spec fn verifier_text(secret: Seq<char>) -> Seq<char> {
    hex_text(sha256(encode_utf8(secret)))
}

/// The verifier that the table holds in `field` of the master record, if
/// there is one.
pub open spec fn stored_verifier(rows: Seq<PasswordInfoView>, field: PasswordField) -> Option<Seq<char>> {
    match lookup(rows, MASTER_KEYWORD@) {
        Some(row) => row.field(field),
        None => None,
    }
}

/// Whether `secret` matches the verifier in `field` of the master record:
/// the digest of the secret and the decoded verifier are the same bytes.
/// Where no verifier is stored nothing matches; a verifier that is not
/// hexadecimal text is an error.
pub open spec fn authenticated(rows: Seq<PasswordInfoView>, secret: Seq<char>, field: PasswordField) -> Result<bool, BackendError> {
    match stored_verifier(rows, field) {
        None => Ok(false),
        Some(stored) => if is_hex_text(stored) {
            Ok(hex_bytes(stored) == sha256(encode_utf8(secret)))
        } else {
            Err(BackendError::DecodeError)
        },
    }
}

/// Whether two byte strings are the same, byte for byte.
pub fn same_bytes(left: &[u8], right: &[u8]) -> (same: bool)
    ensures
        same == (left@ == right@),
{
    if left.len() != right.len() {
        return false;
    }
    let mut i: usize = 0;
    while i < left.len()
        invariant
            i <= left.len(),
            left.len() == right.len(),
            forall|k: int| 0 <= k < i ==> left@[k] == right@[k],
        decreases left.len() - i,
    {
        if left[i] != right[i] {
            return false;
        }
        i += 1;
    }
    assert(left@ =~= right@);
    true
}

/// Checks `master` against the verifier stored in `field` of the master
/// record: `Password` holds the verifier of the master password, `Notes`
/// that of the recovery phrase. The secret is hashed and compared with the
/// decoded verifier; nothing is decrypted.
pub fn authenticate(table: &PasswordTable, master: &str, field: PasswordField) -> (r: Result<bool, BackendError>)
    ensures
        r == authenticated(table@, master@, field),
{
    match get_password(table, MASTER_KEYWORD) {
        None => Ok(false),
        Some(record) => match record.field(field) {
            None => Ok(false),
            Some(stored) => match hex_decode(stored.as_str()) {
                Err(_) => Err(BackendError::DecodeError),
                Ok(expected) => {
                    let digest: [u8; 32] = hash(master.as_bytes());
                    Ok(same_bytes(digest.as_slice(), expected.as_slice()))
                },
            },
        },
    }
}

/// A record that reads in the clear shows, in each field, what that field
/// reads as on its own; and a record with a field that does not read does
/// not read at all.
pub proof fn lemma_decrypted_fields(row: PasswordInfoView, master: Seq<char>, field: PasswordField)
    ensures
        decrypted(row, master) matches Ok(clear) ==> opened_optional(derived_key(master, row.name), row.field(field)) == Ok::<
            Option<Seq<char>>,
            BackendError,
        >(clear.field(field)) && clear.name == row.name && clear.id == row.id,
        opened_optional(derived_key(master, row.name), row.field(field)) is Err ==> decrypted(row, master) is Err,
{
}

/// Reading a sealed field under any key is exactly what the cipher makes of
/// its ciphertext under that key: the encoding adds no way to fail and no
/// way to succeed. So where the cipher rejects under the key of another
/// master password, the read fails with `AesError`, and with nothing else.
pub proof fn lemma_other_master_fails_closed(master: Seq<char>, other: Seq<char>, name: Seq<char>, nonce: Seq<u8>, data: Seq<char>)
    requires
        nonce.len() == NONCE_LEN,
    ensures
        opened_field(derived_key(other, name), sealed_field(derived_key(master, name), nonce, data)) == crate::crypto::opened_bytes(
            derived_key(other, name),
            nonce,
            crate::crypto::aes256_gcm_seal(derived_key(master, name), nonce, encode_utf8(data)),
        ),
        crate::crypto::aes256_gcm_open(
            derived_key(other, name),
            nonce,
            crate::crypto::aes256_gcm_seal(derived_key(master, name), nonce, encode_utf8(data)),
        ) is None ==> opened_field(derived_key(other, name), sealed_field(derived_key(master, name), nonce, data)) == Err::<
            Seq<char>,
            BackendError,
        >(BackendError::AesError),
{
    let sealed = crate::crypto::aes256_gcm_seal(derived_key(master, name), nonce, encode_utf8(data));
    let raw = nonce + sealed;
    crate::encoding::lemma_hex_round_trip(raw);
    assert(raw.subrange(0, NONCE_LEN as int) =~= nonce);
    assert(raw.subrange(NONCE_LEN as int, raw.len() as int) =~= sealed);
}

/// Two writes to one field of one record, then a read: one row carries the
/// name, the field holds what the second write stored, and where that value
/// reads as `data` under `master`, no read of the record shows anything
/// else in the field.
pub proof fn lemma_second_write_is_read(
    rows: Seq<PasswordInfoView>,
    name: Seq<char>,
    master: Seq<char>,
    field: PasswordField,
    first: Seq<char>,
    second: Seq<char>,
    data: Seq<char>,
)
    requires
        well_formed(rows),
    ensures
        crate::table::count_named(upserted(upserted(rows, name, field, first), name, field, second), name) == 1,
        lookup(upserted(upserted(rows, name, field, first), name, field, second), name) matches Some(row) && row.field(field)
            == Some(second),
        !(read_outcome(upserted(upserted(rows, name, field, first), name, field, second), name, master) matches Ok(None)),
        opened_field(derived_key(master, name), second) == Ok::<Seq<char>, BackendError>(data) ==> (read_outcome(
            upserted(upserted(rows, name, field, first), name, field, second),
            name,
            master,
        ) matches Ok(Some(clear)) ==> clear.field(field) == Some(data)),
        opened_field(derived_key(master, name), second) == Ok::<Seq<char>, BackendError>(data) && !contains_name(rows, name)
            ==> read_outcome(upserted(upserted(rows, name, field, first), name, field, second), name, master) == Ok::<
            Option<PasswordInfoView>,
            BackendError,
        >(Some(PasswordInfoView::blank(next_id(rows), name).with_field(field, Some(data)))),
{
    let twice = upserted(upserted(rows, name, field, first), name, field, second);
    crate::table::lemma_upsert_twice(rows, name, field, first, second);
    lemma_upserted(rows, name, field, second);
    let row = lookup(twice, name)->Some_0;
    lemma_decrypted_fields(row, master, field);
}

/// Whether every field that `row` holds was sealed under `master`, and is
/// one that the cipher rejects under the key of `other`.
pub open spec fn sealed_and_rejected(row: PasswordInfoView, master: Seq<char>, other: Seq<char>) -> bool {
    forall|field: PasswordField| (#[trigger] row.field(field)) matches Some(stored) ==> exists|nonce: Seq<u8>, data: Seq<char>|
        nonce.len() == NONCE_LEN && stored == #[trigger] sealed_field(derived_key(master, row.name), nonce, data)
            && crate::crypto::aes256_gcm_open(
            derived_key(other, row.name),
            nonce,
            crate::crypto::aes256_gcm_seal(derived_key(master, row.name), nonce, encode_utf8(data)),
        ) is None
}

/// A record that was sealed under one master password, read under another
/// whose key the cipher tells apart: where the record holds any field, the
/// read fails with `AesError`. It gives no record, no part of one, and no
/// other error. Whether the cipher tells two keys apart is the cipher's to
/// decide, and is asked here only of the fields that the record holds.
pub proof fn lemma_other_master_reads_nothing(rows: Seq<PasswordInfoView>, row: PasswordInfoView, master: Seq<char>, other: Seq<char>)
    ensures
        sealed_and_rejected(row, master, other) && (exists|field: PasswordField| (#[trigger] row.field(field)) is Some)
            ==> decrypted(row, other) == Err::<PasswordInfoView, BackendError>(BackendError::AesError),
        sealed_and_rejected(row, master, other) && (exists|field: PasswordField| (#[trigger] row.field(field)) is Some)
            && lookup(rows, row.name) == Some(row) ==> read_outcome(rows, row.name, other) == Err::<
            Option<PasswordInfoView>,
            BackendError,
        >(BackendError::AesError),
{
    if sealed_and_rejected(row, master, other) && (exists|field: PasswordField| (#[trigger] row.field(field)) is Some) {
        let key = derived_key(other, row.name);
        assert forall|field: PasswordField| (#[trigger] row.field(field)) is Some implies opened_field(key, row.field(field)->Some_0)
            == Err::<Seq<char>, BackendError>(BackendError::AesError) by {
            if row.field(field) is Some {
                let stored = row.field(field)->Some_0;
                let (nonce, data) = choose|nonce: Seq<u8>, data: Seq<char>|
                    nonce.len() == NONCE_LEN && stored == #[trigger] sealed_field(derived_key(master, row.name), nonce, data)
                        && crate::crypto::aes256_gcm_open(
                        derived_key(other, row.name),
                        nonce,
                        crate::crypto::aes256_gcm_seal(derived_key(master, row.name), nonce, encode_utf8(data)),
                    ) is None;
                lemma_other_master_fails_closed(master, other, row.name, nonce, data);
            }
        }
        assert(row.field(PasswordField::Email) == row.email);
        assert(row.field(PasswordField::Username) == row.username);
        assert(row.field(PasswordField::Password) == row.password);
        assert(row.field(PasswordField::Notes) == row.notes);
        let some = choose|field: PasswordField| (#[trigger] row.field(field)) is Some;
        assert(row.field(some) is Some);
    }
}

} // verus!
