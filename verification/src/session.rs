//! What a session decides: setting up and checking the master password, and
//! what to write, show or delete once the answers are in. Asking the
//! questions is left to the front end.

use crate::crypto::{
    derive_key, derived_key, fresh_nonce, hash, sealed_field, sha256, text_result_is, MAX_PLAINTEXT_LEN, NONCE_LEN,
    TAG_LEN,
};
use crate::encoding::{hex_encode, lemma_hex_round_trip};
use crate::error::BackendError;
use crate::generate::{generate_password, length_asked, parse_length, password_text};
use crate::password::{PasswordField, PasswordInfo, PasswordInfoView};
use crate::table::{
    check_password_exists, contains_name, count_named, delete_password, lemma_inserted, lemma_next_id_is_free,
    lemma_position_is, lemma_updated, lookup, next_id, removed, updated, upserted, well_formed, PasswordTable,
};
use crate::vault::{
    authenticate, authenticated, insert_data, read_outcome, read_password, store_sealed, stored_opens_to,
    verifier_text, MASTER_KEYWORD,
};
use vstd::prelude::*;
use vstd::utf8::*;

verus! {

/// What a session can be asked to do.
#[derive(Default, Clone, Copy, Debug, PartialEq, Eq, Structural)]
pub enum Operation {
    Insert,
    Read,
    Delete,
    #[default]
    Exit,
}

/// Where the password of a new record comes from.
#[derive(Default, Clone, Copy, Debug, PartialEq, Eq, Structural)]
pub enum PasswordGeneration {
    Automatic,
    Manual,
    #[default]
    NoPassword,
}

/// What can be chosen before a session begins.
#[derive(Default, Clone, Copy, Debug, PartialEq, Eq, Structural)]
pub enum LoginOperations {
    Login,
    Reset,
    #[default]
    Exit,
}

/// Where a login stands.
#[derive(Clone, Copy, Debug, PartialEq, Eq, Structural)]
pub enum LoginState {
    /// The master password matched: the session begins, with the password
    /// that was entered as the master for every key.
    LoggedIn,
    /// The recovery phrase matched: a new master password may be set.
    AwaitingNewMaster,
    /// The secret did not match: the session is over.
    Rejected,
    /// The verifier of the master password was replaced: the session is over.
    MasterUpdated,
    /// Leaving was chosen.
    Exited,
}

/// The line that shows one field under its label.
pub open spec fn field_line(label: Seq<char>, value: Option<Seq<char>>) -> Seq<char> {
    match value {
        Some(text) => label + ": "@ + text,
        None => "No data found for "@ + label,
    }
}

/// The four lines that show a record: email, username, password, notes.
pub open spec fn info_text(info: PasswordInfoView) -> Seq<char> {
    field_line("email"@, info.email) + "\n"@ + field_line("username"@, info.username) + "\n"@ + field_line(
        "password"@,
        info.password,
    ) + "\n"@ + field_line("notes"@, info.notes)
}

/// Appends the line of one field to `text`.
fn push_field_line(text: &mut String, label: &str, value: &Option<String>)
    ensures
        final(text)@ == old(text)@ + field_line(label@, crate::password::text_of(*value)),
{
    match value {
        Some(data) => {
            text.append(label);
            text.append(": ");
            text.append(data.as_str());
            assert(text@ =~= old(text)@ + (label@ + ": "@ + data@));
        },
        None => {
            text.append("No data found for ");
            text.append(label);
            assert(text@ =~= old(text)@ + ("No data found for "@ + label@));
        },
    }
}

/// The text that shows a record: one line per field, in the order email,
/// username, password, notes. A field that is not set is named as missing.
pub fn print_password_info(password_info: PasswordInfo) -> (text: String)
    ensures
        text@ == info_text(password_info@),
{
    let mut text: String = String::new();
    push_field_line(&mut text, "email", &password_info.email);
    text.append("\n");
    push_field_line(&mut text, "username", &password_info.username);
    text.append("\n");
    push_field_line(&mut text, "password", &password_info.password);
    text.append("\n");
    push_field_line(&mut text, "notes", &password_info.notes);
    assert(text@ =~= info_text(password_info@));
    text
}

/// Whether two texts are the same.
pub fn same_text(left: &str, right: &str) -> (same: bool)
    ensures
        same == (left@ == right@),
{
    let left_owned: String = left.to_owned();
    let right_owned: String = right.to_owned();
    left_owned == right_owned
}

/// A new password counts once it was entered twice and both entries are the
/// same, character for character. The entries are compared as they are,
/// before anything is hashed.
pub fn confirmed_password(new_password: &str, confirm: &str) -> (password: Option<String>)
    ensures
        password is Some <==> new_password@ == confirm@,
        password matches Some(text) ==> text@ == confirm@,
{
    if same_text(new_password, confirm) {
        Some(confirm.to_owned())
    } else {
        None
    }
}

/// The stored verifier of `secret`: 64 hexadecimal digits.
pub fn make_verifier(secret: &str) -> (text: String)
    ensures
        text@ == verifier_text(secret@),
        text@.len() == 64,
{
    let digest: [u8; 32] = hash(secret.as_bytes());
    hex_encode(digest.as_slice())
}

/// Sets up the master record from a new master password, entered twice,
/// and a recovery phrase. Where the two entries differ nothing is written
/// and the result is `Ok(false)`. Where they agree, the verifiers of the
/// password and of the phrase are stored under the reserved name; the table
/// refuses, with `StorageError`, where a master record is already there or
/// no id is left. Once `Ok(true)` is returned the password and the phrase
/// each match their verifier, and one row carries the reserved name. No
/// other record is touched.
pub fn insert_master(table: &mut PasswordTable, new_master: &str, confirm: &str, recovery_note: &str) -> (r: Result<bool, BackendError>)
    ensures
        well_formed(final(table)@),
        new_master@ != confirm@ ==> r == Ok::<bool, BackendError>(false) && final(table)@ == old(table)@,
        new_master@ == confirm@ ==> (r is Ok <==> !contains_name(old(table)@, MASTER_KEYWORD@) && next_id(old(table)@)
            <= i32::MAX),
        new_master@ == confirm@ ==> (r matches Ok(registered) ==> registered && final(table)@ == old(table)@.push(
            PasswordInfoView {
                id: next_id(old(table)@),
                name: MASTER_KEYWORD@,
                email: None,
                username: None,
                notes: Some(verifier_text(recovery_note@)),
                password: Some(verifier_text(new_master@)),
            },
        )),
        r matches Ok(true) ==> authenticated(final(table)@, new_master@, PasswordField::Password) == Ok::<bool, BackendError>(true)
            && authenticated(final(table)@, recovery_note@, PasswordField::Notes) == Ok::<bool, BackendError>(true),
        r matches Ok(true) ==> count_named(final(table)@, MASTER_KEYWORD@) == 1,
        r matches Ok(true) ==> verifier_text(new_master@).len() == 64 && verifier_text(recovery_note@).len() == 64,
        forall|name: Seq<char>| name != MASTER_KEYWORD@ ==> lookup(final(table)@, name) == lookup(old(table)@, name),
        r matches Err(e) ==> e == BackendError::StorageError && final(table)@ == old(table)@,
{
    proof {
        use_type_invariant(&*table);
    }
    match confirmed_password(new_master, confirm) {
        None => Ok(false),
        Some(master) => {
            let master_verifier: String = make_verifier(master.as_str());
            let note_verifier: String = make_verifier(recovery_note);
            match table.insert_row(MASTER_KEYWORD, None, None, Some(master_verifier), Some(note_verifier)) {
                Err(e) => Err(e),
                Ok(_) => {
                    proof {
                        let at = old(table)@.len() as int;
                        lemma_next_id_is_free(old(table)@);
                        lemma_inserted(old(table)@, table@[at]);
                        lemma_position_is(table@, MASTER_KEYWORD@, at);
                        lemma_hex_round_trip(sha256(encode_utf8(new_master@)));
                        lemma_hex_round_trip(sha256(encode_utf8(recovery_note@)));
                    }
                    Ok(true)
                },
            }
        },
    }
}

/// Where a login stands after `operation` was chosen and `secret` entered.
pub open spec fn login_outcome(rows: Seq<PasswordInfoView>, operation: LoginOperations, secret: Seq<char>) -> Result<LoginState, BackendError> {
    match operation {
        LoginOperations::Login => match authenticated(rows, secret, PasswordField::Password) {
            Ok(matched) => Ok(if matched { LoginState::LoggedIn } else { LoginState::Rejected }),
            Err(e) => Err(e),
        },
        LoginOperations::Reset => match authenticated(rows, secret, PasswordField::Notes) {
            Ok(matched) => Ok(if matched { LoginState::AwaitingNewMaster } else { LoginState::Rejected }),
            Err(e) => Err(e),
        },
        LoginOperations::Exit => Ok(LoginState::Exited),
    }
}

/// Decides a login. For `Login`, `secret` is the master password: where it
/// matches its verifier the session begins, else it is over. For `Reset`,
/// `secret` is the recovery phrase: where it matches, a new master password
/// may be set with `reset_master`, else the session is over. For `Exit` the
/// secret is not looked at. A secret that does not match is never tried
/// again here, and nothing is written.
pub fn login(table: &PasswordTable, operation: LoginOperations, secret: &str) -> (r: Result<LoginState, BackendError>)
    ensures
        r == login_outcome(table@, operation, secret@),
{
    match operation {
        LoginOperations::Login => match authenticate(table, secret, PasswordField::Password) {
            Ok(matched) => Ok(if matched { LoginState::LoggedIn } else { LoginState::Rejected }),
            Err(e) => Err(e),
        },
        LoginOperations::Reset => match authenticate(table, secret, PasswordField::Notes) {
            Ok(matched) => Ok(if matched { LoginState::AwaitingNewMaster } else { LoginState::Rejected }),
            Err(e) => Err(e),
        },
        LoginOperations::Exit => Ok(LoginState::Exited),
    }
}

/// Replaces the verifier of the master password, once the recovery phrase
/// has matched. In any other state nothing is written and the state is
/// handed back. Where the two entries of the new password differ nothing is
/// written either, and the state stays `AwaitingNewMaster`. Otherwise the
/// verifier of the new password takes the place of the old one. No other
/// record is touched: what was sealed under the old master password stays
/// sealed under it.
pub fn reset_master(table: &mut PasswordTable, state: LoginState, new_master: &str, confirm: &str) -> (next: LoginState)
    ensures
        well_formed(final(table)@),
        state != LoginState::AwaitingNewMaster ==> next == state && final(table)@ == old(table)@,
        state == LoginState::AwaitingNewMaster && new_master@ != confirm@ ==> next == LoginState::AwaitingNewMaster
            && final(table)@ == old(table)@,
        state == LoginState::AwaitingNewMaster && new_master@ == confirm@ ==> next == LoginState::MasterUpdated
            && final(table)@ == updated(old(table)@, MASTER_KEYWORD@, PasswordField::Password, verifier_text(new_master@)),
        state == LoginState::AwaitingNewMaster && new_master@ == confirm@ && contains_name(old(table)@, MASTER_KEYWORD@) ==> authenticated(
            final(table)@,
            new_master@,
            PasswordField::Password,
        ) == Ok::<bool, BackendError>(true),
        forall|name: Seq<char>| name != MASTER_KEYWORD@ ==> lookup(final(table)@, name) == lookup(old(table)@, name),
{
    proof {
        use_type_invariant(&*table);
    }
    match state {
        LoginState::AwaitingNewMaster => match confirmed_password(new_master, confirm) {
            None => LoginState::AwaitingNewMaster,
            Some(master) => {
                let master_verifier: String = make_verifier(master.as_str());
                let _ = table.update_field(MASTER_KEYWORD, PasswordField::Password, master_verifier);
                proof {
                    lemma_updated(old(table)@, MASTER_KEYWORD@, PasswordField::Password, verifier_text(new_master@));
                    lemma_hex_round_trip(sha256(encode_utf8(new_master@)));
                }
                LoginState::MasterUpdated
            },
        },
        _ => state,
    }
}

/// Whether the table `after` is `before` with `data` sealed into `field` of
/// the record `name` under `master`, with some nonce. The stored text has
/// two characters for each byte of nonce, ciphertext and tag.
pub open spec fn field_sealed(
    before: Seq<PasswordInfoView>,
    after: Seq<PasswordInfoView>,
    name: Seq<char>,
    master: Seq<char>,
    field: PasswordField,
    data: Seq<char>,
) -> bool {
    exists|nonce: Seq<u8>|
        nonce.len() == NONCE_LEN && after == upserted(
            before,
            name,
            field,
            #[trigger] sealed_field(derived_key(master, name), nonce, data),
        ) && sealed_field(derived_key(master, name), nonce, data).len() == 2 * (NONCE_LEN + encode_utf8(data).len() + TAG_LEN)
}

/// Whether the table `after` is what entering `data` for `field` makes of
/// `before`: a field left empty is not written.
pub open spec fn field_entered(
    before: Seq<PasswordInfoView>,
    after: Seq<PasswordInfoView>,
    name: Seq<char>,
    master: Seq<char>,
    field: PasswordField,
    data: Seq<char>,
) -> bool {
    if data.len() == 0 {
        after == before
    } else {
        field_sealed(before, after, name, master, field, data)
    }
}

/// Stores what was entered for the field `param` of the record `name`. An
/// empty entry leaves the field as it is; anything else is sealed and
/// written. The result is the number of fields written.
pub fn prompt_field(table: &mut PasswordTable, master: &str, name: &str, param: PasswordField, data: &str) -> (r: Result<usize, BackendError>)
    ensures
        well_formed(final(table)@),
        r is Ok <==> data@.len() == 0 || (encode_utf8(data@).len() <= MAX_PLAINTEXT_LEN && (contains_name(old(table)@, name@)
            || next_id(old(table)@) <= i32::MAX)),
        r matches Ok(n) ==> n == (if data@.len() == 0 { 0usize } else { 1usize }) && field_entered(
            old(table)@,
            final(table)@,
            name@,
            master@,
            param,
            data@,
        ),
        r matches Ok(_) ==> data@.len() > 0 ==> stored_opens_to(final(table)@, name@, master@, param, data@),
        r matches Err(e) ==> final(table)@ == old(table)@ && e == (if encode_utf8(data@).len() > MAX_PLAINTEXT_LEN {
            BackendError::AesError
        } else {
            BackendError::StorageError
        }),
{
    if data.is_empty() {
        proof {
            use_type_invariant(&*table);
        }
        Ok(0)
    } else {
        insert_data(table, name, master, param, data)
    }
}

/// Whether writing to the record `name` may go on: the name is unused, or
/// overwriting was agreed to. Nothing is decrypted for this.
pub fn check_password_availability(table: &PasswordTable, name: &str, overwrite: bool) -> (go_on: bool)
    ensures
        go_on == (!contains_name(table@, name@) || overwrite),
{
    !check_password_exists(table, name) || overwrite
}

/// What is shown for a read of `name`: the record's four lines, or the
/// sentence that says that there is no such record.
pub open spec fn read_text(rows: Seq<PasswordInfoView>, name: Seq<char>, master: Seq<char>) -> Result<Seq<char>, BackendError> {
    match read_outcome(rows, name, master) {
        Ok(Some(clear)) => Ok(info_text(clear)),
        Ok(None) => Ok("No password was found with that name."@),
        Err(e) => Err(e),
    }
}

/// Reads the record `name` under `master` and gives the text to show.
pub fn read(table: &PasswordTable, master: &str, name: &str) -> (r: Result<String, BackendError>)
    ensures
        text_result_is(r, read_text(table@, name@, master@)),
{
    match read_password(table, name, master) {
        Err(e) => Err(e),
        Ok(None) => Ok("No password was found with that name.".to_owned()),
        Ok(Some(clear)) => Ok(print_password_info(clear)),
    }
}

/// How a request to delete a record ended.
#[derive(Clone, Copy, Debug, PartialEq, Eq, Structural)]
pub enum Deletion {
    /// No record has the name: nothing was asked and nothing changed.
    NotFound,
    /// The record exists and deleting it was not agreed to.
    Cancelled,
    /// The record is gone, for good.
    Deleted,
}

/// Deletes the record `name`, once that was agreed to. A name that is on no
/// record is reported as such, whatever was agreed to, and the table is left
/// as it was.
pub fn delete(table: &mut PasswordTable, name: &str, confirm: bool) -> (outcome: Deletion)
    ensures
        well_formed(final(table)@),
        outcome == (if !contains_name(old(table)@, name@) {
            Deletion::NotFound
        } else if confirm {
            Deletion::Deleted
        } else {
            Deletion::Cancelled
        }),
        outcome == Deletion::Deleted ==> final(table)@ == removed(old(table)@, name@) && !contains_name(final(table)@, name@),
        outcome != Deletion::Deleted ==> final(table)@ == old(table)@,
{
    proof {
        use_type_invariant(&*table);
    }
    if !check_password_exists(table, name) {
        Deletion::NotFound
    } else if !confirm {
        Deletion::Cancelled
    } else {
        let _ = delete_password(table, name);
        Deletion::Deleted
    }
}

/// Generates a password of the length that was typed. A text that asks for
/// no length gives no password.
pub fn prompt_automatic(length: &str) -> (password: Option<String>)
    ensures
        password is Some <==> length_asked(length@) is Some,
        password matches Some(text) ==> length_asked(length@) == Some(text@.len() as int) && exists|bytes: Seq<u8>|
            bytes.len() == text@.len() && text@ == #[trigger] password_text(bytes),
        password matches Some(text) ==> encode_utf8(text@).len() == text@.len(),
{
    match parse_length(length) {
        None => None,
        Some(count) => Some(generate_password(count)),
    }
}

/// Stores the password of the record `name` as `password_type` says.
/// `Automatic`: `first` is the length that was typed, and a password of that
/// length is generated and stored; a text that asks for no length stores
/// nothing. `Manual`: `first` and `second` are the two entries of the
/// password, which is stored where they are the same, and not where they
/// differ. `NoPassword`: nothing is stored. The result is the number of
/// fields written. An error of the write is handed on, never dropped.
pub fn prompt_password(
    table: &mut PasswordTable,
    name: &str,
    master: &str,
    password_type: PasswordGeneration,
    first: &str,
    second: &str,
) -> (r: Result<usize, BackendError>)
    ensures
        well_formed(final(table)@),
        r is Ok <==> match password_type {
            PasswordGeneration::NoPassword => true,
            PasswordGeneration::Manual => first@ != second@ || (encode_utf8(second@).len() <= MAX_PLAINTEXT_LEN && (contains_name(
                old(table)@,
                name@,
            ) || next_id(old(table)@) <= i32::MAX)),
            PasswordGeneration::Automatic => length_asked(first@) is None || contains_name(old(table)@, name@) || next_id(
                old(table)@,
            ) <= i32::MAX,
        },
        r matches Ok(n) ==> n <= 1,
        r matches Ok(n) ==> (n == 1 <==> match password_type {
            PasswordGeneration::Automatic => length_asked(first@) is Some,
            PasswordGeneration::Manual => first@ == second@,
            PasswordGeneration::NoPassword => false,
        }),
        r matches Ok(n) ==> n == 0 ==> final(table)@ == old(table)@,
        r matches Ok(n) ==> n == 1 ==> match password_type {
            PasswordGeneration::Manual => field_sealed(old(table)@, final(table)@, name@, master@, PasswordField::Password, second@)
                && stored_opens_to(final(table)@, name@, master@, PasswordField::Password, second@),
            _ => exists|bytes: Seq<u8>|
                length_asked(first@) == Some(bytes.len() as int) && field_sealed(
                    old(table)@,
                    final(table)@,
                    name@,
                    master@,
                    PasswordField::Password,
                    #[trigger] password_text(bytes),
                ) && stored_opens_to(final(table)@, name@, master@, PasswordField::Password, password_text(bytes)),
        },
        r matches Err(e) ==> final(table)@ == old(table)@ && e == (if password_type == PasswordGeneration::Manual && encode_utf8(
            second@,
        ).len() > MAX_PLAINTEXT_LEN {
            BackendError::AesError
        } else {
            BackendError::StorageError
        }),
{
    proof {
        use_type_invariant(&*table);
    }
    let password: Option<String> = match password_type {
        PasswordGeneration::Automatic => prompt_automatic(first),
        PasswordGeneration::Manual => confirmed_password(first, second),
        PasswordGeneration::NoPassword => None,
    };
    match password {
        None => Ok(0),
        Some(text) => insert_data(table, name, master, PasswordField::Password, text.as_str()),
    }
}

/// What an entry gives for `field`, if anything: a password as it is, any
/// other field unless it was left empty.
pub open spec fn given(entry: PasswordInfoView, field: PasswordField) -> Option<Seq<char>> {
    match entry.field(field) {
        Some(text) => if field != PasswordField::Password && text.len() == 0 {
            None
        } else {
            Some(text)
        },
        None => None,
    }
}

/// Whether `after` is `before` with what the entry gives for `field`
/// sealed into the record, or `before` itself where it gives nothing.
pub open spec fn step_entered(
    before: Seq<PasswordInfoView>,
    after: Seq<PasswordInfoView>,
    master: Seq<char>,
    entry: PasswordInfoView,
    field: PasswordField,
) -> bool {
    match given(entry, field) {
        Some(text) => field_sealed(before, after, entry.name, master, field, text),
        None => after == before,
    }
}

/// The number of fields that an entry gives.
pub open spec fn fields_given(entry: PasswordInfoView) -> int {
    (if given(entry, PasswordField::Email) is Some { 1int } else { 0int }) + (if given(entry, PasswordField::Username) is Some {
        1int
    } else {
        0int
    }) + (if given(entry, PasswordField::Notes) is Some { 1int } else { 0int }) + (if given(entry, PasswordField::Password) is Some {
        1int
    } else {
        0int
    })
}

/// Whether every text that the entry gives is one that the cipher accepts.
pub open spec fn entry_fits(entry: PasswordInfoView) -> bool {
    forall|field: PasswordField| (#[trigger] given(entry, field)) matches Some(text) ==> encode_utf8(text).len() <= MAX_PLAINTEXT_LEN
}

/// Whether `after` is `before` with all that the entry gives sealed into
/// its record, field by field, in the order email, username, notes,
/// password.
pub open spec fn record_entered(before: Seq<PasswordInfoView>, after: Seq<PasswordInfoView>, master: Seq<char>, entry: PasswordInfoView) -> bool {
    exists|a: Seq<PasswordInfoView>, b: Seq<PasswordInfoView>, c: Seq<PasswordInfoView>|
        #![trigger step_entered(before, a, master, entry, PasswordField::Email), step_entered(b, c, master, entry, PasswordField::Notes)]
        step_entered(before, a, master, entry, PasswordField::Email) && step_entered(a, b, master, entry, PasswordField::Username)
            && step_entered(b, c, master, entry, PasswordField::Notes) && step_entered(c, after, master, entry, PasswordField::Password)
}

/// Whether the entry gives for `field` a text that is longer than the
/// cipher accepts.
pub open spec fn too_long(entry: PasswordInfoView, field: PasswordField) -> bool {
    given(entry, field) matches Some(text) && encode_utf8(text).len() > MAX_PLAINTEXT_LEN
}

/// Whether the write of `field` is refused when its turn comes, in a table
/// that was `before` when the entry's first field had its turn: the entry
/// gives the field, and its text is too long, or the record is not there
/// and no id is left for it.
pub open spec fn refused(before: Seq<PasswordInfoView>, entry: PasswordInfoView, field: PasswordField) -> bool {
    given(entry, field) is Some && (too_long(entry, field) || (!contains_name(before, entry.name) && next_id(before) > i32::MAX))
}

/// The first field, in the order email, username, notes, password, whose
/// write is refused; `None` where every write goes through.
pub open spec fn first_refused(before: Seq<PasswordInfoView>, entry: PasswordInfoView) -> Option<PasswordField> {
    if refused(before, entry, PasswordField::Email) {
        Some(PasswordField::Email)
    } else if refused(before, entry, PasswordField::Username) {
        Some(PasswordField::Username)
    } else if refused(before, entry, PasswordField::Notes) {
        Some(PasswordField::Notes)
    } else if refused(before, entry, PasswordField::Password) {
        Some(PasswordField::Password)
    } else {
        None
    }
}

/// Whether `after` is `before` with what the entry gives for the fields that
/// come before `stop` sealed into its record, and nothing for `stop` or for
/// any field after it.
pub open spec fn entered_before(
    before: Seq<PasswordInfoView>,
    after: Seq<PasswordInfoView>,
    master: Seq<char>,
    entry: PasswordInfoView,
    stop: PasswordField,
) -> bool {
    match stop {
        PasswordField::Email => after == before,
        PasswordField::Username => step_entered(before, after, master, entry, PasswordField::Email),
        PasswordField::Notes => exists|a: Seq<PasswordInfoView>| #[trigger]
            step_entered(before, a, master, entry, PasswordField::Email) && step_entered(a, after, master, entry, PasswordField::Username),
        PasswordField::Password => exists|a: Seq<PasswordInfoView>, b: Seq<PasswordInfoView>|
            #![trigger step_entered(before, a, master, entry, PasswordField::Email), step_entered(b, after, master, entry, PasswordField::Notes)]
            step_entered(before, a, master, entry, PasswordField::Email) && step_entered(a, b, master, entry, PasswordField::Username)
                && step_entered(b, after, master, entry, PasswordField::Notes),
    }
}

/// Seals what the entry gives for `field`, if anything, into its record,
/// under the record's key.
fn enter_step(
    table: &mut PasswordTable,
    key: &[u8; 32],
    master: Ghost<Seq<char>>,
    entry: &PasswordInfo,
    field: PasswordField,
) -> (r: Result<usize, BackendError>)
    requires
        key@ == derived_key(master@, entry@.name),
    ensures
        well_formed(old(table)@),
        well_formed(final(table)@),
        r is Ok <==> (given(entry@, field) matches Some(text) ==> encode_utf8(text).len() <= MAX_PLAINTEXT_LEN && (contains_name(
            old(table)@,
            entry@.name,
        ) || next_id(old(table)@) <= i32::MAX)),
        r matches Ok(n) ==> n == (if given(entry@, field) is Some { 1usize } else { 0usize }) && step_entered(
            old(table)@,
            final(table)@,
            master@,
            entry@,
            field,
        ),
        r matches Ok(_) ==> (given(entry@, field) matches Some(text) ==> stored_opens_to(final(table)@, entry@.name, master@, field, text)),
        r matches Err(e) ==> final(table)@ == old(table)@ && e == (if too_long(entry@, field) {
            BackendError::AesError
        } else {
            BackendError::StorageError
        }),
{
    proof {
        use_type_invariant(&*table);
    }
    match entry.field(field) {
        None => Ok(0),
        Some(text) => {
            let skipped: bool = match field {
                PasswordField::Password => false,
                _ => text.as_str().is_empty(),
            };
            if skipped {
                Ok(0)
            } else {
                let nonce: [u8; 12] = fresh_nonce();
                store_sealed(table, entry.name.as_str(), key, field, text.as_str(), &nonce)
            }
        },
    }
}

/// Adds a record, or writes to one that exists: every field that the entry
/// gives is sealed under `master` and stored, in the order email, username,
/// notes, password. A field that the entry leaves out or leaves empty is
/// not touched. Where the record exists and overwriting was not agreed to,
/// nothing is written and the result is `Ok(0)`. The result is the number
/// of fields written. The entry's id is not looked at: ids are the table's
/// to give. The record's key is derived once and serves every field.
///
/// The fields are written one by one, each for good. Where one fails, those
/// before it stay written and those after it are not tried; the error is
/// `AesError` where the text of that field is too long, and `StorageError`
/// where the record would be new and no id is left for it.
pub fn insert(table: &mut PasswordTable, master: &str, entry: &PasswordInfo, overwrite: bool) -> (r: Result<usize, BackendError>)
    ensures
        well_formed(final(table)@),
        contains_name(old(table)@, entry@.name) && !overwrite ==> r == Ok::<usize, BackendError>(0) && final(table)@ == old(table)@,
        !contains_name(old(table)@, entry@.name) || overwrite ==> (r is Ok <==> entry_fits(entry@) && (fields_given(entry@) == 0
            || contains_name(old(table)@, entry@.name) || next_id(old(table)@) <= i32::MAX)),
        !contains_name(old(table)@, entry@.name) || overwrite ==> (r matches Ok(n) ==> n == fields_given(entry@) && record_entered(
            old(table)@,
            final(table)@,
            master@,
            entry@,
        )),
        !contains_name(old(table)@, entry@.name) || overwrite ==> (r matches Ok(_) ==> forall|field: PasswordField|
            (#[trigger] given(entry@, field)) matches Some(text) ==> stored_opens_to(final(table)@, entry@.name, master@, field, text)),
        !contains_name(old(table)@, entry@.name) || overwrite ==> (r is Ok <==> first_refused(old(table)@, entry@) is None),
        r matches Err(e) ==> first_refused(old(table)@, entry@) matches Some(stop) && e == (if too_long(entry@, stop) {
            BackendError::AesError
        } else {
            BackendError::StorageError
        }) && entered_before(old(table)@, final(table)@, master@, entry@, stop),
{
    if !check_password_availability(table, entry.name.as_str(), overwrite) {
        proof {
            use_type_invariant(&*table);
        }
        return Ok(0);
    }
    let key: [u8; 32] = derive_key(master, entry.name.as_str());
    let first: usize = match enter_step(table, &key, Ghost(master@), entry, PasswordField::Email) {
        Ok(n) => n,
        Err(e) => {
            return Err(e);
        },
    };
    let second: usize = match enter_step(table, &key, Ghost(master@), entry, PasswordField::Username) {
        Ok(n) => n,
        Err(e) => {
            return Err(e);
        },
    };
    let third: usize = match enter_step(table, &key, Ghost(master@), entry, PasswordField::Notes) {
        Ok(n) => n,
        Err(e) => {
            return Err(e);
        },
    };
    let fourth: usize = match enter_step(table, &key, Ghost(master@), entry, PasswordField::Password) {
        Ok(n) => n,
        Err(e) => {
            return Err(e);
        },
    };
    Ok(first + second + third + fourth)
}

} // verus!
