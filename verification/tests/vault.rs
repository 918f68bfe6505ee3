use aes_gcm::aead::{Aead, KeyInit};
use aes_gcm::{Aes256Gcm, Key, Nonce};
use passman::crypto::{derive_key, hash};
use passman::error::BackendError;
use passman::password::{PasswordField, PasswordInfo};
use passman::table::{get_password, PasswordTable};
use passman::vault::{
    authenticate, decrypt_password, insert_data, insert_sealed, read_password, same_bytes, store_sealed,
    MASTER_KEYWORD,
};

fn sealed_bytes(master: &str, name: &str, nonce: &[u8; 12], bytes: &[u8]) -> String {
    let derived = derive_key(master, name);
    let cipher = Aes256Gcm::new(Key::<Aes256Gcm>::from_slice(&derived));
    let mut raw = nonce.to_vec();
    raw.extend(cipher.encrypt(Nonce::from_slice(nonce), bytes).unwrap());
    hex::encode(raw)
}

#[test]
fn github_record_round_trip() {
    let mut table = PasswordTable::new();
    assert_eq!(
        insert_data(&mut table, "github", "hunter2", PasswordField::Email, "a@b.com"),
        Ok(1)
    );

    let stored = get_password(&table, "github").unwrap().email.unwrap();
    assert_eq!(stored.len(), 24 + 2 * (7 + 16));
    let raw = hex::decode(&stored).unwrap();
    let derived = derive_key("hunter2", "github");
    let cipher = Aes256Gcm::new(Key::<Aes256Gcm>::from_slice(&derived));
    assert_eq!(
        cipher.decrypt(Nonce::from_slice(&raw[..12]), &raw[12..]).unwrap(),
        b"a@b.com"
    );

    let clear = read_password(&table, "github", "hunter2").unwrap().unwrap();
    assert_eq!(clear.email, Some("a@b.com".to_string()));
    assert_eq!(clear.name, "github");
    assert_eq!(clear.id, 1);
    assert_eq!(clear.username, None);
    assert_eq!(clear.password, None);
    assert_eq!(clear.notes, None);

    assert_eq!(
        read_password(&table, "github", "wrongpass").err(),
        Some(BackendError::AesError)
    );
}

#[test]
fn read_password_of_an_absent_name_is_none() {
    let mut table = PasswordTable::new();
    assert!(read_password(&table, "github", "hunter2").unwrap().is_none());
    insert_data(&mut table, "github", "hunter2", PasswordField::Email, "a@b.com").unwrap();
    assert!(read_password(&table, "gitlab", "hunter2").unwrap().is_none());
}

#[test]
fn insert_sealed_stores_the_field_under_the_given_nonce() {
    let mut table = PasswordTable::new();
    let nonce = [9u8; 12];
    assert_eq!(
        insert_sealed(&mut table, "github", "hunter2", PasswordField::Notes, "n", &nonce),
        Ok(1)
    );
    let stored = get_password(&table, "github").unwrap().notes.unwrap();
    assert_eq!(stored, sealed_bytes("hunter2", "github", &nonce, b"n"));
}

#[test]
fn insert_data_takes_a_fresh_nonce_for_every_write() {
    let mut table = PasswordTable::new();
    insert_data(&mut table, "github", "hunter2", PasswordField::Email, "a@b.com").unwrap();
    let first = get_password(&table, "github").unwrap().email.unwrap();
    insert_data(&mut table, "github", "hunter2", PasswordField::Email, "a@b.com").unwrap();
    let second = get_password(&table, "github").unwrap().email.unwrap();
    assert_ne!(first[..24], second[..24]);
    assert_ne!(first, second);
}

#[test]
fn second_write_to_a_field_is_the_one_that_is_read() {
    let mut table = PasswordTable::new();
    insert_data(&mut table, "github", "hunter2", PasswordField::Password, "v1").unwrap();
    insert_data(&mut table, "github", "hunter2", PasswordField::Password, "v2").unwrap();
    assert_eq!(table.len(), 1);
    let clear = read_password(&table, "github", "hunter2").unwrap().unwrap();
    assert_eq!(clear.password, Some("v2".to_string()));
    assert_eq!(clear.id, 1);
}

#[test]
fn writes_to_other_fields_and_records_do_not_disturb_a_field() {
    let mut table = PasswordTable::new();
    insert_data(&mut table, "github", "hunter2", PasswordField::Email, "a@b.com").unwrap();
    insert_data(&mut table, "gitlab", "hunter2", PasswordField::Email, "c@d.com").unwrap();
    insert_data(&mut table, "github", "hunter2", PasswordField::Username, "octocat").unwrap();
    insert_data(&mut table, "github", "hunter2", PasswordField::Notes, "two\nlines").unwrap();
    insert_data(&mut table, "github", "hunter2", PasswordField::Password, "").unwrap();
    let clear = read_password(&table, "github", "hunter2").unwrap().unwrap();
    assert_eq!(clear.email, Some("a@b.com".to_string()));
    assert_eq!(clear.username, Some("octocat".to_string()));
    assert_eq!(clear.notes, Some("two\nlines".to_string()));
    assert_eq!(clear.password, Some(String::new()));
    let other = read_password(&table, "gitlab", "hunter2").unwrap().unwrap();
    assert_eq!(other.email, Some("c@d.com".to_string()));
    assert_eq!(other.id, 2);
}

#[test]
fn one_bad_field_fails_the_whole_read() {
    let mut table = PasswordTable::new();
    insert_data(&mut table, "github", "hunter2", PasswordField::Email, "a@b.com").unwrap();
    insert_data(&mut table, "github", "other", PasswordField::Notes, "n").unwrap();
    assert_eq!(
        read_password(&table, "github", "hunter2").err(),
        Some(BackendError::AesError)
    );
    assert_eq!(
        read_password(&table, "github", "other").err(),
        Some(BackendError::AesError)
    );
}

#[test]
fn the_first_bad_field_decides_the_error() {
    let mut table = PasswordTable::new();
    // email reads, username is no hex, password is sealed for another master
    table
        .insert_row(
            "github",
            Some(sealed_bytes("hunter2", "github", &[1u8; 12], b"a@b.com")),
            Some("nothex".to_string()),
            Some(sealed_bytes("other", "github", &[2u8; 12], b"p")),
            None,
        )
        .unwrap();
    assert_eq!(
        read_password(&table, "github", "hunter2").err(),
        Some(BackendError::DecodeError)
    );
    // password comes before notes
    table
        .insert_row(
            "gitlab",
            None,
            None,
            Some(sealed_bytes("hunter2", "gitlab", &[3u8; 12], &[0xff])),
            Some("abc".to_string()),
        )
        .unwrap();
    assert_eq!(
        read_password(&table, "gitlab", "hunter2").err(),
        Some(BackendError::ToStringError)
    );
}

#[test]
fn a_field_that_is_too_short_for_a_nonce_is_a_decode_error() {
    let mut table = PasswordTable::new();
    table
        .insert_row("github", Some("0011".to_string()), None, None, None)
        .unwrap();
    assert_eq!(
        read_password(&table, "github", "hunter2").err(),
        Some(BackendError::DecodeError)
    );
}

#[test]
fn a_renamed_record_no_longer_reads() {
    let mut table = PasswordTable::new();
    insert_data(&mut table, "github", "hunter2", PasswordField::Email, "a@b.com").unwrap();
    let mut row = get_password(&table, "github").unwrap();
    row.name = "gitlab".to_string();
    row.id = 2;
    table.restore_row(row).unwrap();
    assert_eq!(
        read_password(&table, "gitlab", "hunter2").err(),
        Some(BackendError::AesError)
    );
    assert!(read_password(&table, "github", "hunter2").is_ok());
}

#[test]
fn decrypt_password_keeps_id_and_name() {
    let sealed = PasswordInfo {
        id: 17,
        name: "github".to_string(),
        email: None,
        username: Some(sealed_bytes("hunter2", "github", &[4u8; 12], "octocat".as_bytes())),
        notes: None,
        password: None,
    };
    let clear = decrypt_password(sealed, "hunter2").unwrap();
    assert_eq!(clear.id, 17);
    assert_eq!(clear.name, "github");
    assert_eq!(clear.username, Some("octocat".to_string()));
    assert_eq!(clear.email, None);
}

#[test]
fn decrypt_password_of_a_record_without_fields_needs_no_key_to_fit() {
    let sealed = PasswordInfo {
        id: 1,
        name: "empty".to_string(),
        email: None,
        username: None,
        notes: None,
        password: None,
    };
    let clear = decrypt_password(sealed, "anything").unwrap();
    assert_eq!(clear.name, "empty");
    assert_eq!(clear.password, None);
}

#[test]
fn master_with_a_trailing_nul_reads_what_the_master_sealed() {
    // Both derive one key (HMAC pads its key with zero bytes), so the
    // cipher accepts: the wrong-master guarantee stops at equal keys.
    let mut table = PasswordTable::new();
    insert_data(&mut table, "github", "hunter2", PasswordField::Email, "a@b.com").unwrap();
    let clear = read_password(&table, "github", "hunter2\0").unwrap().unwrap();
    assert_eq!(clear.email, Some("a@b.com".to_string()));
}

#[test]
fn same_bytes_compares_byte_for_byte() {
    assert!(same_bytes(&[], &[]));
    assert!(same_bytes(&[1, 2, 3], &[1, 2, 3]));
    assert!(!same_bytes(&[1, 2, 3], &[1, 2, 4]));
    assert!(!same_bytes(&[1, 2, 3], &[1, 2]));
    assert!(!same_bytes(&[], &[0]));
}

#[test]
fn authenticate_compares_the_digest_with_the_stored_verifier() {
    let mut table = PasswordTable::new();
    table
        .insert_row(
            MASTER_KEYWORD,
            None,
            None,
            Some(hex::encode(hash(b"alpha"))),
            Some(hex::encode(hash(b"phrase"))),
        )
        .unwrap();
    assert_eq!(authenticate(&table, "alpha", PasswordField::Password), Ok(true));
    assert_eq!(authenticate(&table, "Alpha", PasswordField::Password), Ok(false));
    assert_eq!(authenticate(&table, "phrase", PasswordField::Password), Ok(false));
    assert_eq!(authenticate(&table, "phrase", PasswordField::Notes), Ok(true));
    assert_eq!(authenticate(&table, "alpha", PasswordField::Notes), Ok(false));
    // no verifier in these columns
    assert_eq!(authenticate(&table, "alpha", PasswordField::Email), Ok(false));
}

#[test]
fn authenticate_reads_a_verifier_in_upper_case() {
    let mut table = PasswordTable::new();
    table
        .insert_row(MASTER_KEYWORD, None, None, Some(hex::encode_upper(hash(b"alpha"))), None)
        .unwrap();
    assert_eq!(authenticate(&table, "alpha", PasswordField::Password), Ok(true));
}

#[test]
fn authenticate_without_a_master_record_matches_nothing() {
    let table = PasswordTable::new();
    assert_eq!(authenticate(&table, "alpha", PasswordField::Password), Ok(false));
    assert_eq!(authenticate(&table, "", PasswordField::Notes), Ok(false));
}

#[test]
fn authenticate_on_a_verifier_that_is_no_hex_is_a_decode_error() {
    let mut table = PasswordTable::new();
    table
        .insert_row(MASTER_KEYWORD, None, None, Some("not hex".to_string()), None)
        .unwrap();
    assert_eq!(
        authenticate(&table, "alpha", PasswordField::Password),
        Err(BackendError::DecodeError)
    );
}

#[test]
fn authenticate_on_a_verifier_of_another_length_is_false() {
    let mut table = PasswordTable::new();
    let digest = hex::encode(hash(b"alpha"));
    table
        .insert_row(MASTER_KEYWORD, None, None, Some(digest[..62].to_string()), None)
        .unwrap();
    assert_eq!(authenticate(&table, "alpha", PasswordField::Password), Ok(false));
}

#[test]
fn the_master_keyword_is_the_reserved_name() {
    assert_eq!(MASTER_KEYWORD, ".master");
}

#[test]
fn store_sealed_writes_under_the_key_it_is_given() {
    let mut table = PasswordTable::new();
    let key = derive_key("hunter2", "github");
    let nonce = [5u8; 12];
    assert_eq!(
        store_sealed(&mut table, "github", &key, PasswordField::Username, "octocat", &nonce),
        Ok(1)
    );
    assert_eq!(
        get_password(&table, "github").unwrap().username.unwrap(),
        sealed_bytes("hunter2", "github", &nonce, b"octocat")
    );
    assert_eq!(
        read_password(&table, "github", "hunter2").unwrap().unwrap().username,
        Some("octocat".to_string())
    );
    // a key that is not the record's own seals what no master reads
    let stray = derive_key("hunter2", "gitlab");
    store_sealed(&mut table, "github", &stray, PasswordField::Notes, "n", &nonce).unwrap();
    assert_eq!(
        read_password(&table, "github", "hunter2").err(),
        Some(BackendError::AesError)
    );
}

#[test]
fn a_field_with_a_nonce_and_nothing_else_fails_the_read() {
    let sealed = PasswordInfo {
        id: 1,
        name: "n".to_string(),
        email: None,
        username: None,
        notes: None,
        password: Some("000000000000000000000000".to_string()),
    };
    assert_eq!(decrypt_password(sealed, "m").err(), Some(BackendError::AesError));
}

#[test]
fn a_stored_field_has_two_characters_for_each_byte() {
    let mut table = PasswordTable::new();
    for (name, data) in [("a", ""), ("b", "x"), ("c", "a@b.com"), ("d", "päss")] {
        insert_data(&mut table, name, "hunter2", PasswordField::Notes, data).unwrap();
        let stored = get_password(&table, name).unwrap().notes.unwrap();
        assert_eq!(stored.len(), 2 * (12 + data.len() + 16));
    }
}
