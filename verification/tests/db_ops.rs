use aes_gcm::{
    aead::{generic_array::GenericArray, Aead, OsRng},
    AeadCore, Aes256Gcm, Key, KeyInit,
};
use passman::crypto::derive_key;
use passman::password::PasswordField;
use passman::table::PasswordTable;

#[test]
fn test_data() {
    let mut table = PasswordTable::new();

    // a plain row, stored as it is given, counts as one row written
    let insert_result = table
        .insert_row(
            "test_name",
            Some("cool_user@usermail.com".to_string()),
            Some("cool_user1".to_string()),
            Some("12345".to_string()),
            None,
        )
        .unwrap();
    assert_eq!(insert_result, 1);
}

#[test]
fn read_password() {
    let mut table = PasswordTable::new();

    let master = "mymasterpassword";
    let name = "test_name";
    let password = "coolpassword";
    let derived = derive_key(master, name);
    let key = Key::<Aes256Gcm>::from_slice(&derived);
    let cipher = Aes256Gcm::new(key);

    let nonce: GenericArray<u8, typenum::U12> = Aes256Gcm::generate_nonce(OsRng);
    let mut n = nonce.to_vec();

    let mut encrypted = cipher.encrypt(&nonce, password.as_bytes()).unwrap();
    n.append(&mut encrypted);

    let ciphertext = hex::encode(n);

    let insert = table.insert_row(name, None, None, Some(ciphertext), None).unwrap();
    assert_eq!(insert, 1);

    let res = passman::vault::read_password(&table, name, master).unwrap();

    assert_eq!(
        res.expect("no password found")
            .password
            .expect("no password field"),
        password
    );
}

#[test]
fn insert_data() {
    let mut table = PasswordTable::new();

    let master = "mymasterpassword";
    let name = "test_name";
    let password = "coolpassword";

    passman::vault::insert_data(&mut table, name, master, PasswordField::Password, password).unwrap();

    let r = passman::vault::read_password(&table, name, master)
        .unwrap()
        .unwrap();
    assert_eq!(r.password.unwrap(), password);
}
