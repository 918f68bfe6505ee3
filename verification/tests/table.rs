use passman::error::BackendError;
use passman::password::{PasswordField, PasswordInfo};
use passman::table::{check_password_exists, delete_password, get_password, PasswordTable};

fn text(s: &str) -> Option<String> {
    Some(s.to_string())
}

#[test]
fn new_table_is_empty() {
    let table = PasswordTable::new();
    assert_eq!(table.len(), 0);
    assert!(table.row(0).is_none());
    assert!(get_password(&table, "github").is_none());
    assert!(!check_password_exists(&table, "github"));
}

#[test]
fn insert_row_stores_the_row_as_given() {
    let mut table = PasswordTable::new();
    assert_eq!(
        table.insert_row("github", text("e"), text("u"), text("p"), text("n")),
        Ok(1)
    );
    let row = get_password(&table, "github").unwrap();
    assert_eq!(row.id, 1);
    assert_eq!(row.name, "github");
    assert_eq!(row.email, text("e"));
    assert_eq!(row.username, text("u"));
    assert_eq!(row.password, text("p"));
    assert_eq!(row.notes, text("n"));
}

#[test]
fn insert_row_numbers_rows_from_one() {
    let mut table = PasswordTable::new();
    table.insert_row("a", None, None, None, None).unwrap();
    table.insert_row("b", None, None, None, None).unwrap();
    table.insert_row("c", None, None, None, None).unwrap();
    assert_eq!(get_password(&table, "a").unwrap().id, 1);
    assert_eq!(get_password(&table, "b").unwrap().id, 2);
    assert_eq!(get_password(&table, "c").unwrap().id, 3);
    assert_eq!(table.len(), 3);
    assert_eq!(table.row(1).unwrap().name, "b");
    assert!(table.row(3).is_none());
}

#[test]
fn insert_row_takes_one_more_than_the_largest_id() {
    let mut table = PasswordTable::new();
    table.insert_row("a", None, None, None, None).unwrap();
    table.insert_row("b", None, None, None, None).unwrap();
    table.insert_row("c", None, None, None, None).unwrap();
    assert!(delete_password(&mut table, "b"));
    table.insert_row("d", None, None, None, None).unwrap();
    assert_eq!(get_password(&table, "d").unwrap().id, 4);
    assert!(delete_password(&mut table, "d"));
    table.insert_row("e", None, None, None, None).unwrap();
    assert_eq!(get_password(&table, "e").unwrap().id, 4);
}

#[test]
fn insert_row_refuses_a_name_that_is_taken() {
    let mut table = PasswordTable::new();
    table.insert_row("github", text("e"), None, None, None).unwrap();
    assert_eq!(
        table.insert_row("github", text("other"), None, None, None),
        Err(BackendError::StorageError)
    );
    assert_eq!(table.len(), 1);
    assert_eq!(get_password(&table, "github").unwrap().email, text("e"));
}

#[test]
fn insert_row_refuses_when_no_id_is_left() {
    let mut table = PasswordTable::new();
    let last = PasswordInfo {
        id: i32::MAX,
        name: "last".to_string(),
        email: None,
        username: None,
        notes: None,
        password: None,
    };
    assert_eq!(table.restore_row(last), Ok(1));
    assert_eq!(
        table.insert_row("next", None, None, None, None),
        Err(BackendError::StorageError)
    );
    assert_eq!(
        table.upsert_field("next", PasswordField::Email, "e".to_string()),
        Err(BackendError::StorageError)
    );
    assert_eq!(table.len(), 1);
    // a record that exists is still written to
    assert_eq!(table.upsert_field("last", PasswordField::Email, "e".to_string()), Ok(1));
}

#[test]
fn restore_row_keeps_the_id() {
    let mut table = PasswordTable::new();
    let row = PasswordInfo {
        id: 41,
        name: "github".to_string(),
        email: text("e"),
        username: None,
        notes: None,
        password: None,
    };
    assert_eq!(table.restore_row(row), Ok(1));
    assert_eq!(get_password(&table, "github").unwrap().id, 41);
    table.insert_row("next", None, None, None, None).unwrap();
    assert_eq!(get_password(&table, "next").unwrap().id, 42);
}

#[test]
fn restore_row_refuses_a_name_or_an_id_that_is_taken() {
    let mut table = PasswordTable::new();
    table.insert_row("github", None, None, None, None).unwrap();
    let same_name = PasswordInfo {
        id: 9,
        name: "github".to_string(),
        email: None,
        username: None,
        notes: None,
        password: None,
    };
    assert_eq!(table.restore_row(same_name), Err(BackendError::StorageError));
    let same_id = PasswordInfo {
        id: 1,
        name: "gitlab".to_string(),
        email: None,
        username: None,
        notes: None,
        password: None,
    };
    assert_eq!(table.restore_row(same_id), Err(BackendError::StorageError));
    assert_eq!(table.len(), 1);
}

#[test]
fn upsert_field_creates_the_record_on_its_first_field() {
    let mut table = PasswordTable::new();
    assert_eq!(table.upsert_field("github", PasswordField::Username, "u".to_string()), Ok(1));
    let row = get_password(&table, "github").unwrap();
    assert_eq!(row.id, 1);
    assert_eq!(row.username, text("u"));
    assert_eq!(row.email, None);
    assert_eq!(row.password, None);
    assert_eq!(row.notes, None);
}

#[test]
fn upsert_field_writes_each_field_to_its_own_column() {
    let mut table = PasswordTable::new();
    table.upsert_field("github", PasswordField::Email, "e".to_string()).unwrap();
    table.upsert_field("github", PasswordField::Username, "u".to_string()).unwrap();
    table.upsert_field("github", PasswordField::Notes, "n".to_string()).unwrap();
    table.upsert_field("github", PasswordField::Password, "p".to_string()).unwrap();
    let row = get_password(&table, "github").unwrap();
    assert_eq!(row.email, text("e"));
    assert_eq!(row.username, text("u"));
    assert_eq!(row.notes, text("n"));
    assert_eq!(row.password, text("p"));
    assert_eq!(table.len(), 1);
}

#[test]
fn upsert_field_twice_keeps_one_row_and_the_second_value() {
    let mut table = PasswordTable::new();
    table.insert_row("other", text("x"), None, None, None).unwrap();
    table.upsert_field("github", PasswordField::Email, "v1".to_string()).unwrap();
    table.upsert_field("github", PasswordField::Email, "v2".to_string()).unwrap();
    assert_eq!(table.len(), 2);
    let row = get_password(&table, "github").unwrap();
    assert_eq!(row.email, text("v2"));
    assert_eq!(row.id, 2);
    assert_eq!(get_password(&table, "other").unwrap().email, text("x"));
}

#[test]
fn update_field_changes_a_record_and_creates_none() {
    let mut table = PasswordTable::new();
    assert_eq!(table.update_field("github", PasswordField::Email, "e".to_string()), 0);
    assert_eq!(table.len(), 0);
    table.insert_row("github", None, text("u"), None, None).unwrap();
    assert_eq!(table.update_field("github", PasswordField::Email, "e".to_string()), 1);
    let row = get_password(&table, "github").unwrap();
    assert_eq!(row.email, text("e"));
    assert_eq!(row.username, text("u"));
}

#[test]
fn names_are_compared_exactly() {
    let mut table = PasswordTable::new();
    table.insert_row("GitHub", None, None, None, None).unwrap();
    assert!(!check_password_exists(&table, "github"));
    assert!(!check_password_exists(&table, "GitHub "));
    assert!(check_password_exists(&table, "GitHub"));
    assert_eq!(table.insert_row("github", None, None, None, None), Ok(1));
}

#[test]
fn delete_password_removes_the_row_and_no_other() {
    let mut table = PasswordTable::new();
    table.insert_row("a", text("1"), None, None, None).unwrap();
    table.insert_row("b", text("2"), None, None, None).unwrap();
    table.insert_row("c", text("3"), None, None, None).unwrap();
    assert!(delete_password(&mut table, "b"));
    assert_eq!(table.len(), 2);
    assert!(!check_password_exists(&table, "b"));
    assert_eq!(get_password(&table, "a").unwrap().email, text("1"));
    assert_eq!(get_password(&table, "c").unwrap().email, text("3"));
    assert_eq!(table.row(1).unwrap().name, "c");
}

#[test]
fn delete_password_on_absence_changes_nothing() {
    let mut table = PasswordTable::new();
    assert!(!delete_password(&mut table, "github"));
    assert_eq!(table.len(), 0);
    table.insert_row("a", text("1"), None, None, None).unwrap();
    assert!(!delete_password(&mut table, "github"));
    assert_eq!(table.len(), 1);
    let row = table.row(0).unwrap();
    assert_eq!(row.id, 1);
    assert_eq!(row.name, "a");
    assert_eq!(row.email, text("1"));
    // deleting twice: the second finds nothing
    assert!(delete_password(&mut table, "a"));
    assert!(!delete_password(&mut table, "a"));
    assert_eq!(table.len(), 0);
}

#[test]
fn column_names_are_plain_lower_case_words() {
    for field in [
        PasswordField::Email,
        PasswordField::Username,
        PasswordField::Password,
        PasswordField::Notes,
    ] {
        let column = field.to_string();
        assert!(!column.is_empty());
        assert!(column.chars().all(|c| c.is_ascii_lowercase()));
    }
}

#[test]
fn field_names_are_the_columns() {
    assert_eq!(PasswordField::Email.to_string(), "email");
    assert_eq!(PasswordField::Username.to_string(), "username");
    assert_eq!(PasswordField::Password.to_string(), "secret");
    assert_eq!(PasswordField::Notes.to_string(), "notes");
}

#[test]
fn duplicate_copies_every_field() {
    let row = PasswordInfo {
        id: 5,
        name: "github".to_string(),
        email: text("e"),
        username: None,
        notes: text("n"),
        password: text("p"),
    };
    let copy = row.duplicate();
    assert_eq!(copy.id, 5);
    assert_eq!(copy.name, "github");
    assert_eq!(copy.email, text("e"));
    assert_eq!(copy.username, None);
    assert_eq!(copy.notes, text("n"));
    assert_eq!(copy.password, text("p"));
    assert_eq!(row.field(PasswordField::Notes), &text("n"));
    assert_eq!(row.field(PasswordField::Username), &None);
}
