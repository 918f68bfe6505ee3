//! A record of the vault and the names of its fields.

use vstd::prelude::*;

verus! {

/// One record: a unique name and up to four fields. In the table the fields
/// are sealed; what a read hands out holds them in the clear.
#[derive(Debug)]
pub struct PasswordInfo {
    /// The row's id, assigned by the table.
    pub id: i32,
    /// The record's name, unique in the table.
    pub name: String,
    /// Optional email field.
    pub email: Option<String>,
    /// Optional username field.
    pub username: Option<String>,
    /// Optional notes field.
    pub notes: Option<String>,
    /// Optional password field.
    pub password: Option<String>,
}

/// A record as a mathematical value.
pub struct PasswordInfoView {
    pub id: int,
    pub name: Seq<char>,
    pub email: Option<Seq<char>>,
    pub username: Option<Seq<char>>,
    pub notes: Option<Seq<char>>,
    pub password: Option<Seq<char>>,
}

/// The four fields that a record can hold.
#[derive(Debug, Clone, Copy, PartialEq, Eq, Structural)]
pub enum PasswordField {
    Email,
    Username,
    Notes,
    Password,
}

/// The text of an optional field.
pub open spec fn text_of(field: Option<String>) -> Option<Seq<char>> {
    match field {
        Some(text) => Some(text@),
        None => None,
    }
}

impl View for PasswordInfo {
    type V = PasswordInfoView;

    open spec fn view(&self) -> PasswordInfoView {
        PasswordInfoView {
            id: self.id as int,
            name: self.name@,
            email: text_of(self.email),
            username: text_of(self.username),
            notes: text_of(self.notes),
            password: text_of(self.password),
        }
    }
}

impl PasswordInfoView {
    /// A record of this name and id with no field set.
    pub open spec fn blank(id: int, name: Seq<char>) -> PasswordInfoView {
        PasswordInfoView { id, name, email: None, username: None, notes: None, password: None }
    }

    /// What the record holds in `field`.
    pub open spec fn field(self, field: PasswordField) -> Option<Seq<char>> {
        match field {
            PasswordField::Email => self.email,
            PasswordField::Username => self.username,
            PasswordField::Notes => self.notes,
            PasswordField::Password => self.password,
        }
    }

    /// The record with `field` replaced by `value` and nothing else changed.
    pub open spec fn with_field(self, field: PasswordField, value: Option<Seq<char>>) -> PasswordInfoView {
        match field {
            PasswordField::Email => PasswordInfoView { email: value, ..self },
            PasswordField::Username => PasswordInfoView { username: value, ..self },
            PasswordField::Notes => PasswordInfoView { notes: value, ..self },
            PasswordField::Password => PasswordInfoView { password: value, ..self },
        }
    }
}

impl PasswordField {
    /// The column that holds this field.
    pub open spec fn column(self) -> Seq<char> {
        match self {
            PasswordField::Email => "email"@,
            PasswordField::Username => "username"@,
            PasswordField::Password => "secret"@,
            PasswordField::Notes => "notes"@,
        }
    }

    /// The column's name as text. A column is only ever named through this
    /// closed list, never by a caller's string.
    pub fn to_string(&self) -> (name: String)
        ensures
            name@ == self.column(),
    {
        match self {
            PasswordField::Email => "email".to_owned(),
            PasswordField::Username => "username".to_owned(),
            PasswordField::Password => "secret".to_owned(),
            PasswordField::Notes => "notes".to_owned(),
        }
    }
}

/// No two fields share a column.
pub proof fn lemma_columns_differ(a: PasswordField, b: PasswordField)
    requires
        a != b,
    ensures
        a.column() != b.column(),
{
    reveal_strlit("email");
    reveal_strlit("username");
    reveal_strlit("secret");
    reveal_strlit("notes");
    assert("email"@.len() == 5 && "username"@.len() == 8 && "secret"@.len() == 6 && "notes"@.len() == 5);
    assert("email"@[0] == 'e' && "notes"@[0] == 'n');
}

/// A column's name is one lower-case letter or more, and nothing else: it
/// can stand in a statement as it is.
pub proof fn lemma_column_is_lower_case(field: PasswordField)
    ensures
        field.column().len() > 0,
        forall|i: int| 0 <= i < field.column().len() ==> 'a' <= #[trigger] field.column()[i] <= 'z',
{
    reveal_strlit("email");
    reveal_strlit("username");
    reveal_strlit("secret");
    reveal_strlit("notes");
}

/// A copy of an optional text.
pub fn copy_text(field: &Option<String>) -> (copy: Option<String>)
    ensures
        text_of(copy) == text_of(*field),
{
    match field {
        Some(text) => Some(text.clone()),
        None => None,
    }
}

impl PasswordInfo {
    /// What the record holds in `field`.
    pub fn field(&self, field: PasswordField) -> (value: &Option<String>)
        ensures
            text_of(*value) == self@.field(field),
    {
        match field {
            PasswordField::Email => &self.email,
            PasswordField::Username => &self.username,
            PasswordField::Notes => &self.notes,
            PasswordField::Password => &self.password,
        }
    }

    /// A copy of the record, field for field.
    pub fn duplicate(&self) -> (copy: PasswordInfo)
        ensures
            copy@ == self@,
    {
        PasswordInfo {
            id: self.id,
            name: self.name.clone(),
            email: copy_text(&self.email),
            username: copy_text(&self.username),
            notes: copy_text(&self.notes),
            password: copy_text(&self.password),
        }
    }
}

} // verus!
