//! The table of records: one row per name, each row with an id of its own.

use crate::error::BackendError;
use crate::password::{text_of, PasswordField, PasswordInfo, PasswordInfoView};
use vstd::prelude::*;

verus! {

/// No two rows share a name.
pub open spec fn names_unique(rows: Seq<PasswordInfoView>) -> bool {
    forall|i: int, j: int| 0 <= i < j < rows.len() ==> (#[trigger] rows[i]).name != (#[trigger] rows[j]).name
}

/// No two rows share an id.
pub open spec fn ids_unique(rows: Seq<PasswordInfoView>) -> bool {
    forall|i: int, j: int| 0 <= i < j < rows.len() ==> (#[trigger] rows[i]).id != (#[trigger] rows[j]).id
}

/// What every table holds: names and ids are keys.
pub open spec fn well_formed(rows: Seq<PasswordInfoView>) -> bool {
    names_unique(rows) && ids_unique(rows)
}

/// Whether a row named `name` exists.
pub open spec fn contains_name(rows: Seq<PasswordInfoView>, name: Seq<char>) -> bool {
    exists|i: int| 0 <= i < rows.len() && (#[trigger] rows[i]).name == name
}

/// Whether a row with this id exists.
pub open spec fn contains_id(rows: Seq<PasswordInfoView>, id: int) -> bool {
    exists|i: int| 0 <= i < rows.len() && (#[trigger] rows[i]).id == id
}

/// The place of the row named `name`, where there is one.
pub open spec fn position(rows: Seq<PasswordInfoView>, name: Seq<char>) -> int {
    choose|i: int| 0 <= i < rows.len() && (#[trigger] rows[i]).name == name
}

/// The row named `name`, if there is one.
pub open spec fn lookup(rows: Seq<PasswordInfoView>, name: Seq<char>) -> Option<PasswordInfoView> {
    if contains_name(rows, name) {
        Some(rows[position(rows, name)])
    } else {
        None
    }
}

/// The largest id in use, and 0 for a table whose ids are all below 1.
pub open spec fn largest_id(rows: Seq<PasswordInfoView>) -> int
    decreases rows.len(),
{
    if rows.len() == 0 {
        0
    } else if rows.last().id > largest_id(rows.drop_last()) {
        rows.last().id
    } else {
        largest_id(rows.drop_last())
    }
}

/// The id that the next new row gets: one more than the largest in use.
pub open spec fn next_id(rows: Seq<PasswordInfoView>) -> int {
    largest_id(rows) + 1
}

/// The table after `row` was added at its end.
pub open spec fn inserted(rows: Seq<PasswordInfoView>, row: PasswordInfoView) -> Seq<PasswordInfoView> {
    rows.push(row)
}

/// The table after `field` of the record `name` was set to `value`, where
/// the record exists; the table itself where it does not.
pub open spec fn updated(rows: Seq<PasswordInfoView>, name: Seq<char>, field: PasswordField, value: Seq<char>) -> Seq<PasswordInfoView> {
    if contains_name(rows, name) {
        let at = position(rows, name);
        rows.update(at, rows[at].with_field(field, Some(value)))
    } else {
        rows
    }
}

/// The table after `field` of the record `name` was set to `value`: the row
/// is changed in place where it exists, and created with the next id, and
/// with no other field, where it does not.
pub open spec fn upserted(rows: Seq<PasswordInfoView>, name: Seq<char>, field: PasswordField, value: Seq<char>) -> Seq<PasswordInfoView> {
    if contains_name(rows, name) {
        updated(rows, name, field, value)
    } else {
        rows.push(PasswordInfoView::blank(next_id(rows), name).with_field(field, Some(value)))
    }
}

/// The table without the row named `name`; the table itself where there is
/// no such row.
pub open spec fn removed(rows: Seq<PasswordInfoView>, name: Seq<char>) -> Seq<PasswordInfoView> {
    if contains_name(rows, name) {
        rows.remove(position(rows, name))
    } else {
        rows
    }
}

/// How many rows are named `name`.
pub open spec fn count_named(rows: Seq<PasswordInfoView>, name: Seq<char>) -> nat
    decreases rows.len(),
{
    if rows.len() == 0 {
        0
    } else {
        count_named(rows.drop_last(), name) + if rows.last().name == name { 1nat } else { 0nat }
    }
}

/// No id in the table is above `largest_id`.
pub proof fn lemma_largest_id_bounds(rows: Seq<PasswordInfoView>, i: int)
    requires
        0 <= i < rows.len(),
    ensures
        rows[i].id <= largest_id(rows),
        0 <= largest_id(rows),
    decreases rows.len(),
{
    if i < rows.len() - 1 {
        lemma_largest_id_bounds(rows.drop_last(), i);
    } else if rows.len() > 1 {
        lemma_largest_id_bounds(rows.drop_last(), 0);
    }
}

/// In a table with unique names, the row at `i` is the one that `position`
/// finds for its name.
pub proof fn lemma_position_is(rows: Seq<PasswordInfoView>, name: Seq<char>, i: int)
    requires
        names_unique(rows),
        0 <= i < rows.len(),
        rows[i].name == name,
    ensures
        contains_name(rows, name),
        position(rows, name) == i,
        lookup(rows, name) == Some(rows[i]),
{
    let at = position(rows, name);
    if at < i {
        assert(rows[at].name != rows[i].name);
    } else if i < at {
        assert(rows[i].name != rows[at].name);
    }
}

/// The table of records. Its rows are reached only through the functions
/// below, which keep names and ids unique.
pub struct PasswordTable {
    rows: Vec<PasswordInfo>,
}

impl View for PasswordTable {
    type V = Seq<PasswordInfoView>;

    closed spec fn view(&self) -> Seq<PasswordInfoView> {
        self.rows@.map_values(|row: PasswordInfo| row@)
    }
}

impl PasswordTable {
    /// What holds of every table at all times: names and ids are keys.
    #[verifier::type_invariant]
    pub(crate) open spec fn keys_hold(self) -> bool {
        well_formed(self@)
    }

    /// An empty table.
    pub fn new() -> (table: PasswordTable)
        ensures
            table@ == Seq::<PasswordInfoView>::empty(),
            well_formed(table@),
    {
        let table = PasswordTable { rows: Vec::new() };
        assert(table@ =~= Seq::<PasswordInfoView>::empty());
        table
    }

    /// The number of rows.
    pub fn len(&self) -> (n: usize)
        ensures
            n == self@.len(),
    {
        self.rows.len()
    }

    /// A copy of the row at `index`, in the order in which the rows were
    /// added; `None` past the end.
    pub fn row(&self, index: usize) -> (row: Option<PasswordInfo>)
        ensures
            row is Some <==> index < self@.len(),
            row matches Some(found) ==> found@ == self@[index as int],
    {
        if index < self.rows.len() {
            Some(self.rows[index].duplicate())
        } else {
            None
        }
    }

    /// The place of the row named `name`.
    fn find(&self, name: &str) -> (at: Option<usize>)
        ensures
            well_formed(self@),
            at is Some <==> contains_name(self@, name@),
            at matches Some(i) ==> i < self@.len() && position(self@, name@) == i && self@[i as int].name == name@,
    {
        proof {
            use_type_invariant(self);
        }
        let wanted: String = name.to_owned();
        let mut i: usize = 0;
        while i < self.rows.len()
            invariant
                i <= self.rows.len(),
                wanted@ == name@,
                well_formed(self@),
                forall|k: int| 0 <= k < i ==> (#[trigger] self@[k]).name != name@,
            decreases self.rows.len() - i,
        {
            if self.rows[i].name == wanted {
                proof {
                    lemma_position_is(self@, name@, i as int);
                }
                return Some(i);
            }
            i += 1;
        }
        None
    }

    /// Whether a row has this id.
    fn has_id(&self, id: i32) -> (found: bool)
        ensures
            found == contains_id(self@, id as int),
    {
        let mut i: usize = 0;
        while i < self.rows.len()
            invariant
                i <= self.rows.len(),
                forall|k: int| 0 <= k < i ==> (#[trigger] self@[k]).id != id,
            decreases self.rows.len() - i,
        {
            if self.rows[i].id == id {
                assert(self@[i as int].id == id);
                return true;
            }
            i += 1;
        }
        false
    }

    /// The id for the next new row, unless it is past the largest that a row
    /// can hold.
    fn fresh_id(&self) -> (id: Option<i32>)
        ensures
            id is Some <==> next_id(self@) <= i32::MAX,
            id matches Some(n) ==> n == next_id(self@),
    {
        let mut largest: i32 = 0;
        let mut i: usize = 0;
        while i < self.rows.len()
            invariant
                i <= self.rows.len(),
                largest == largest_id(self@.subrange(0, i as int)),
            decreases self.rows.len() - i,
        {
            assert(self@.subrange(0, i + 1).drop_last() =~= self@.subrange(0, i as int));
            if self.rows[i].id > largest {
                largest = self.rows[i].id;
            }
            i += 1;
        }
        assert(self@.subrange(0, i as int) =~= self@);
        if largest == i32::MAX {
            None
        } else {
            Some(largest + 1)
        }
    }

    /// Takes the rows out and leaves the table empty. Rows change outside
    /// the table and are put back whole, so that the table is well formed
    /// whenever it can be seen.
    fn take_rows(&mut self) -> (rows: Vec<PasswordInfo>)
        ensures
            rows@.map_values(|row: PasswordInfo| row@) == old(self)@,
            well_formed(old(self)@),
            final(self)@ == Seq::<PasswordInfoView>::empty(),
    {
        proof {
            use_type_invariant(&*self);
        }
        let mut rows: Vec<PasswordInfo> = Vec::new();
        core::mem::swap(&mut self.rows, &mut rows);
        assert(self@ =~= Seq::<PasswordInfoView>::empty());
        rows
    }

    /// Makes `rows` the rows of the table.
    fn put_rows(&mut self, rows: Vec<PasswordInfo>)
        requires
            well_formed(rows@.map_values(|row: PasswordInfo| row@)),
        ensures
            final(self)@ == rows@.map_values(|row: PasswordInfo| row@),
    {
        self.rows = rows;
    }

    /// Adds `row` at the end.
    fn push_row(&mut self, row: PasswordInfo)
        requires
            !contains_name(old(self)@, row@.name),
            !contains_id(old(self)@, row@.id),
        ensures
            final(self)@ == inserted(old(self)@, row@),
            well_formed(final(self)@),
    {
        let ghost before = self@;
        let mut rows: Vec<PasswordInfo> = self.take_rows();
        rows.push(row);
        let ghost after = rows@.map_values(|row: PasswordInfo| row@);
        assert(after =~= before.push(row@));
        assert(well_formed(after)) by {
            assert forall|i: int, j: int| 0 <= i < j < after.len() implies (#[trigger] after[i]).name != (#[trigger] after[j]).name
                && after[i].id != after[j].id by {
                if j == before.len() {
                    assert(before[i].name != row@.name);
                    assert(before[i].id != row@.id);
                }
            }
        }
        self.put_rows(rows);
    }

    /// Adds a row under the next id. The table refuses it, with
    /// `StorageError`, where the name is taken or no id is left.
    pub fn insert_row(
        &mut self,
        name: &str,
        email: Option<String>,
        username: Option<String>,
        password: Option<String>,
        notes: Option<String>,
    ) -> (r: Result<usize, BackendError>)
        ensures
            r is Ok <==> !contains_name(old(self)@, name@) && next_id(old(self)@) <= i32::MAX,
            r matches Ok(n) ==> n == 1 && final(self)@ == inserted(
                old(self)@,
                PasswordInfoView {
                    id: next_id(old(self)@),
                    name: name@,
                    email: text_of(email),
                    username: text_of(username),
                    notes: text_of(notes),
                    password: text_of(password),
                },
            ),
            r matches Err(e) ==> e == BackendError::StorageError && final(self)@ == old(self)@,
            well_formed(final(self)@),
    {
        if self.find(name).is_some() {
            return Err(BackendError::StorageError);
        }
        match self.fresh_id() {
            None => Err(BackendError::StorageError),
            Some(id) => {
                proof {
                    assert forall|i: int| 0 <= i < self@.len() implies (#[trigger] self@[i]).id != id by {
                        lemma_largest_id_bounds(self@, i);
                    }
                }
                self.push_row(PasswordInfo { id, name: name.to_owned(), email, username, notes, password });
                Ok(1)
            },
        }
    }

    /// Puts back a row that was taken out of a table, under the id it had.
    /// The table refuses it, with `StorageError`, where its name or its id
    /// is taken.
    pub fn restore_row(&mut self, row: PasswordInfo) -> (r: Result<usize, BackendError>)
        ensures
            r is Ok <==> !contains_name(old(self)@, row@.name) && !contains_id(old(self)@, row@.id),
            r matches Ok(n) ==> n == 1 && final(self)@ == inserted(old(self)@, row@),
            r matches Err(e) ==> e == BackendError::StorageError && final(self)@ == old(self)@,
            well_formed(final(self)@),
    {
        if self.find(row.name.as_str()).is_some() || self.has_id(row.id) {
            return Err(BackendError::StorageError);
        }
        self.push_row(row);
        Ok(1)
    }
}

impl PasswordTable {
    /// Sets `field` of the row at `at` to `value`.
    fn set_at(&mut self, at: usize, field: PasswordField, value: String)
        requires
            at < old(self)@.len(),
        ensures
            final(self)@ == old(self)@.update(at as int, old(self)@[at as int].with_field(field, Some(value@))),
            well_formed(final(self)@),
    {
        let ghost before = self@;
        let mut rows: Vec<PasswordInfo> = self.take_rows();
        match field {
            PasswordField::Email => {
                rows[at].email = Some(value);
            },
            PasswordField::Username => {
                rows[at].username = Some(value);
            },
            PasswordField::Notes => {
                rows[at].notes = Some(value);
            },
            PasswordField::Password => {
                rows[at].password = Some(value);
            },
        }
        let ghost after = rows@.map_values(|row: PasswordInfo| row@);
        assert(after =~= before.update(at as int, before[at as int].with_field(field, Some(value@))));
        assert(well_formed(after)) by {
            assert forall|i: int, j: int| 0 <= i < j < after.len() implies (#[trigger] after[i]).name != (#[trigger] after[j]).name
                && after[i].id != after[j].id by {
                assert(before[i].name != before[j].name);
                assert(before[i].id != before[j].id);
            }
        }
        self.put_rows(rows);
    }

    /// Sets `field` of the record `name` to `value` where the record exists,
    /// and changes nothing where it does not. Returns the number of rows
    /// changed.
    pub fn update_field(&mut self, name: &str, field: PasswordField, value: String) -> (n: usize)
        ensures
            final(self)@ == updated(old(self)@, name@, field, value@),
            n == if contains_name(old(self)@, name@) { 1usize } else { 0usize },
            well_formed(final(self)@),
    {
        match self.find(name) {
            Some(at) => {
                self.set_at(at, field, value);
                1
            },
            None => 0,
        }
    }

    /// Sets `field` of the record `name` to `value`, and creates the record
    /// under the next id where it does not exist. An existing record is
    /// never refused; a new one is, with `StorageError`, where no id is left.
    pub fn upsert_field(&mut self, name: &str, field: PasswordField, value: String) -> (r: Result<usize, BackendError>)
        ensures
            r is Ok <==> contains_name(old(self)@, name@) || next_id(old(self)@) <= i32::MAX,
            r matches Ok(n) ==> n == 1 && final(self)@ == upserted(old(self)@, name@, field, value@),
            r matches Ok(_) ==> lookup(final(self)@, name@) matches Some(row) && row.field(field) == Some(value@),
            r matches Err(e) ==> e == BackendError::StorageError && final(self)@ == old(self)@,
            well_formed(old(self)@),
            well_formed(final(self)@),
    {
        proof {
            use_type_invariant(&*self);
            lemma_upserted(self@, name@, field, value@);
        }
        match self.find(name) {
            Some(at) => {
                self.set_at(at, field, value);
                Ok(1)
            },
            None => match field {
                PasswordField::Email => self.insert_row(name, Some(value), None, None, None),
                PasswordField::Username => self.insert_row(name, None, Some(value), None, None),
                PasswordField::Password => self.insert_row(name, None, None, Some(value), None),
                PasswordField::Notes => self.insert_row(name, None, None, None, Some(value)),
            },
        }
    }
}

/// Reads the record named `search_term` as it is stored, its fields still
/// sealed. `None` where no record has that name.
pub fn get_password(table: &PasswordTable, search_term: &str) -> (found: Option<PasswordInfo>)
    ensures
        well_formed(table@),
        found is Some <==> contains_name(table@, search_term@),
        found matches Some(row) ==> lookup(table@, search_term@) == Some(row@),
{
    match table.find(search_term) {
        Some(at) => Some(table.rows[at].duplicate()),
        None => None,
    }
}

/// Whether a record named `name` exists. Nothing is decrypted.
pub fn check_password_exists(table: &PasswordTable, name: &str) -> (exists: bool)
    ensures
        exists == contains_name(table@, name@),
{
    table.find(name).is_some()
}

/// Removes the record named `name` and says whether there was one. Where
/// there was none, the table is left as it was.
pub fn delete_password(table: &mut PasswordTable, name: &str) -> (deleted: bool)
    ensures
        deleted == contains_name(old(table)@, name@),
        final(table)@ == removed(old(table)@, name@),
        !deleted ==> final(table)@ == old(table)@,
        !contains_name(final(table)@, name@),
        well_formed(final(table)@),
{
    match table.find(name) {
        None => false,
        Some(at) => {
            let ghost before = table@;
            let mut rows: Vec<PasswordInfo> = table.take_rows();
            let _ = rows.remove(at);
            let ghost after = rows@.map_values(|row: PasswordInfo| row@);
            assert(after =~= before.remove(at as int));
            proof {
                lemma_removed_is_well_formed(before, name@);
            }
            table.put_rows(rows);
            true
        },
    }
}

/// Removing a name from a well-formed table leaves a well-formed table that
/// no longer holds the name, and every other record as it was.
pub proof fn lemma_removed_is_well_formed(rows: Seq<PasswordInfoView>, name: Seq<char>)
    requires
        well_formed(rows),
    ensures
        well_formed(removed(rows, name)),
        !contains_name(removed(rows, name), name),
        forall|other: Seq<char>| other != name ==> lookup(removed(rows, name), other) == lookup(rows, other),
{
    let after = removed(rows, name);
    if contains_name(rows, name) {
        let at = position(rows, name);
        assert forall|i: int| 0 <= i < after.len() implies #[trigger] after[i] == rows[if i < at { i } else { i + 1 }] by {}
        assert forall|i: int, j: int| 0 <= i < j < after.len() implies (#[trigger] after[i]).name != (#[trigger] after[j]).name
            && after[i].id != after[j].id by {
            let si = if i < at { i } else { i + 1 };
            let sj = if j < at { j } else { j + 1 };
            assert(rows[si].name != rows[sj].name);
            assert(rows[si].id != rows[sj].id);
        }
        if contains_name(after, name) {
            let k = position(after, name);
            let sk = if k < at { k } else { k + 1 };
            if sk < at {
                assert(rows[sk].name != rows[at].name);
            } else {
                assert(rows[at].name != rows[sk].name);
            }
        }
        assert forall|other: Seq<char>| other != name implies lookup(after, other) == lookup(rows, other) by {
            if contains_name(rows, other) {
                let p = position(rows, other);
                let q = if p < at { p } else { p - 1 };
                assert(after[q] == rows[p]);
                lemma_position_is(after, other, q);
            } else if contains_name(after, other) {
                let q = position(after, other);
                let p = if q < at { q } else { q + 1 };
                assert(rows[p].name == other);
            }
        }
    }
}

/// In a well-formed table a name is on one row or on none.
pub proof fn lemma_count_named(rows: Seq<PasswordInfoView>, name: Seq<char>)
    requires
        names_unique(rows),
    ensures
        count_named(rows, name) == if contains_name(rows, name) { 1nat } else { 0nat },
    decreases rows.len(),
{
    if rows.len() > 0 {
        let init = rows.drop_last();
        let last = rows.len() - 1;
        assert forall|i: int, j: int| 0 <= i < j < init.len() implies (#[trigger] init[i]).name != (#[trigger] init[j]).name by {
            assert(rows[i].name != rows[j].name);
        }
        lemma_count_named(init, name);
        if contains_name(init, name) {
            let at = position(init, name);
            assert(rows[at].name == name);
            assert(rows[at].name != rows[last].name);
        } else if contains_name(rows, name) {
            let at = position(rows, name);
            if at < last {
                assert(init[at].name == name);
            }
        } else {
            assert(rows[last].name != name);
        }
    }
}

/// What an upsert does to a well-formed table: the table stays well formed,
/// the record `name` exists afterwards and differs from what it was (a blank
/// record under the next id, where it was not there) in `field` alone, and
/// every other record is as it was.
pub proof fn lemma_upserted(rows: Seq<PasswordInfoView>, name: Seq<char>, field: PasswordField, value: Seq<char>)
    requires
        well_formed(rows),
    ensures
        well_formed(upserted(rows, name, field, value)),
        lookup(upserted(rows, name, field, value), name) == Some(
            match lookup(rows, name) {
                Some(row) => row.with_field(field, Some(value)),
                None => PasswordInfoView::blank(next_id(rows), name).with_field(field, Some(value)),
            },
        ),
        forall|other: Seq<char>| other != name ==> lookup(upserted(rows, name, field, value), other) == lookup(rows, other),
{
    let after = upserted(rows, name, field, value);
    let at = if contains_name(rows, name) { position(rows, name) } else { rows.len() as int };
    if !contains_name(rows, name) {
        assert forall|i: int| 0 <= i < rows.len() implies (#[trigger] rows[i]).id != next_id(rows) by {
            lemma_largest_id_bounds(rows, i);
        }
    }
    assert(after[at].name == name);
    assert forall|i: int| 0 <= i < after.len() && i != at implies #[trigger] after[i] == rows[i] by {}
    assert forall|i: int, j: int| 0 <= i < j < after.len() implies (#[trigger] after[i]).name != (#[trigger] after[j]).name
        && after[i].id != after[j].id by {
        if i < rows.len() && j < rows.len() {
            assert(rows[i].name != rows[j].name);
            assert(rows[i].id != rows[j].id);
        } else {
            assert(rows[i].name != name);
        }
    }
    lemma_position_is(after, name, at);
    assert forall|other: Seq<char>| other != name implies lookup(after, other) == lookup(rows, other) by {
        if contains_name(rows, other) {
            let p = position(rows, other);
            assert(after[p] == rows[p]);
            lemma_position_is(after, other, p);
        } else if contains_name(after, other) {
            let q = position(after, other);
            assert(rows[q].name == other);
        }
    }
}

/// The second of two writes to one field wins: the table is as if the first
/// had never been made, one row carries the name, and the field holds the
/// second value.
pub proof fn lemma_upsert_twice(rows: Seq<PasswordInfoView>, name: Seq<char>, field: PasswordField, first: Seq<char>, second: Seq<char>)
    requires
        well_formed(rows),
    ensures
        upserted(upserted(rows, name, field, first), name, field, second) == upserted(rows, name, field, second),
        count_named(upserted(upserted(rows, name, field, first), name, field, second), name) == 1,
        lookup(upserted(upserted(rows, name, field, first), name, field, second), name) matches Some(row) && row.field(field) == Some(second),
{
    let once = upserted(rows, name, field, first);
    let twice = upserted(once, name, field, second);
    let at = if contains_name(rows, name) { position(rows, name) } else { rows.len() as int };
    lemma_upserted(rows, name, field, first);
    lemma_upserted(once, name, field, second);
    lemma_upserted(rows, name, field, second);
    lemma_position_is(once, name, at);
    assert(twice =~= upserted(rows, name, field, second));
    lemma_count_named(twice, name);
}

/// What an update does to a well-formed table: the table stays well formed,
/// the record `name`, where it exists, differs from what it was in `field`
/// alone, no record appears, and every other record is as it was.
pub proof fn lemma_updated(rows: Seq<PasswordInfoView>, name: Seq<char>, field: PasswordField, value: Seq<char>)
    requires
        well_formed(rows),
    ensures
        well_formed(updated(rows, name, field, value)),
        lookup(updated(rows, name, field, value), name) == match lookup(rows, name) {
            Some(row) => Some(row.with_field(field, Some(value))),
            None => None,
        },
        forall|other: Seq<char>| other != name ==> lookup(updated(rows, name, field, value), other) == lookup(rows, other),
{
    if contains_name(rows, name) {
        assert(updated(rows, name, field, value) == upserted(rows, name, field, value));
        lemma_upserted(rows, name, field, value);
    }
}

/// What adding a row does to a well-formed table that holds neither its
/// name nor its id: the table stays well formed, the new row is found under
/// its name, one row carries that name, and every other record is as it was.
pub proof fn lemma_inserted(rows: Seq<PasswordInfoView>, row: PasswordInfoView)
    requires
        well_formed(rows),
        !contains_name(rows, row.name),
        !contains_id(rows, row.id),
    ensures
        well_formed(inserted(rows, row)),
        lookup(inserted(rows, row), row.name) == Some(row),
        count_named(inserted(rows, row), row.name) == 1,
        forall|other: Seq<char>| other != row.name ==> lookup(inserted(rows, row), other) == lookup(rows, other),
{
    let after = inserted(rows, row);
    assert forall|i: int, j: int| 0 <= i < j < after.len() implies (#[trigger] after[i]).name != (#[trigger] after[j]).name
        && after[i].id != after[j].id by {
        if j == rows.len() {
            assert(rows[i].name != row.name);
            assert(rows[i].id != row.id);
        } else {
            assert(rows[i].name != rows[j].name);
            assert(rows[i].id != rows[j].id);
        }
    }
    lemma_position_is(after, row.name, rows.len() as int);
    lemma_count_named(after, row.name);
    assert forall|other: Seq<char>| other != row.name implies lookup(after, other) == lookup(rows, other) by {
        if contains_name(rows, other) {
            let p = position(rows, other);
            assert(after[p] == rows[p]);
            lemma_position_is(after, other, p);
        } else if contains_name(after, other) {
            let q = position(after, other);
            assert(rows[q].name == other);
        }
    }
}

/// The next id is on no row.
pub proof fn lemma_next_id_is_free(rows: Seq<PasswordInfoView>)
    ensures
        !contains_id(rows, next_id(rows)),
{
    assert forall|i: int| 0 <= i < rows.len() implies (#[trigger] rows[i]).id != next_id(rows) by {
        lemma_largest_id_bounds(rows, i);
    }
}

} // verus!
