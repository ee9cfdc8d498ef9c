//! What becomes of the rows that the database answers with.

use vstd::prelude::*;

use super::models::StorageError;

verus! {

/// The rows that could be read, in their order.
pub open spec fn readable<T>(rows: Seq<Option<T>>) -> Seq<T>
    decreases rows.len(),
{
    if rows.len() == 0 {
        Seq::empty()
    } else {
        match rows.last() {
            Some(row) => readable(rows.drop_last()).push(row),
            None => readable(rows.drop_last()),
        }
    }
}

/// Keeps the rows that could be read; a listing passes over the others.
pub fn keep_readable<T>(rows: Vec<Option<T>>) -> (kept: Vec<T>)
    ensures
        kept@ == readable(rows@),
{
    let ghost given = rows@;
    let mut rest: Vec<Option<T>> = rows;
    let mut kept: Vec<T> = Vec::new();
    let mut i: usize = 0;
    let count: usize = rest.len();
    while i < count
        invariant
            0 <= i <= count,
            count == given.len(),
            rest@.len() == count,
            forall|j: int| i <= j < count ==> rest@[j] == given[j],
            kept@ == readable(given.take(i as int)),
        decreases count - i,
    {
        let mut row: Option<T> = None;
        std::mem::swap(&mut row, &mut rest[i]);
        assert(row == given[i as int]);
        proof {
            let next = given.take(i + 1);
            assert(next.drop_last() =~= given.take(i as int));
            assert(next.last() == given[i as int]);
        }
        match row {
            Some(value) => {
                kept.push(value);
            },
            None => {},
        }
        i = i + 1;
    }
    assert(given.take(i as int) =~= given);
    kept
}

/// The record in the one row that was asked for.
pub fn found<T>(row: Option<T>) -> (r: Result<T, StorageError>)
    ensures
        match row {
            Some(value) => r == Ok::<T, StorageError>(value),
            None => r == Err::<T, StorageError>(StorageError::NotFound),
        },
{
    match row {
        Some(value) => Ok(value),
        None => Err(StorageError::NotFound),
    }
}

/// The name of a folder. One that is not in the catalogue goes by the name of all of it.
pub fn folder_name(row: Option<String>) -> (name: String)
    ensures
        match row {
            Some(text) => name@ == text@,
            None => name@ == "All"@,
        },
{
    match row {
        Some(text) => text,
        None => "All".to_string(),
    }
}

/// A file in a listing: its number, its name, its size, and room for a thumbnail.
pub fn listed_file(id: i64, name: String, size: i64) -> (file: (i64, String, i64, Vec<u8>))
    ensures
        file.0 == id,
        file.1 == name,
        file.2 == size,
        file.3@.len() == 0,
{
    (id, name, size, Vec::new())
}

/// A listing holds the rows that could be read, all of them, in their order, and nothing else: those
/// of one listing and another behind it are those of the first and then those of the second; a row
/// that could be read is kept, and one that could not is passed over.
pub proof fn law_readable_rows<T>(first: Seq<Option<T>>, second: Seq<Option<T>>, row: T)
    ensures
        readable(first + second) == readable(first) + readable(second),
        readable(seq![Some(row)]) == seq![row],
        readable(seq![None::<T>]).len() == 0,
        readable(Seq::<Option<T>>::empty()).len() == 0,
    decreases second.len(),
{
    reveal_with_fuel(readable, 2);
    assert(seq![Some(row)].drop_last() =~= Seq::empty());
    assert(seq![None::<T>].drop_last() =~= Seq::empty());
    assert(readable(seq![Some(row)]) =~= seq![row]);
    if second.len() == 0 {
        assert(first + second =~= first);
        assert(readable(first) + readable(second) =~= readable(first));
    } else {
        law_readable_rows(first, second.drop_last(), row);
        assert((first + second).drop_last() =~= first + second.drop_last());
        assert(readable(first + second) =~= readable(first) + readable(second));
    }
}

}
