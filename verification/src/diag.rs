//! Diagnostic records posted on a handle.

use vstd::prelude::*;

verus! {

/// A five-character SQLSTATE, as ASCII bytes.
pub type SqlState = [u8; 5];

pub const SQLSTATE_HY000: SqlState = [72, 89, 48, 48, 48];

pub const SQLSTATE_HY001: SqlState = [72, 89, 48, 48, 49];

pub const SQLSTATE_HY010: SqlState = [72, 89, 48, 49, 48];

/// One error or warning an application can read back.
#[derive(Debug, Clone)]
pub struct DiagRecord {
    pub sql_state: SqlState,
    pub native_error: i32,
    pub message: String,
}

/// Whether `after` is `before` with one record posted.
pub open spec fn posted(
    before: Seq<DiagRecord>,
    after: Seq<DiagRecord>,
    sql_state: SqlState,
    native_error: i32,
    message: Seq<char>,
) -> bool {
    &&& after.len() == before.len() + 1
    &&& after.drop_last() == before
    &&& after.last().sql_state == sql_state
    &&& after.last().native_error == native_error
    &&& after.last().message@ == message
}

impl DiagRecord {
    /// A record with this content.
    pub fn new(sql_state: SqlState, native_error: i32, message: &str) -> (record: Self)
        ensures
            record.sql_state == sql_state,
            record.native_error == native_error,
            record.message@ == message@,
    {
        DiagRecord { sql_state, native_error, message: message.to_owned() }
    }
}

/// Posts a record.
pub fn post_sql_error(
    records: &mut Vec<DiagRecord>,
    sql_state: SqlState,
    native_error: i32,
    message: &str,
)
    ensures
        posted(old(records)@, final(records)@, sql_state, native_error, message@),
{
    records.push(DiagRecord::new(sql_state, native_error, message));
    assert(records@.drop_last() =~= old(records)@);
}

/// Discards all records, as every call does before it posts its own.
pub fn free_errors(records: &mut Vec<DiagRecord>)
    ensures
        final(records)@.len() == 0,
{
    records.clear();
}

/// Posts that a call came out of sequence.
pub fn post_function_sequence(records: &mut Vec<DiagRecord>)
    ensures
        posted(
            old(records)@,
            final(records)@,
            SQLSTATE_HY010,
            0,
            "Function sequence error"@,
        ),
{
    post_sql_error(records, SQLSTATE_HY010, 0, "Function sequence error");
}

/// Posts that storage could not be had.
pub fn post_memory_allocation(records: &mut Vec<DiagRecord>)
    ensures
        posted(
            old(records)@,
            final(records)@,
            SQLSTATE_HY001,
            0,
            "Memory allocation error"@,
        ),
{
    post_sql_error(records, SQLSTATE_HY001, 0, "Memory allocation error");
}

/// A posted record stands behind those that were there, which stay as they were, and
/// says what was posted.
pub proof fn a_record_is_posted_behind_the_others(
    before: Seq<DiagRecord>,
    after: Seq<DiagRecord>,
    sql_state: SqlState,
    native_error: i32,
    message: Seq<char>,
    k: int,
)
    requires
        posted(before, after, sql_state, native_error, message),
    ensures
        after.len() == before.len() + 1,
        0 <= k < before.len() ==> after[k] == before[k],
        after[before.len() as int].sql_state == sql_state,
        after[before.len() as int].native_error == native_error,
        after[before.len() as int].message@ == message,
{
    if 0 <= k < before.len() {
        assert(after.drop_last()[k] == after[k]);
    }
}

} // verus!
