//! Whether a canonical record has to be written.
//!
//! A record is stored under a key. What is computed anew is compared
//! with what is stored: it is written where nothing is stored yet or
//! where the two differ, and with it, where the two differ, a report of
//! the differences under a key of its own.

use vstd::prelude::*;
use crate::parsed_character::{ParsedCharacter, ParsedCharacterView};
use crate::str_map::Content;
use crate::text::{chars_of, push_all, string_from_chars};

verus! {

/// What became of a record.
#[derive(Clone, Copy, Debug, PartialEq, Eq)]
pub enum SyncOutcome {
    /// The record was not stored yet, or differs from what was stored: it
    /// is to be written.
    Written,
    /// The record is what was stored: nothing is to be done.
    Unchanged,
}

/// What is to be done for a record.
#[derive(Debug, PartialEq)]
pub struct SyncPlan {
    pub outcome: SyncOutcome,
    /// Where the record is stored.
    pub record_key: String,
    /// Where the report of the differences is to be written, if one is to
    /// be written.
    pub report_key: Option<String>,
}

/// The key under which the record of the character `name` is stored.
pub open spec fn record_title(name: Seq<char>) -> Seq<char> {
    name + ".json"@
}

/// The key of the report that belongs to a record's key.
pub open spec fn report_title(storage_key: Seq<char>) -> Seq<char> {
    "Changes to "@ + storage_key
}

/// Whether the record is to be written or not.
pub open spec fn outcome_of(
    previous: Option<ParsedCharacterView>,
    current: ParsedCharacterView,
) -> SyncOutcome {
    match previous {
        Some(p) => if p == current {
            SyncOutcome::Unchanged
        } else {
            SyncOutcome::Written
        },
        None => SyncOutcome::Written,
    }
}

/// Whether a report of the differences is to be written: where a record
/// was stored and the new one differs from it.
pub open spec fn reports(
    previous: Option<ParsedCharacterView>,
    current: ParsedCharacterView,
) -> bool {
    match previous {
        Some(p) => p != current,
        None => false,
    }
}

/// What is stored once the plan has been carried out.
pub open spec fn stored_after(
    previous: Option<ParsedCharacterView>,
    current: ParsedCharacterView,
) -> ParsedCharacterView {
    match outcome_of(previous, current) {
        SyncOutcome::Written => current,
        SyncOutcome::Unchanged => previous->0,
    }
}

/// Once a record has been synced, syncing the same record again leaves
/// it unchanged and asks for no report, whatever was stored before.
pub proof fn lemma_second_sync_unchanged(
    previous: Option<ParsedCharacterView>,
    current: ParsedCharacterView,
)
    ensures
        stored_after(previous, current) == current,
        outcome_of(Some(stored_after(previous, current)), current) == SyncOutcome::Unchanged,
        !reports(Some(stored_after(previous, current)), current),
{
}

/// The key under which the record of the character `name` is stored.
pub fn storage_key(name: &str) -> (r: String)
    ensures
        r@ == record_title(name@),
{
    let mut out: Vec<char> = chars_of(name);
    let tail: Vec<char> = chars_of(".json");
    push_all(&mut out, &tail);
    string_from_chars(&out)
}

/// The key of the report that belongs to a record's key.
pub fn report_key(storage_key: &str) -> (r: String)
    ensures
        r@ == report_title(storage_key@),
{
    let mut out: Vec<char> = chars_of("Changes to ");
    let tail: Vec<char> = chars_of(storage_key);
    push_all(&mut out, &tail);
    string_from_chars(&out)
}

/// Whether the new record differs from the old one.
pub fn compare_characters(old_char: &ParsedCharacter, new_char: &ParsedCharacter) -> (updated: bool)
    ensures
        updated == (old_char@ != new_char@),
{
    !old_char.same(new_char)
}

/// The view of a record that may not be there.
pub open spec fn view_of(record: Option<&ParsedCharacter>) -> Option<ParsedCharacterView> {
    match record {
        Some(c) => Some(c@),
        None => None,
    }
}

/// Decides what is to be done for the record `current`, which is stored
/// under `storage_key`, where `previous` is what is stored there.
pub fn sync(storage_key: &str, previous: Option<&ParsedCharacter>, current: &ParsedCharacter) -> (plan:
    SyncPlan)
    ensures
        plan.outcome == outcome_of(view_of(previous), current@),
        plan.record_key@ == storage_key@,
        match plan.report_key {
            Some(k) => reports(view_of(previous), current@) && k@ == report_title(storage_key@),
            None => !reports(view_of(previous), current@),
        },
{
    let record_key: String = storage_key.to_owned();
    match previous {
        Some(old_char) => {
            if compare_characters(old_char, current) {
                SyncPlan {
                    outcome: SyncOutcome::Written,
                    record_key,
                    report_key: Some(report_key(storage_key)),
                }
            } else {
                SyncPlan { outcome: SyncOutcome::Unchanged, record_key, report_key: None }
            }
        },
        None => SyncPlan { outcome: SyncOutcome::Written, record_key, report_key: None },
    }
}

} // verus!
