//! The operation history kept by the helper: a list of performed
//! operations with their outcomes, filtered on request. Reading the
//! history from disk and writing it back happens outside this library;
//! the state here is the list itself.

use vstd::prelude::*;

use crate::text::str_eq;

verus! {

/// One recorded operation.
#[derive(Debug)]
pub struct OpLogEntry {
    pub timestamp: String,
    pub op_type: String,
    pub device: String,
    pub detail: String,
    pub success: bool,
    pub error_message: Option<String>,
    pub raw_output: Option<String>,
}

impl Clone for OpLogEntry {
    /// An exact copy.
    fn clone(&self) -> (r: Self)
        ensures
            r == *self,
    {
        OpLogEntry {
            timestamp: self.timestamp.clone(),
            op_type: self.op_type.clone(),
            device: self.device.clone(),
            detail: self.detail.clone(),
            success: self.success,
            error_message: match &self.error_message {
                Some(s) => Some(s.clone()),
                None => None,
            },
            raw_output: match &self.raw_output {
                Some(s) => Some(s.clone()),
                None => None,
            },
        }
    }
}

/// The operation history.
#[derive(Debug)]
pub struct OpLogState {
    pub entries: Vec<OpLogEntry>,
}

impl OpLogState {
    /// An empty history.
    pub fn new() -> (s: Self)
        ensures
            s.entries@.len() == 0,
    {
        OpLogState { entries: Vec::new() }
    }

    /// A history holding the given entries, in order: how a history read
    /// back from storage enters the library.
    pub fn from_entries(entries: Vec<OpLogEntry>) -> (s: Self)
        ensures
            s.entries@ == entries@,
    {
        OpLogState { entries }
    }
}

/// Whether an entry passes the optional type and device filters.
pub open spec fn entry_matches(e: OpLogEntry, op_type: Option<&str>, device: Option<&str>) -> bool {
    (match op_type {
        Some(t) => e.op_type@ == t@,
        None => true,
    }) && (match device {
        Some(d) => e.device@ == d@,
        None => true,
    })
}

/// The entries of `es` that pass the filters, in order.
pub open spec fn spec_filter_entries(
    es: Seq<OpLogEntry>,
    op_type: Option<&str>,
    device: Option<&str>,
) -> Seq<OpLogEntry>
    decreases es.len(),
{
    if es.len() == 0 {
        Seq::empty()
    } else {
        let rest = spec_filter_entries(es.drop_last(), op_type, device);
        if entry_matches(es.last(), op_type, device) {
            rest + seq![es.last()]
        } else {
            rest
        }
    }
}

/// Appends an entry to the history.
pub fn add_entry(state: &mut OpLogState, entry: OpLogEntry)
    ensures
        final(state).entries@ == old(state).entries@.push(entry),
{
    state.entries.push(entry);
}

/// Empties the history.
pub fn clear_entries(state: &mut OpLogState)
    ensures
        final(state).entries@.len() == 0,
{
    state.entries = Vec::new();
}

/// The entries of the history that pass the optional type and device
/// filters, in order.
#[verifier::loop_isolation(false)]
pub fn get_entries(state: &OpLogState, op_type: Option<&str>, device: Option<&str>) -> (r: Vec<
    OpLogEntry,
>)
    ensures
        r@ == spec_filter_entries(state.entries@, op_type, device),
{
    let mut r: Vec<OpLogEntry> = Vec::new();
    let mut i: usize = 0;
    while i < state.entries.len()
        invariant
            i <= state.entries@.len(),
            r@ == spec_filter_entries(state.entries@.take(i as int), op_type, device),
        decreases state.entries@.len() - i,
    {
        proof {
            assert(state.entries@.take(i + 1).drop_last() =~= state.entries@.take(i as int));
            assert(state.entries@.take(i + 1).last() == state.entries@[i as int]);
        }
        let e = &state.entries[i];
        let keep = (match op_type {
            Some(t) => str_eq(e.op_type.as_str(), t),
            None => true,
        }) && (match device {
            Some(d) => str_eq(e.device.as_str(), d),
            None => true,
        });
        if keep {
            r.push(e.clone());
        }
        i += 1;
    }
    proof {
        assert(state.entries@.take(state.entries@.len() as int) =~= state.entries@);
    }
    r
}

} // verus!
