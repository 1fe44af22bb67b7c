//! The read-only SQL explorer.

use vstd::prelude::*;

verus! {

/// Query of `GET /debug/query`.
pub struct DebugQueryParams {
    pub project: String,
    pub sql: String,
}

} // verus!

verus! {

use crate::text::trim;
use crate::textops::{lowercase, starts_with};

/// Why a debug query is refused.
pub enum DebugQueryError {
    /// Debug endpoints are disabled.
    Disabled,
    /// Only SELECT statements are permitted.
    NotSelect,
}

/// A statement the explorer may run: it starts, after white space and in
/// any case, with `select`.
pub open spec fn select_only(sql: Seq<char>) -> bool {
    starts_with(lowercase(trim(sql)), "select"@)
}

/// Whether a debug query may run: the endpoints must be enabled and the
/// statement a SELECT.
pub fn check_debug_query(debug_enabled: bool, sql: &str) -> (r: Result<(), DebugQueryError>)
    ensures
        match r {
            Ok(()) => debug_enabled && select_only(sql@),
            Err(DebugQueryError::Disabled) => !debug_enabled,
            Err(DebugQueryError::NotSelect) => debug_enabled && !select_only(sql@),
        },
{
    if !debug_enabled {
        return Err(DebugQueryError::Disabled);
    }
    let v = crate::text::chars_of(sql);
    let t = crate::text::trim_chars(v.as_slice());
    let ts = crate::text::string_of(t.as_slice());
    let lower = crate::textops::to_lowercase(ts.as_str());
    let lv = crate::text::chars_of(lower.as_str());
    let sel = crate::text::chars_of("select");
    if crate::textops::starts_with_chars(lv.as_slice(), sel.as_slice()) {
        Ok(())
    } else {
        Err(DebugQueryError::NotSelect)
    }
}

} // verus!
