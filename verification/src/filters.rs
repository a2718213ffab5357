//! The compact filter object for the `/players` endpoint: active flag, a single
//! name, lineup slots and a limit. Unset fields are left out of its JSON form.

use crate::core_util::filters::{
    bool_chars, json_bool, json_numbers, json_string, json_string_chars, json_val, numbers_chars,
    push_member, val_chars,
};
pub use crate::core_util::filters::Val;
use crate::text::{append_chars, char_views, chars_of, decimal, join_chars, join_with, string_of, u64_to_decimal};
use vstd::prelude::*;

verus! {

/// Rootless filter object for the `/players` endpoint.
#[derive(Debug)]
pub struct PlayersFilter {
    pub filter_active: Option<Val<bool>>,
    pub filter_name: Option<Val<String>>,
    pub filter_slot_ids: Option<Val<Vec<u8>>>,
    /// Simple limit (server-side).
    pub limit: Option<u32>,
}

impl Default for PlayersFilter {
    fn default() -> (out: Self)
        ensures
            out.filter_active is None,
            out.filter_name is None,
            out.filter_slot_ids is None,
            out.limit is None,
    {
        PlayersFilter { filter_active: None, filter_name: None, filter_slot_ids: None, limit: None }
    }
}

/// Build a filter from command-line options: each option that is given is set as it is.
pub fn build_players_filter(
    limit: Option<u32>,
    player_name: Option<String>,
    slots: Option<Vec<u8>>,
    include_active: Option<bool>,
) -> (out: PlayersFilter)
    ensures
        out.limit == limit,
        match player_name {
            Some(n) => out.filter_name matches Some(v) && v.value == n,
            None => out.filter_name is None,
        },
        match slots {
            Some(s) => out.filter_slot_ids matches Some(v) && v.value == s,
            None => out.filter_slot_ids is None,
        },
        match include_active {
            Some(a) => out.filter_active matches Some(v) && v.value == a,
            None => out.filter_active is None,
        },
{
    let mut f = PlayersFilter::default();
    if let Some(n) = limit {
        f.limit = Some(n);
    }
    if let Some(name) = player_name {
        f.filter_name = Some(Val { value: name });
    }
    if let Some(slot_ids) = slots {
        f.filter_slot_ids = Some(Val { value: slot_ids });
    }
    if let Some(active) = include_active {
        f.filter_active = Some(Val { value: active });
    }
    f
}

/// The members of the JSON form, in field order, each set field once.
pub open spec fn legacy_members(f: PlayersFilter) -> Seq<Seq<char>> {
    (match f.filter_active { Some(v) => seq!["\"filterActive\":"@ + json_val(json_bool(v.value))], None => seq![] })
        + (match f.filter_name { Some(v) => seq!["\"filterName\":"@ + json_val(json_string(v.value@))], None => seq![] })
        + (match f.filter_slot_ids { Some(v) => seq!["\"filterSlotIds\":"@ + json_val(json_numbers(v.value@))], None => seq![] })
        + (match f.limit { Some(n) => seq!["\"limit\":"@ + decimal(n as nat)], None => seq![] })
}

/// The JSON object a filter serializes to.
pub open spec fn legacy_json(f: PlayersFilter) -> Seq<char> {
    "{"@ + join_with(legacy_members(f), ","@) + "}"@
}

impl PlayersFilter {
    /// The filter as the JSON object ESPN reads from the `x-fantasy-filter` header.
    pub fn to_json(&self) -> (out: String)
        ensures
            out@ == legacy_json(*self),
    {
        let mut parts: Vec<Vec<char>> = Vec::new();
        if let Some(v) = &self.filter_active {
            push_member(&mut parts, "\"filterActive\":", &val_chars(&bool_chars(v.value)));
        }
        if let Some(v) = &self.filter_name {
            push_member(&mut parts, "\"filterName\":", &val_chars(&json_string_chars(&chars_of(v.value.as_str()))));
        }
        if let Some(v) = &self.filter_slot_ids {
            push_member(&mut parts, "\"filterSlotIds\":", &val_chars(&numbers_chars(&v.value)));
        }
        if let Some(n) = self.limit {
            push_member(&mut parts, "\"limit\":", &u64_to_decimal(n as u64));
        }
        proof {
            assert(char_views(parts@) =~= legacy_members(*self));
        }
        let mut out = chars_of("{");
        append_chars(&mut out, &join_chars(&parts, &chars_of(",")));
        append_chars(&mut out, &chars_of("}"));
        string_of(&out)
    }
}

} // verus!
