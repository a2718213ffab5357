//! ESPN API filter values for efficient player data retrieval.
//!
//! ESPN's `/players` endpoint reads a JSON filter object from the `x-fantasy-filter`
//! header. Only a few of its filters work server-side: `filterActive`, `filterInjured`,
//! `filterName` (for a single name) and `filterSlotIds`. Other filters such as
//! `filterHealthy` or `filterFreeAgent` are ignored by ESPN, so those are applied to the
//! players once they arrive.

use crate::cli::types::filters::{InjuryStatusFilter, RosterStatusFilter};
use crate::text::{append_chars, char_views, chars_of, decimal, string_of, u64_to_decimal};
use vstd::prelude::*;

verus! {

/// An ESPN-style filter value, serialized as `{"value": ...}`.
#[derive(Debug, Clone)]
pub struct Val<T> {
    pub value: T,
}

/// How ESPN should order the pool by draft rank.
#[derive(Debug, Clone)]
pub struct SortDraftRanks {
    pub sort_priority: u32,
    pub sort_asc: bool,
    /// Ranking type: `PPR`, `STANDARD`, ...
    pub value: String,
}

impl SortDraftRanks {
    /// Best-ranked first under the given ranking type.
    pub fn best_first(rank_type: &str) -> (out: Self)
        ensures
            out.sort_priority == 100,
            out.sort_asc,
            out.value@ == rank_type@,
    {
        SortDraftRanks { sort_priority: 100, sort_asc: true, value: string_of(&chars_of(rank_type)) }
    }
}

/// Filter parameters for ESPN's `/players` endpoint. Unset fields are left out of the
/// serialized filter.
#[derive(Debug, Clone)]
pub struct PlayersFilter {
    pub filter_active: Option<Val<bool>>,
    pub filter_name: Option<Val<String>>,
    pub filter_slot_ids: Option<Val<Vec<u8>>>,
    pub filter_injured: Option<Val<bool>>,
    /// Server-side limit on the number of players.
    pub limit: Option<u32>,
    pub sort_draft_ranks: Option<SortDraftRanks>,
}

impl Default for PlayersFilter {
    fn default() -> (out: Self)
        ensures
            out.filter_active is None,
            out.filter_name is None,
            out.filter_slot_ids is None,
            out.filter_injured is None,
            out.limit is None,
            out.sort_draft_ranks is None,
    {
        PlayersFilter {
            filter_active: None,
            filter_name: None,
            filter_slot_ids: None,
            filter_injured: None,
            limit: None,
            sort_draft_ranks: None,
        }
    }
}

/// The server-side filter for a player query: a single name goes to `filterName` (several
/// are matched after the fact), slots to `filterSlotIds`, the active flag to
/// `filterActive`; an `Active` injury filter forces `filterActive` on and an `Injured`
/// one sets `filterInjured`, while finer injury statuses and roster statuses are applied
/// client-side.
pub open spec fn filter_for(
    names: Option<Seq<String>>,
    slots: Option<Seq<u8>>,
    include_active: Option<bool>,
    injury: Option<InjuryStatusFilter>,
    f: PlayersFilter,
) -> bool {
    &&& match names {
        Some(n) => if n.len() == 1 {
            f.filter_name matches Some(v) && v.value@ == n[0]@
        } else {
            f.filter_name is None
        },
        None => f.filter_name is None,
    }
    &&& match slots {
        Some(s) => f.filter_slot_ids matches Some(v) && v.value@ == s,
        None => f.filter_slot_ids is None,
    }
    &&& f.filter_active == (if injury == Some(InjuryStatusFilter::Active) {
        Some(Val { value: true })
    } else {
        match include_active {
            Some(a) => Some(Val { value: a }),
            None => None,
        }
    })
    &&& f.filter_injured == (if injury == Some(InjuryStatusFilter::Injured) {
        Some(Val { value: true })
    } else {
        None
    })
    &&& f.limit is None
    &&& f.sort_draft_ranks is None
}

/// Build the server-side filter for a player query from command-line options.
pub fn build_players_filter(
    player_names: Option<Vec<String>>,
    slots: Option<Vec<u8>>,
    include_active: Option<bool>,
    injury_status_filter: Option<&InjuryStatusFilter>,
    roster_status_filter: Option<&RosterStatusFilter>,
) -> (out: PlayersFilter)
    ensures
        filter_for(
            match player_names { Some(n) => Some(n@), None => None },
            match slots { Some(s) => Some(s@), None => None },
            include_active,
            match injury_status_filter { Some(i) => Some(*i), None => None },
            out,
        ),
{
    let mut f = PlayersFilter::default();
    if let Some(names) = player_names {
        // One name is filtered by ESPN; several are matched once the players arrive.
        if names.len() == 1 {
            f.filter_name = Some(Val { value: names[0].clone() });
        }
    }
    if let Some(slot_ids) = slots {
        f.filter_slot_ids = Some(Val { value: slot_ids });
    }
    if let Some(active) = include_active {
        f.filter_active = Some(Val { value: active });
    }
    if let Some(injury_filter) = injury_status_filter {
        match injury_filter {
            InjuryStatusFilter::Active => {
                f.filter_active = Some(Val { value: true });
            },
            InjuryStatusFilter::Injured => {
                f.filter_injured = Some(Val { value: true });
            },
            _ => {},
        }
    }
    f
}

/// A hexadecimal digit, lower case.
pub open spec fn hex_digit(d: nat) -> char {
    if d < 10 { crate::text::digit_char(d) } else { ((d - 10) + 97) as char }
}

/// One character as it appears inside a JSON string: quotes, backslashes and control
/// characters escaped, everything else as is.
pub open spec fn json_escape(c: char) -> Seq<char> {
    if c == '"' {
        seq!['\\', '"']
    } else if c == '\\' {
        seq!['\\', '\\']
    } else if c == '\n' {
        seq!['\\', 'n']
    } else if c == '\r' {
        seq!['\\', 'r']
    } else if c == '\t' {
        seq!['\\', 't']
    } else if c == '\u{8}' {
        seq!['\\', 'b']
    } else if c == '\u{c}' {
        seq!['\\', 'f']
    } else if (c as u32) < 0x20 {
        seq!['\\', 'u', '0', '0', hex_digit((c as u32 / 16) as nat), hex_digit((c as u32 % 16) as nat)]
    } else {
        seq![c]
    }
}

/// The escaped body of a JSON string.
pub open spec fn json_escaped(s: Seq<char>) -> Seq<char>
    decreases s.len(),
{
    if s.len() == 0 {
        seq![]
    } else {
        json_escaped(s.drop_last()) + json_escape(s.last())
    }
}

/// A JSON string literal.
pub open spec fn json_string(s: Seq<char>) -> Seq<char> {
    seq!['"'] + json_escaped(s) + seq!['"']
}

fn hex_of(d: u32) -> (c: char)
    requires
        d < 16,
    ensures
        c == hex_digit(d as nat),
{
    if d < 10 {
        (d as u8 + 48) as char
    } else {
        (d as u8 - 10 + 97) as char
    }
}

pub(crate) fn json_string_chars(s: &[char]) -> (out: Vec<char>)
    ensures
        out@ == json_string(s@),
{
    let mut body: Vec<char> = Vec::new();
    let mut i: usize = 0;
    while i < s.len()
        invariant
            i <= s@.len(),
            body@ == json_escaped(s@.take(i as int)),
        decreases s@.len() - i,
    {
        let c = s[i];
        let piece: Vec<char> = if c == '"' {
            vec!['\\', '"']
        } else if c == '\\' {
            vec!['\\', '\\']
        } else if c == '\n' {
            vec!['\\', 'n']
        } else if c == '\r' {
            vec!['\\', 'r']
        } else if c == '\t' {
            vec!['\\', 't']
        } else if c == '\u{8}' {
            vec!['\\', 'b']
        } else if c == '\u{c}' {
            vec!['\\', 'f']
        } else if (c as u32) < 0x20 {
            vec!['\\', 'u', '0', '0', hex_of(c as u32 / 16), hex_of(c as u32 % 16)]
        } else {
            vec![c]
        };
        proof {
            assert(piece@ == json_escape(c));
            assert(s@.take(i + 1).drop_last() =~= s@.take(i as int));
            assert(s@.take(i + 1).last() == c);
        }
        append_chars(&mut body, &piece);
        i = i + 1;
    }
    proof {
        assert(s@.take(i as int) =~= s@);
    }
    let mut out: Vec<char> = vec!['"'];
    append_chars(&mut out, &body);
    out.push('"');
    proof {
        assert(out@ =~= json_string(s@));
    }
    out
}

/// `{"value":<v>}` for a JSON-rendered `v`.
pub open spec fn json_val(v: Seq<char>) -> Seq<char> {
    "{\"value\":"@ + v + "}"@
}

/// A boolean in JSON.
pub open spec fn json_bool(b: bool) -> Seq<char> {
    if b { "true"@ } else { "false"@ }
}

/// A list of small numbers in JSON.
pub open spec fn json_numbers(v: Seq<u8>) -> Seq<char> {
    "["@ + crate::text::join_with(v.map_values(|x: u8| decimal(x as nat)), ","@) + "]"@
}

/// The members a filter serializes, in field order, skipping unset fields.
pub open spec fn active_member(f: PlayersFilter) -> Seq<Seq<char>> {
    match f.filter_active { Some(v) => seq!["\"filterActive\":"@ + json_val(json_bool(v.value))], None => seq![] }
}

pub open spec fn name_member(f: PlayersFilter) -> Seq<Seq<char>> {
    match f.filter_name { Some(v) => seq!["\"filterName\":"@ + json_val(json_string(v.value@))], None => seq![] }
}

pub open spec fn slots_member(f: PlayersFilter) -> Seq<Seq<char>> {
    match f.filter_slot_ids { Some(v) => seq!["\"filterSlotIds\":"@ + json_val(json_numbers(v.value@))], None => seq![] }
}

pub open spec fn injured_member(f: PlayersFilter) -> Seq<Seq<char>> {
    match f.filter_injured { Some(v) => seq!["\"filterInjured\":"@ + json_val(json_bool(v.value))], None => seq![] }
}

pub open spec fn limit_member(f: PlayersFilter) -> Seq<Seq<char>> {
    match f.limit { Some(n) => seq!["\"limit\":"@ + decimal(n as nat)], None => seq![] }
}

pub open spec fn sort_member(f: PlayersFilter) -> Seq<Seq<char>> {
    match f.sort_draft_ranks {
        Some(s) => seq!["\"sortDraftRanks\":{\"sortPriority\":"@ + decimal(s.sort_priority as nat) + ",\"sortAsc\":"@
            + json_bool(s.sort_asc) + ",\"value\":"@ + json_string(s.value@) + "}"@],
        None => seq![],
    }
}

/// The members of the JSON object, in the order they are written.
pub open spec fn filter_members(f: PlayersFilter) -> Seq<Seq<char>> {
    active_member(f) + name_member(f) + slots_member(f) + injured_member(f) + limit_member(f) + sort_member(f)
}

/// The JSON object a filter serializes to.
pub open spec fn filter_json(f: PlayersFilter) -> Seq<char> {
    "{"@ + crate::text::join_with(filter_members(f), ","@) + "}"@
}

pub(crate) fn bool_chars(b: bool) -> (out: Vec<char>)
    ensures
        out@ == json_bool(b),
{
    if b { chars_of("true") } else { chars_of("false") }
}

pub(crate) fn numbers_chars(v: &Vec<u8>) -> (out: Vec<char>)
    ensures
        out@ == json_numbers(v@),
{
    let ghost items = v@.map_values(|x: u8| decimal(x as nat));
    let mut parts: Vec<Vec<char>> = Vec::new();
    let mut i: usize = 0;
    while i < v.len()
        invariant
            i <= v@.len(),
            items == v@.map_values(|x: u8| decimal(x as nat)),
            char_views(parts@) == items.take(i as int),
        decreases v@.len() - i,
    {
        let d = u64_to_decimal(v[i] as u64);
        let ghost before = char_views(parts@);
        let ghost dv = d@;
        parts.push(d);
        proof {
            assert(char_views(parts@) =~= before.push(dv));
            assert(items.take(i + 1) =~= items.take(i as int).push(items[i as int]));
        }
        i = i + 1;
    }
    proof {
        assert(items.take(i as int) =~= items);
    }
    let mut out = chars_of("[");
    append_chars(&mut out, &crate::text::join_chars(&parts, &chars_of(",")));
    append_chars(&mut out, &chars_of("]"));
    out
}

pub(crate) fn val_chars(v: &Vec<char>) -> (out: Vec<char>)
    ensures
        out@ == json_val(v@),
{
    let mut out = chars_of("{\"value\":");
    append_chars(&mut out, v);
    append_chars(&mut out, &chars_of("}"));
    out
}

pub(crate) fn push_member(parts: &mut Vec<Vec<char>>, key: &str, value: &Vec<char>)
    ensures
        char_views(final(parts)@) == char_views(old(parts)@).push(key@ + value@),
{
    let mut m = chars_of(key);
    append_chars(&mut m, value);
    let ghost before = char_views(parts@);
    let ghost mv = m@;
    parts.push(m);
    proof {
        assert(char_views(parts@) =~= before.push(mv));
    }
}

impl PlayersFilter {
    /// The filter as the JSON object ESPN reads from the `x-fantasy-filter` header.
    #[verifier::rlimit(40)]
    pub fn to_json(&self) -> (out: String)
        ensures
            out@ == filter_json(*self),
    {
        let mut parts: Vec<Vec<char>> = Vec::new();
        let ghost m0 = active_member(*self);
        if let Some(v) = &self.filter_active {
            push_member(&mut parts, "\"filterActive\":", &val_chars(&bool_chars(v.value)));
        }
        assert(char_views(parts@) =~= m0);
        let ghost m1 = m0 + name_member(*self);
        if let Some(v) = &self.filter_name {
            push_member(&mut parts, "\"filterName\":", &val_chars(&json_string_chars(&chars_of(v.value.as_str()))));
        }
        assert(char_views(parts@) =~= m1);
        let ghost m2 = m1 + slots_member(*self);
        if let Some(v) = &self.filter_slot_ids {
            push_member(&mut parts, "\"filterSlotIds\":", &val_chars(&numbers_chars(&v.value)));
        }
        assert(char_views(parts@) =~= m2);
        let ghost m3 = m2 + injured_member(*self);
        if let Some(v) = &self.filter_injured {
            push_member(&mut parts, "\"filterInjured\":", &val_chars(&bool_chars(v.value)));
        }
        assert(char_views(parts@) =~= m3);
        let ghost m4 = m3 + limit_member(*self);
        if let Some(n) = self.limit {
            push_member(&mut parts, "\"limit\":", &u64_to_decimal(n as u64));
        }
        assert(char_views(parts@) =~= m4);
        if let Some(s) = &self.sort_draft_ranks {
            let mut v = u64_to_decimal(s.sort_priority as u64);
            append_chars(&mut v, &chars_of(",\"sortAsc\":"));
            append_chars(&mut v, &bool_chars(s.sort_asc));
            append_chars(&mut v, &chars_of(",\"value\":"));
            append_chars(&mut v, &json_string_chars(&chars_of(s.value.as_str())));
            append_chars(&mut v, &chars_of("}"));
            let key = "\"sortDraftRanks\":{\"sortPriority\":";
            proof {
                let item = key@ + decimal(s.sort_priority as nat) + ",\"sortAsc\":"@ + json_bool(s.sort_asc)
                    + ",\"value\":"@ + json_string(s.value@) + "}"@;
                assert(key@ + v@ =~= item);
                assert(sort_member(*self) =~= seq![item]);
            }
            push_member(&mut parts, key, &v);
        } else {
            assert(sort_member(*self) =~= Seq::<Seq<char>>::empty());
        }
        proof {
            assert(char_views(parts@) =~= filter_members(*self));
        }
        let mut out = chars_of("{");
        append_chars(&mut out, &crate::text::join_chars(&parts, &chars_of(",")));
        append_chars(&mut out, &chars_of("}"));
        string_of(&out)
    }
}

} // verus!
