//! The ledger's file form: one JSON object per line, and conversions from parsed JSON.

use vstd::prelude::*;
use crate::audit::{opt_view, AuditError, AuditListOptions, AuditPayload, DEFAULT_AUDIT_LIMIT};
use crate::event::{
    events_view, object_text, object_text_exec, AuditEvent, EventView, Field, FieldView, JsonField,
};
use crate::json::{
    as_str_of, get_member, json_parsed, json_text, json_text_exec, member_of, parse_json, str_value,
    Json,
};
use crate::text::{append_chars, split, split_on, string_of, to_chars, trim, trimmed};

verus! {

/// File text of a ledger: each event's canonical JSON followed by a newline.
pub open spec fn ledger_text_of(evs: Seq<EventView>) -> Seq<char>
    decreases evs.len(),
{
    if evs.len() == 0 {
        Seq::empty()
    } else {
        ledger_text_of(evs.drop_last()) + object_text(evs.last()) + seq!['\n']
    }
}

/// The trimmed lines of `content` that are not blank.
pub open spec fn nonblank_lines(pieces: Seq<Seq<char>>) -> Seq<Seq<char>>
    decreases pieces.len(),
{
    if pieces.len() == 0 {
        Seq::empty()
    } else {
        let sub = nonblank_lines(pieces.drop_last());
        if trimmed(pieces.last()).len() > 0 {
            sub.push(trimmed(pieces.last()))
        } else {
            sub
        }
    }
}

/// Canonical JSON text of one event.
pub fn event_json(e: &AuditEvent) -> (r: String)
    ensures
        r@ == object_text(e@),
{
    string_of(&object_text_exec(e))
}

/// File text of a ledger, written as a whole.
pub fn ledger_text(events: &[AuditEvent]) -> (r: String)
    ensures
        r@ == ledger_text_of(events_view(events@)),
{
    let ghost all = events_view(events@);
    let mut out: Vec<char> = Vec::new();
    let mut i: usize = 0;
    assert(all.take(0) =~= Seq::<EventView>::empty());
    while i < events.len()
        invariant
            i <= events@.len(),
            all == events_view(events@),
            out@ == ledger_text_of(all.take(i as int)),
        decreases events@.len() - i,
    {
        let line = object_text_exec(&events[i]);
        append_chars(&mut out, &line);
        out.push('\n');
        proof {
            let t = all.take(i as int + 1);
            assert(t.drop_last() =~= all.take(i as int));
            assert(t.last() == events@[i as int]@);
        }
        i += 1;
    }
    assert(all.take(i as int) =~= all);
    string_of(&out)
}

/// A member value read from parsed JSON: a string as text, anything else as its JSON text.
pub open spec fn field_of(j: Json) -> FieldView {
    match j {
        Json::Str(s) => FieldView::Text(s@),
        _ => FieldView::Raw(json_text(j)),
    }
}

/// An event's members read from an object's member names and values, in order.
pub open spec fn event_of(keys: Seq<String>, values: Seq<Json>) -> EventView {
    Seq::new(
        if keys.len() < values.len() {
            keys.len()
        } else {
            values.len()
        },
        |i: int| (keys[i]@, field_of(values[i])),
    )
}

/// A member value read from parsed JSON.
pub fn field_from_json(j: &Json) -> (r: JsonField)
    ensures
        r@ == field_of(*j),
{
    match j {
        Json::Str(s) => JsonField::Text(s.clone()),
        _ => JsonField::Raw(json_text_exec(j)),
    }
}

/// An event read from a parsed JSON object, members in the object's order;
/// `None` for other values.
pub fn event_from_json(j: &Json) -> (r: Option<AuditEvent>)
    ensures
        match r {
            Some(e) => j is Obj && e@ == event_of(j->Obj_0@, j->Obj_1@),
            None => !(j is Obj),
        },
{
    let (ks, vs) = match j {
        Json::Obj(ks, vs, _) => (ks, vs),
        _ => {
            return None;
        },
    };
    let mut fields: Vec<Field> = Vec::new();
    let mut i: usize = 0;
    let ghost ev = event_of(ks@, vs@);
    while i < ks.len() && i < vs.len()
        invariant
            i <= ks@.len(),
            i <= vs@.len(),
            ev == event_of(ks@, vs@),
            fields@.map_values(|f: Field| f@) == ev.take(i as int),
        decreases ks@.len() - i,
    {
        let f = Field { key: ks[i].clone(), value: field_from_json(&vs[i]) };
        let ghost before = fields@;
        fields.push(f);
        assert(fields@.map_values(|f: Field| f@) =~= before.map_values(|f: Field| f@).push(f@));
        assert(ev.take(i as int + 1) =~= ev.take(i as int).push(ev[i as int]));
        i += 1;
    }
    assert(ev.take(i as int) =~= ev);
    Some(AuditEvent { fields })
}

/// The events of ledger lines: each must parse as a JSON object; `None` if one does not.
pub open spec fn ledger_of(lines: Seq<Seq<char>>) -> Option<Seq<EventView>>
    decreases lines.len(),
{
    if lines.len() == 0 {
        Some(Seq::empty())
    } else {
        match (ledger_of(lines.drop_last()), json_parsed(lines.last())) {
            (Some(evs), Some(Json::Obj(ks, vs, _))) => Some(evs.push(event_of(ks@, vs@))),
            _ => None,
        }
    }
}

proof fn lemma_ledger_none_extends(lines: Seq<Seq<char>>, m: int)
    requires
        0 <= m <= lines.len(),
        ledger_of(lines.take(m)) is None,
    ensures
        ledger_of(lines) is None,
    decreases lines.len(),
{
    if lines.len() > m {
        assert(lines.drop_last().take(m) =~= lines.take(m));
        lemma_ledger_none_extends(lines.drop_last(), m);
    } else {
        assert(lines.take(m) =~= lines);
    }
}

proof fn lemma_nonblank_prefix(ps: Seq<Seq<char>>, k: int)
    requires
        0 <= k <= ps.len(),
    ensures
        nonblank_lines(ps.take(k)).len() <= nonblank_lines(ps).len(),
        nonblank_lines(ps).take(nonblank_lines(ps.take(k)).len() as int) == nonblank_lines(ps.take(k)),
    decreases ps.len(),
{
    if ps.len() > k {
        assert(ps.drop_last().take(k) =~= ps.take(k));
        lemma_nonblank_prefix(ps.drop_last(), k);
        let a = nonblank_lines(ps.drop_last());
        let n = nonblank_lines(ps.take(k)).len() as int;
        assert(a.push(trimmed(ps.last())).take(n) =~= a.take(n));
    } else {
        assert(ps.take(k) =~= ps);
        assert(nonblank_lines(ps).take(nonblank_lines(ps).len() as int) =~= nonblank_lines(ps));
    }
}

proof fn self_fail(ps: Seq<Seq<char>>, i: int)
    requires
        0 <= i < ps.len(),
        ledger_of(nonblank_lines(ps.take(i + 1))) is None,
    ensures
        ledger_of(nonblank_lines(ps)) is None,
{
    lemma_nonblank_prefix(ps, i + 1);
    let n = nonblank_lines(ps.take(i + 1)).len() as int;
    lemma_ledger_none_extends(nonblank_lines(ps), n);
}

/// Reads a ledger file: blank lines are skipped; every other line, trimmed,
/// must be a JSON object, else the whole read fails.
pub fn parse_ledger(content: &str) -> (r: Result<Vec<AuditEvent>, AuditError>)
    ensures
        match r {
            Ok(evs) => ledger_of(nonblank_lines(split_on(content@, '\n'))) == Some(
                events_view(evs@),
            ),
            Err(e) => ledger_of(nonblank_lines(split_on(content@, '\n'))) is None && e
                == AuditError::MalformedLog,
        },
{
    let pieces = split(&to_chars(content), '\n');
    let ghost ps = split_on(content@, '\n');
    let mut events: Vec<AuditEvent> = Vec::new();
    let mut i: usize = 0;
    assert(ps.take(0) =~= Seq::<Seq<char>>::empty());
    assert(events_view(events@) =~= Seq::<EventView>::empty());
    while i < pieces.len()
        invariant
            i <= pieces@.len() == ps.len(),
            ps == split_on(content@, '\n'),
            forall|j: int| 0 <= j < pieces@.len() ==> #[trigger] pieces@[j]@ == ps[j],
            ledger_of(nonblank_lines(ps.take(i as int))) == Some(events_view(events@)),
        decreases pieces@.len() - i,
    {
        let t = trim(&pieces[i]);
        let ghost q = ps.take(i as int + 1);
        proof {
            assert(q.drop_last() =~= ps.take(i as int));
            assert(q.last() == pieces@[i as int]@);
        }
        if t.len() > 0 {
            let ghost nl = nonblank_lines(q);
            assert(nl == nonblank_lines(ps.take(i as int)).push(t@));
            assert(nl.drop_last() =~= nonblank_lines(ps.take(i as int)));
            let parsed = match parse_json(string_of(&t).as_str()) {
                Some(v) => v,
                None => {
                    proof {
                        self_fail(ps, i as int);
                    }
                    return Err(AuditError::MalformedLog);
                },
            };
            let e = match event_from_json(&parsed) {
                Some(e) => e,
                None => {
                    proof {
                        self_fail(ps, i as int);
                    }
                    return Err(AuditError::MalformedLog);
                },
            };
            let ghost before = events@;
            events.push(e);
            assert(events_view(events@) =~= events_view(before).push(e@));
        }
        i += 1;
    }
    assert(ps.take(i as int) =~= ps);
    Ok(events)
}

/// The field of a member as an append request passes it on: as given, where present.
pub open spec fn passthrough_member(j: Json, key: Seq<char>) -> Option<FieldView> {
    match member_of(j, key) {
        Some(x) => Some(field_of(x)),
        None => None,
    }
}

pub open spec fn opt_field(o: Option<JsonField>) -> Option<FieldView> {
    match o {
        Some(f) => Some(f@),
        None => None,
    }
}

/// The JSON text of the member `key` where it is an object.
pub open spec fn object_text_member(j: Json, key: Seq<char>) -> Option<Seq<char>> {
    match member_of(j, key) {
        Some(Json::Obj(_, _, t)) => Some(t@),
        _ => None,
    }
}

/// Whether `p` is the append request that the object `j` makes.
pub open spec fn payload_of(p: AuditPayload, j: Json) -> bool {
    &&& opt_view(p.action) == as_str_of(member_of(j, "action"@))
    &&& opt_view(p.actor_user_id) == as_str_of(member_of(j, "actor_user_id"@))
    &&& opt_view(p.outcome) == as_str_of(member_of(j, "outcome"@))
    &&& opt_field(p.target_type) == passthrough_member(j, "target_type"@)
    &&& opt_field(p.target_id) == passthrough_member(j, "target_id"@)
    &&& opt_field(p.request_method) == passthrough_member(j, "request_method"@)
    &&& opt_field(p.request_path) == passthrough_member(j, "request_path"@)
    &&& opt_field(p.request_id) == passthrough_member(j, "request_id"@)
    &&& opt_view(p.metadata) == object_text_member(j, "metadata"@)
}

fn member_str(j: &Json, key: &str) -> (r: Option<String>)
    ensures
        opt_view(r) == as_str_of(member_of(*j, key@)),
{
    str_value(get_member(j, key))
}

fn member_field(j: &Json, key: &str) -> (r: Option<JsonField>)
    ensures
        opt_field(r) == passthrough_member(*j, key@),
{
    match get_member(j, key) {
        Some(x) => Some(field_from_json(x)),
        None => None,
    }
}

/// An append request read from a parsed JSON object; `None` where it is not an object.
/// Strings are taken for `action`, `actor_user_id` and `outcome`; `metadata` only
/// where it is an object; the optional members as given.
pub fn payload_from_json(j: &Json) -> (r: Option<AuditPayload>)
    ensures
        match r {
            Some(p) => j is Obj && payload_of(p, *j),
            None => !(j is Obj),
        },
{
    if !(matches!(j, Json::Obj(_, _, _))) {
        return None;
    }
    let metadata = match get_member(j, "metadata") {
        Some(Json::Obj(_, _, t)) => Some(t.clone()),
        _ => None,
    };
    Some(
        AuditPayload {
            action: member_str(j, "action"),
            actor_user_id: member_str(j, "actor_user_id"),
            outcome: member_str(j, "outcome"),
            target_type: member_field(j, "target_type"),
            target_id: member_field(j, "target_id"),
            request_method: member_field(j, "request_method"),
            request_path: member_field(j, "request_path"),
            request_id: member_field(j, "request_id"),
            metadata,
        },
    )
}

/// A member that is a non-negative integer fitting `usize`.
pub open spec fn usize_member(j: Json, key: Seq<char>) -> Option<usize> {
    match member_of(j, key) {
        Some(Json::Num(n)) => match n.uint {
            Some(u) => if u <= usize::MAX {
                Some(u as usize)
            } else {
                None
            },
            None => None,
        },
        _ => None,
    }
}

fn member_usize(j: &Json, key: &str) -> (r: Option<usize>)
    ensures
        r == usize_member(*j, key@),
{
    match get_member(j, key) {
        Some(Json::Num(n)) => match n.uint {
            Some(u) => if u <= usize::MAX as u64 {
                Some(u as usize)
            } else {
                None
            },
            None => None,
        },
        _ => None,
    }
}

/// Listing options read from parsed JSON filters: `offset` (default 0) and
/// `limit` (default 100) where they are non-negative integers, and the
/// string filters where they are strings.
pub fn list_options_from_json(filters: Option<&Json>) -> (r: AuditListOptions)
    ensures
        match filters {
            Some(j) => {
                &&& r.offset == (match usize_member(*j, "offset"@) {
                    Some(n) => n,
                    None => 0,
                })
                &&& r.limit == (match usize_member(*j, "limit"@) {
                    Some(n) => n,
                    None => DEFAULT_AUDIT_LIMIT,
                })
                &&& opt_view(r.action) == as_str_of(member_of(*j, "action"@))
                &&& opt_view(r.actor_user_id) == as_str_of(member_of(*j, "actor_user_id"@))
                &&& opt_view(r.outcome) == as_str_of(member_of(*j, "outcome"@))
            },
            None => r.offset == 0 && r.limit == DEFAULT_AUDIT_LIMIT && r.action is None
                && r.actor_user_id is None && r.outcome is None,
        },
{
    match filters {
        Some(j) => AuditListOptions {
            offset: match member_usize(j, "offset") {
                Some(n) => n,
                None => 0,
            },
            limit: match member_usize(j, "limit") {
                Some(n) => n,
                None => DEFAULT_AUDIT_LIMIT,
            },
            action: member_str(j, "action"),
            actor_user_id: member_str(j, "actor_user_id"),
            outcome: member_str(j, "outcome"),
        },
        None => AuditListOptions {
            offset: 0,
            limit: DEFAULT_AUDIT_LIMIT,
            action: None,
            actor_user_id: None,
            outcome: None,
        },
    }
}

} // verus!
