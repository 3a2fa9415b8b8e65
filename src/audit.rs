//! The audit ledger: validation, chain verification, append with retention, listing.

use vstd::prelude::*;
use crate::config::{lemma_lex_irreflexive, lemma_lex_trans};
use crate::clock::{new_uuid_simple, now_iso_millis};
use crate::event::{
    lemma_lookup_remove, lemma_remove_remove, lemma_set_key, lookup,
    compute_event_hash, events_view, event_hash_of, remove_key, set_key, text_of, AuditEvent,
    EventView, Field, FieldView, JsonField,
};
use crate::text::{append_chars, chars_eq, chars_lt, lex_lt, lower_of, lowercase, string_of, to_chars, trim, trimmed};

verus! {

pub const DEFAULT_AUDIT_LIMIT: usize = 100;

pub const MAX_AUDIT_LIMIT: usize = 500;

pub const DEFAULT_AUDIT_RETENTION: usize = 5000;

pub const MIN_AUDIT_RETENTION: usize = 100;

pub const MAX_AUDIT_RETENTION: usize = 50000;

/// Failures of ledger operations.
#[derive(Debug, Clone, Copy, PartialEq, Eq, Structural)]
pub enum AuditError {
    /// A bad space id, or an empty action or actor.
    InvalidArgument,
    /// A ledger line that is not a JSON object.
    MalformedLog,
    /// A ledger whose hash chain does not verify.
    IntegrityViolation,
}

pub open spec fn key_event_hash() -> Seq<char> {
    "event_hash"@
}

pub open spec fn key_prev_hash() -> Seq<char> {
    "prev_hash"@
}

pub open spec fn root_hash() -> Seq<char> {
    "root"@
}

/// Retention ceiling: the argument, else the default, clamped to the allowed range.
pub open spec fn retention_of(limit: Option<usize>) -> int {
    let raw = match limit {
        Some(n) => n as int,
        None => DEFAULT_AUDIT_RETENTION as int,
    };
    if raw < MIN_AUDIT_RETENTION {
        MIN_AUDIT_RETENTION as int
    } else if raw > MAX_AUDIT_RETENTION {
        MAX_AUDIT_RETENTION as int
    } else {
        raw
    }
}

/// Clamps a retention ceiling to `[100, 50000]`, defaulting to 5000.
pub fn normalize_retention_limit(limit: Option<usize>) -> (r: usize)
    ensures
        r as int == retention_of(limit),
        MIN_AUDIT_RETENTION <= r <= MAX_AUDIT_RETENTION,
{
    let raw = match limit {
        Some(n) => n,
        None => DEFAULT_AUDIT_RETENTION,
    };
    if raw < MIN_AUDIT_RETENTION {
        MIN_AUDIT_RETENTION
    } else if raw > MAX_AUDIT_RETENTION {
        MAX_AUDIT_RETENTION
    } else {
        raw
    }
}

/// Outcome recorded for a requested one: trimmed and lowercased when it is
/// `success`, `deny` or `error`, else `success`.
pub open spec fn outcome_of(outcome: Option<Seq<char>>) -> Seq<char> {
    let n = match outcome {
        Some(o) => lower_of(trimmed(o)),
        None => lower_of(trimmed("success"@)),
    };
    if n == "success"@ || n == "deny"@ || n == "error"@ {
        n
    } else {
        "success"@
    }
}

/// Normalizes a requested outcome.
pub fn normalize_outcome(outcome: Option<&str>) -> (r: String)
    ensures
        r@ == outcome_of(
            match outcome {
                Some(o) => Some(o@),
                None => None,
            },
        ),
{
    let raw = match outcome {
        Some(o) => o,
        None => "success",
    };
    let t = string_of(&trim(&to_chars(raw)));
    let n = lowercase(t.as_str());
    let success = "success".to_owned();
    let deny = "deny".to_owned();
    let error = "error".to_owned();
    if n == success || n == deny || n == error {
        n
    } else {
        success
    }
}

/// ASCII letter or digit.
pub open spec fn is_alnum(c: char) -> bool {
    ('0' <= c && c <= '9') || ('A' <= c && c <= 'Z') || ('a' <= c && c <= 'z')
}

/// Space ids: an ASCII letter or digit, then up to 127 of letters, digits, `.`, `_`, `-`.
pub open spec fn valid_space_id(s: Seq<char>) -> bool {
    1 <= s.len() <= 128 && is_alnum(s[0]) && forall|i: int|
        1 <= i < s.len() ==> #[trigger] is_alnum(s[i]) || s[i] == '.' || s[i] == '_' || s[i]
            == '-'
}

fn char_is_alnum(c: char) -> (r: bool)
    ensures
        r == is_alnum(c),
{
    ('0' <= c && c <= '9') || ('A' <= c && c <= 'Z') || ('a' <= c && c <= 'z')
}

/// The trimmed space id, where it is valid.
pub fn validate_space_id(space_id: &str) -> (r: Result<String, AuditError>)
    ensures
        match r {
            Ok(s) => valid_space_id(trimmed(space_id@)) && s@ == trimmed(space_id@),
            Err(e) => !valid_space_id(trimmed(space_id@)) && e == AuditError::InvalidArgument,
        },
{
    let t = trim(&to_chars(space_id));
    if t.len() == 0 || t.len() > 128 || !char_is_alnum(t[0]) {
        return Err(AuditError::InvalidArgument);
    }
    let mut i: usize = 1;
    while i < t.len()
        invariant
            1 <= i <= t@.len(),
            t@ == trimmed(space_id@),
            forall|j: int|
                1 <= j < i ==> #[trigger] is_alnum(t@[j]) || t@[j] == '.' || t@[j] == '_' || t@[j]
                    == '-',
        decreases t@.len() - i,
    {
        let c = t[i];
        if !(char_is_alnum(c) || c == '.' || c == '_' || c == '-') {
            assert(!(is_alnum(t@[i as int]) || t@[i as int] == '.' || t@[i as int] == '_'
                || t@[i as int] == '-'));
            return Err(AuditError::InvalidArgument);
        }
        i += 1;
    }
    Ok(string_of(&t))
}

/// Storage path of a space's ledger.
pub open spec fn audit_path_of(space_id: Seq<char>) -> Seq<char> {
    "spaces/"@ + space_id + "/audit/events.jsonl"@
}

/// The ledger's path under the storage root.
pub fn audit_file_path(space_id: &str) -> (r: String)
    ensures
        r@ == audit_path_of(space_id@),
{
    let mut out = to_chars("spaces/");
    append_chars(&mut out, &to_chars(space_id));
    append_chars(&mut out, &to_chars("/audit/events.jsonl"));
    string_of(&out)
}

/// The predecessor hash an event records: its `prev_hash` string, or the
/// empty string where it has none.
pub open spec fn stored_prev(e: EventView) -> Seq<char> {
    match text_of(e, key_prev_hash()) {
        Some(p) => p,
        None => Seq::empty(),
    }
}

/// Whether `evs` forms a hash chain starting from `prev`: each event holds an
/// `event_hash` string, holds the running hash as its `prev_hash` string, and its
/// hash is the digest of the running hash and the event without `event_hash`.
pub open spec fn chain_ok(evs: Seq<EventView>, prev: Seq<char>) -> bool
    decreases evs.len(),
{
    if evs.len() == 0 {
        true
    } else {
        let e = evs[0];
        match text_of(e, key_event_hash()) {
            None => false,
            Some(h) => text_of(e, key_prev_hash()) == Some(prev) && event_hash_of(remove_key(e, key_event_hash()), prev)
                == h && chain_ok(evs.drop_first(), h),
        }
    }
}

/// Checks the hash chain of a ledger from `"root"`. The ledger is only read,
/// and the result is determined by its contents alone.
pub fn verify_chain(events: &[AuditEvent]) -> (r: Result<(), AuditError>)
    ensures
        r is Ok <==> chain_ok(events_view(events@), root_hash()),
        r is Err ==> r == Err::<(), AuditError>(AuditError::IntegrityViolation),
{
    let ghost all = events_view(events@);
    let key_eh = to_chars("event_hash");
    let key_ph = to_chars("prev_hash");
    let mut prev = to_chars("root");
    let mut i: usize = 0;
    assert(all.skip(0) =~= all);
    while i < events.len()
        invariant
            i <= events@.len(),
            all == events_view(events@),
            key_eh@ == key_event_hash(),
            key_ph@ == key_prev_hash(),
            chain_ok(all, root_hash()) == chain_ok(all.skip(i as int), prev@),
        decreases events@.len() - i,
    {
        let e = &events[i];
        assert(all.skip(i as int)[0] == e@);
        assert(all.skip(i as int).drop_first() =~= all.skip(i as int + 1));
        let expected = match e.get_text(&key_eh) {
            Some(h) => to_chars(h.as_str()),
            None => {
                return Err(AuditError::IntegrityViolation);
            },
        };
        let stored = match e.get_text(&key_ph) {
            Some(p) => to_chars(p.as_str()),
            None => {
                return Err(AuditError::IntegrityViolation);
            },
        };
        if !chars_eq(&stored, &prev) {
            return Err(AuditError::IntegrityViolation);
        }
        let mut candidate = e.duplicate();
        candidate.remove(&key_eh);
        let actual = to_chars(compute_event_hash(&candidate, &prev).as_str());
        if !chars_eq(&actual, &expected) {
            return Err(AuditError::IntegrityViolation);
        }
        prev = expected;
        i += 1;
    }
    Ok(())
}

/// The chain rebuilt from `prev`: each event gets the running hash as its
/// `prev_hash` and a freshly computed `event_hash`; other members stay.
pub open spec fn rehash(evs: Seq<EventView>, prev: Seq<char>) -> Seq<EventView>
    decreases evs.len(),
{
    if evs.len() == 0 {
        Seq::empty()
    } else {
        let base = remove_key(
            set_key(evs[0], key_prev_hash(), FieldView::Text(prev)),
            key_event_hash(),
        );
        let h = event_hash_of(base, prev);
        seq![set_key(base, key_event_hash(), FieldView::Text(h))] + rehash(evs.drop_first(), h)
    }
}

/// Rebuilds the chain of `events` from `"root"`.
pub fn rehash_chain(events: &mut Vec<AuditEvent>)
    ensures
        events_view(final(events)@) == rehash(events_view(old(events)@), root_hash()),
{
    let ghost all = events_view(events@);
    let key_eh = to_chars("event_hash");
    let key_ph = to_chars("prev_hash");
    let mut prev = to_chars("root");
    let mut out: Vec<AuditEvent> = Vec::new();
    let mut i: usize = 0;
    assert(all.skip(0) =~= all);
    assert(events_view(out@) + rehash(all, prev@) =~= rehash(all, root_hash()));
    while i < events.len()
        invariant
            i <= events@.len(),
            all == events_view(events@),
            key_eh@ == key_event_hash(),
            key_ph@ == key_prev_hash(),
            events_view(out@) + rehash(all.skip(i as int), prev@) == rehash(all, root_hash()),
        decreases events@.len() - i,
    {
        let mut e = events[i].duplicate();
        assert(all.skip(i as int)[0] == e@);
        assert(all.skip(i as int).drop_first() =~= all.skip(i as int + 1));
        e.set(&key_ph, JsonField::Text(string_of(&prev)));
        e.remove(&key_eh);
        let h = compute_event_hash(&e, &prev);
        let hc = to_chars(h.as_str());
        e.set(&key_eh, JsonField::Text(h));
        let ghost before = out@;
        out.push(e);
        assert(events_view(out@) =~= events_view(before).push(e@));
        let ghost rest = rehash(all.skip(i as int + 1), hc@);
        assert(events_view(before) + (seq![e@] + rest) =~= events_view(out@) + rest);
        prev = hc;
        i += 1;
    }
    assert(all.skip(i as int) =~= Seq::<EventView>::empty());
    assert(events_view(out@) + Seq::<EventView>::empty() =~= events_view(out@));
    *events = out;
}

/// The hash that the chain check runs on with after `evs`, started from `prev`.
pub open spec fn running_hash(evs: Seq<EventView>, prev: Seq<char>, i: int) -> Seq<char> {
    if i == 0 {
        prev
    } else {
        match text_of(evs[i - 1], key_event_hash()) {
            Some(h) => h,
            None => prev,
        }
    }
}

/// Event-wise reading of the chain: every event holds an `event_hash` string,
/// records its predecessor's hash (`prev` for the first), and its hash matches
/// the digest recomputed from it.
pub open spec fn links_ok(evs: Seq<EventView>, prev: Seq<char>) -> bool {
    forall|i: int|
        0 <= i < evs.len() ==> {
            &&& #[trigger] text_of(evs[i], key_event_hash()) is Some
            &&& text_of(evs[i], key_prev_hash()) == Some(running_hash(evs, prev, i))
            &&& event_hash_of(remove_key(evs[i], key_event_hash()), running_hash(evs, prev, i))
                == text_of(evs[i], key_event_hash())->0
        }
}

pub proof fn lemma_keys_distinct()
    ensures
        key_prev_hash() != key_event_hash(),
        key_prev_hash() != root_hash(),
{
    reveal_strlit("prev_hash");
    reveal_strlit("event_hash");
    reveal_strlit("root");
    assert(key_prev_hash().len() != key_event_hash().len());
    assert(key_prev_hash().len() != root_hash().len());
}

/// A ledger verifies from `prev` exactly when each event links to its
/// predecessor (the first to `prev`) and its stored hash matches the digest.
pub proof fn lemma_chain_iff_links(evs: Seq<EventView>, prev: Seq<char>)
    ensures
        chain_ok(evs, prev) <==> links_ok(evs, prev),
    decreases evs.len(),
{
    if evs.len() > 0 {
        let rest = evs.drop_first();
        match text_of(evs[0], key_event_hash()) {
            None => {
                assert(!links_ok(evs, prev)) by {
                    assert(text_of(evs[0], key_event_hash()) is None);
                }
            },
            Some(h) => {
                lemma_chain_iff_links(rest, h);
                assert forall|i: int|
                    0 < i < evs.len() && #[trigger] text_of(evs[i - 1], key_event_hash()) is Some
                        implies running_hash(evs, prev, i) == running_hash(rest, h, i - 1) by {
                    if i > 1 {
                        assert(evs[i - 1] == rest[i - 2]);
                    }
                }
                if links_ok(evs, prev) {
                    assert forall|j: int| 0 <= j < rest.len() implies {
                        &&& #[trigger] text_of(rest[j], key_event_hash()) is Some
                        &&& text_of(rest[j], key_prev_hash()) == Some(running_hash(rest, h, j))
                        &&& event_hash_of(remove_key(rest[j], key_event_hash()), running_hash(rest, h, j))
                            == text_of(rest[j], key_event_hash())->0
                    } by {
                        assert(rest[j] == evs[j + 1]);
                        assert(text_of(evs[j + 1], key_event_hash()) is Some);
                        assert(text_of(evs[j], key_event_hash()) is Some);
                    }
                    assert(text_of(evs[0], key_event_hash()) is Some);
                }
                if chain_ok(evs, prev) {
                    assert forall|i: int| 0 <= i < evs.len() implies {
                        &&& #[trigger] text_of(evs[i], key_event_hash()) is Some
                        &&& text_of(evs[i], key_prev_hash()) == Some(running_hash(evs, prev, i))
                        &&& event_hash_of(remove_key(evs[i], key_event_hash()), running_hash(evs, prev, i))
                            == text_of(evs[i], key_event_hash())->0
                    } by {
                        if i > 0 {
                            assert(evs[i] == rest[i - 1]);
                            assert(text_of(rest[i - 1], key_event_hash()) is Some);
                            if i > 1 {
                                assert(evs[i - 1] == rest[i - 2]);
                                assert(text_of(rest[i - 2], key_event_hash()) is Some);
                            }
                            assert(text_of(evs[i - 1], key_event_hash()) is Some);
                        }
                    }
                }
            },
        }
    }
}

proof fn lemma_remove_absent(fs: EventView, key: Seq<char>)
    requires
        lookup(fs, key) is None,
    ensures
        remove_key(fs, key) == fs,
    decreases fs.len(),
{
    if fs.len() > 0 {
        lemma_remove_absent(fs.drop_first(), key);
        assert(seq![fs[0]] + fs.drop_first() =~= fs);
    }
}

/// Rebuilding a chain from `prev` keeps its length, records `prev` in the
/// first event, and yields a chain that verifies from `prev`.
pub proof fn lemma_rehash_chain(evs: Seq<EventView>, prev: Seq<char>)
    ensures
        rehash(evs, prev).len() == evs.len(),
        chain_ok(rehash(evs, prev), prev),
        evs.len() > 0 ==> stored_prev(rehash(evs, prev)[0]) == prev,
    decreases evs.len(),
{
    if evs.len() > 0 {
        lemma_keys_distinct();
        let x = set_key(evs[0], key_prev_hash(), FieldView::Text(prev));
        let base = remove_key(x, key_event_hash());
        let h = event_hash_of(base, prev);
        let e = set_key(base, key_event_hash(), FieldView::Text(h));
        lemma_rehash_chain(evs.drop_first(), h);
        lemma_set_key(base, key_event_hash(), FieldView::Text(h));
        lemma_set_key(evs[0], key_prev_hash(), FieldView::Text(prev));
        lemma_lookup_remove(x, key_event_hash(), key_prev_hash());
        lemma_remove_remove(x, key_event_hash());
        assert(lookup(e, key_prev_hash()) == lookup(base, key_prev_hash()));
        assert(stored_prev(e) == prev);
        assert(remove_key(e, key_event_hash()) == base);
        let r = rehash(evs, prev);
        assert(r[0] == e);
        assert(r.drop_first() =~= rehash(evs.drop_first(), h));
    }
}

/// Changing one member of one event of a verifying ledger makes it fail to
/// verify, where the member is `event_hash` or the digest tells the changed
/// event from the original.
pub proof fn lemma_tamper_detected(
    evs: Seq<EventView>,
    i: int,
    key: Seq<char>,
    v: FieldView,
)
    requires
        chain_ok(evs, root_hash()),
        0 <= i < evs.len(),
        lookup(evs[i], key) != Some(v),
        key == key_event_hash() || event_hash_of(
            remove_key(set_key(evs[i], key, v), key_event_hash()),
            stored_prev(evs[i]),
        ) != text_of(evs[i], key_event_hash())->0,
    ensures
        !chain_ok(evs.update(i, set_key(evs[i], key, v)), root_hash()),
{
    let e2 = set_key(evs[i], key, v);
    let t = evs.update(i, e2);
    lemma_chain_iff_links(evs, root_hash());
    lemma_chain_iff_links(t, root_hash());
    lemma_set_key(evs[i], key, v);
    lemma_keys_distinct();
    assert(text_of(evs[i], key_event_hash()) is Some);
    if chain_ok(t, root_hash()) {
        assert(text_of(t[i], key_event_hash()) is Some);
        assert(running_hash(t, root_hash(), i) == running_hash(evs, root_hash(), i));
        if key == key_event_hash() {
            assert(lookup(e2, key_prev_hash()) == lookup(evs[i], key_prev_hash()));
            assert(stored_prev(e2) == stored_prev(evs[i]));
            assert(remove_key(e2, key_event_hash()) == remove_key(evs[i], key_event_hash()));
            assert(false);
        } else {
            assert(lookup(e2, key_event_hash()) == lookup(evs[i], key_event_hash()));
            assert(false);
        }
    }
}

/// What a caller asks to record. Optional members pass through as given;
/// `metadata` holds the JSON text of an object.
#[derive(Debug, Clone)]
pub struct AuditPayload {
    pub action: Option<String>,
    pub actor_user_id: Option<String>,
    pub outcome: Option<String>,
    pub target_type: Option<JsonField>,
    pub target_id: Option<JsonField>,
    pub request_method: Option<JsonField>,
    pub request_path: Option<JsonField>,
    pub request_id: Option<JsonField>,
    pub metadata: Option<String>,
}

/// The trimmed text of a required member, if it is present and not blank.
pub open spec fn required_of(o: Option<String>) -> Option<Seq<char>> {
    match o {
        Some(s) => if trimmed(s@).len() > 0 {
            Some(trimmed(s@))
        } else {
            None
        },
        None => None,
    }
}

pub open spec fn opt_view(o: Option<String>) -> Option<Seq<char>> {
    match o {
        Some(s) => Some(s@),
        None => None,
    }
}

/// A pass-through member: as given, or JSON `null`.
pub open spec fn passthrough_of(o: Option<JsonField>) -> FieldView {
    match o {
        Some(v) => v@,
        None => FieldView::Raw("null"@),
    }
}

/// Whether an append request is well formed.
pub open spec fn request_ok(space_id: Seq<char>, p: AuditPayload) -> bool {
    valid_space_id(trimmed(space_id)) && required_of(p.action) is Some && required_of(
        p.actor_user_id,
    ) is Some
}

/// The new event's members other than `prev_hash` and `event_hash`, in key order.
pub open spec fn event_base(space: Seq<char>, p: AuditPayload, id: Seq<char>, ts: Seq<char>) -> EventView {
    seq![
        ("action"@, FieldView::Text(required_of(p.action)->0)),
        ("actor_user_id"@, FieldView::Text(required_of(p.actor_user_id)->0)),
        ("id"@, FieldView::Text(id)),
        ("metadata"@, FieldView::Raw(
            match p.metadata {
                Some(m) => m@,
                None => "{}"@,
            },
        )),
        ("outcome"@, FieldView::Text(outcome_of(opt_view(p.outcome)))),
        ("request_id"@, passthrough_of(p.request_id)),
        ("request_method"@, passthrough_of(p.request_method)),
        ("request_path"@, passthrough_of(p.request_path)),
        ("space_id"@, FieldView::Text(space)),
        ("target_id"@, passthrough_of(p.target_id)),
        ("target_type"@, passthrough_of(p.target_type)),
        ("timestamp"@, FieldView::Text(ts)),
    ]
}

/// A new event linked to `prev`: the base with `prev_hash` set, then its hash.
pub open spec fn new_event(base: EventView, prev: Seq<char>) -> EventView {
    let fs = set_key(base, key_prev_hash(), FieldView::Text(prev));
    set_key(fs, key_event_hash(), FieldView::Text(event_hash_of(fs, prev)))
}

/// Hash a new event links to: the last event's `event_hash`, else `"root"`.
pub open spec fn last_hash(evs: Seq<EventView>) -> Seq<char> {
    if evs.len() == 0 {
        root_hash()
    } else {
        match text_of(evs.last(), key_event_hash()) {
            Some(h) => h,
            None => root_hash(),
        }
    }
}

/// The ledger after appending `ev`: past the ceiling, the newest `retention`
/// events rehashed from `"root"`.
pub open spec fn appended(evs: Seq<EventView>, ev: EventView, retention: int) -> Seq<EventView> {
    let all = evs.push(ev);
    if all.len() > retention {
        rehash(all.skip(all.len() - retention), root_hash())
    } else {
        all
    }
}

fn required_text(o: &Option<String>) -> (r: Option<String>)
    ensures
        opt_view(r) == required_of(*o),
{
    match o {
        Some(s) => {
            let t = trim(&to_chars(s.as_str()));
            if t.len() > 0 {
                Some(string_of(&t))
            } else {
                None
            }
        },
        None => None,
    }
}

fn passthrough(o: &Option<JsonField>) -> (r: JsonField)
    ensures
        r@ == passthrough_of(*o),
{
    match o {
        Some(v) => v.duplicate(),
        None => JsonField::Raw("null".to_owned()),
    }
}

fn field(key: &str, value: JsonField) -> (r: Field)
    ensures
        r@ == (key@, value@),
{
    Field { key: key.to_owned(), value }
}

proof fn lemma_lookup_absent(fs: EventView, key: Seq<char>)
    requires
        forall|i: int| 0 <= i < fs.len() ==> #[trigger] fs[i].0 != key,
    ensures
        lookup(fs, key) is None,
    decreases fs.len(),
{
    if fs.len() > 0 {
        assert(fs[0].0 != key);
        assert forall|i: int| 0 <= i < fs.len() - 1 implies #[trigger] fs.drop_first()[i].0
            != key by {
            assert(fs.drop_first()[i] == fs[i + 1]);
        }
        lemma_lookup_absent(fs.drop_first(), key);
    }
}

/// A new event's base members hold no `event_hash` member.
proof fn lemma_base_keys(sp: Seq<char>, p: AuditPayload, id: Seq<char>, ts: Seq<char>)
    ensures
        lookup(event_base(sp, p, id, ts), key_event_hash()) is None,
{
    reveal_strlit("event_hash");
    reveal_strlit("action");
    reveal_strlit("actor_user_id");
    reveal_strlit("id");
    reveal_strlit("metadata");
    reveal_strlit("outcome");
    reveal_strlit("request_id");
    reveal_strlit("request_method");
    reveal_strlit("request_path");
    reveal_strlit("space_id");
    reveal_strlit("target_id");
    reveal_strlit("target_type");
    reveal_strlit("timestamp");
    let base = event_base(sp, p, id, ts);
    assert forall|i: int| 0 <= i < base.len() implies #[trigger] base[i].0 != key_event_hash() by {
        assert(base[i].0[0] != key_event_hash()[0]);
    }
    lemma_lookup_absent(base, key_event_hash());
}

/// Appends a new event stamped with a fresh `audit-` id and the current time.
pub fn record_event(
    events: Vec<AuditEvent>,
    space_id: &str,
    payload: &AuditPayload,
    retention_limit: Option<usize>,
) -> (r: Result<(Vec<AuditEvent>, AuditEvent), AuditError>)
    ensures
        match r {
            Ok((out, ev)) => {
                &&& request_ok(space_id@, *payload)
                &&& chain_ok(events_view(events@), root_hash())
                &&& exists|u: Seq<char>, ts: Seq<char>|
                    events_view(out@) == appended(
                        events_view(events@),
                        new_event(
                            event_base(trimmed(space_id@), *payload, "audit-"@ + u, ts),
                            last_hash(events_view(events@)),
                        ),
                        retention_of(retention_limit),
                    )
                &&& ev@ == events_view(out@).last()
            },
            Err(e) => if !request_ok(space_id@, *payload) {
                e == AuditError::InvalidArgument
            } else {
                !chain_ok(events_view(events@), root_hash()) && e == AuditError::IntegrityViolation
            },
        },
{
    let u = new_uuid_simple();
    let mut id = to_chars("audit-");
    append_chars(&mut id, &to_chars(u.as_str()));
    let ts = now_iso_millis();
    let r = append_event(events, space_id, payload, string_of(&id), ts, retention_limit);
    proof {
        if r is Ok {
            assert(id@ == "audit-"@ + u@);
        }
    }
    r
}

/// Appends a new event to a ledger, trimming and rehashing past the retention ceiling.
/// Returns the new ledger and the new event as stored.
pub fn append_event(
    events: Vec<AuditEvent>,
    space_id: &str,
    payload: &AuditPayload,
    id: String,
    timestamp: String,
    retention_limit: Option<usize>,
) -> (r: Result<(Vec<AuditEvent>, AuditEvent), AuditError>)
    ensures
        match r {
            Ok((out, ev)) => {
                &&& request_ok(space_id@, *payload)
                &&& chain_ok(events_view(events@), root_hash())
                &&& events_view(out@) == appended(
                    events_view(events@),
                    new_event(
                        event_base(trimmed(space_id@), *payload, id@, timestamp@),
                        last_hash(events_view(events@)),
                    ),
                    retention_of(retention_limit),
                )
                &&& ev@ == events_view(out@).last()
            },
            Err(e) => if !request_ok(space_id@, *payload) {
                e == AuditError::InvalidArgument
            } else {
                !chain_ok(events_view(events@), root_hash()) && e == AuditError::IntegrityViolation
            },
        },
{
    let sid = match validate_space_id(space_id) {
        Ok(s) => s,
        Err(e) => {
            return Err(e);
        },
    };
    let action = match required_text(&payload.action) {
        Some(a) => a,
        None => {
            return Err(AuditError::InvalidArgument);
        },
    };
    let actor = match required_text(&payload.actor_user_id) {
        Some(a) => a,
        None => {
            return Err(AuditError::InvalidArgument);
        },
    };
    match verify_chain(&events) {
        Ok(()) => {},
        Err(e) => {
            return Err(e);
        },
    }
    let ghost ev0 = events_view(events@);
    let key_eh = to_chars("event_hash");
    let key_ph = to_chars("prev_hash");
    let prev: String = if events.len() == 0 {
        "root".to_owned()
    } else {
        assert(ev0.last() == events@[events@.len() - 1]@);
        match events[events.len() - 1].get_text(&key_eh) {
            Some(h) => h.clone(),
            None => "root".to_owned(),
        }
    };
    let metadata = match &payload.metadata {
        Some(m) => m.clone(),
        None => "{}".to_owned(),
    };
    let mut fields: Vec<Field> = Vec::new();
    fields.push(field("action", JsonField::Text(action)));
    fields.push(field("actor_user_id", JsonField::Text(actor)));
    fields.push(field("id", JsonField::Text(id)));
    fields.push(field("metadata", JsonField::Raw(metadata)));
    let outcome = match &payload.outcome {
        Some(o) => normalize_outcome(Some(o.as_str())),
        None => normalize_outcome(None),
    };
    fields.push(field("outcome", JsonField::Text(outcome)));
    fields.push(field("request_id", passthrough(&payload.request_id)));
    fields.push(field("request_method", passthrough(&payload.request_method)));
    fields.push(field("request_path", passthrough(&payload.request_path)));
    fields.push(field("space_id", JsonField::Text(sid)));
    fields.push(field("target_id", passthrough(&payload.target_id)));
    fields.push(field("target_type", passthrough(&payload.target_type)));
    fields.push(field("timestamp", JsonField::Text(timestamp)));
    let mut ev = AuditEvent { fields };
    assert(ev@ =~= event_base(trimmed(space_id@), *payload, id@, timestamp@));
    let prev_chars = to_chars(prev.as_str());
    ev.set(&key_ph, JsonField::Text(prev));
    let h = compute_event_hash(&ev, &prev_chars);
    ev.set(&key_eh, JsonField::Text(h));
    let ghost new_ev = ev@;
    let mut events = events;
    events.push(ev);
    assert(events_view(events@) =~= ev0.push(new_ev));
    let retention = normalize_retention_limit(retention_limit);
    if events.len() > retention {
        let start = events.len() - retention;
        let mut kept = events.split_off(start);
        assert(events_view(kept@) =~= ev0.push(new_ev).skip(start as int));
        rehash_chain(&mut kept);
        events = kept;
    }
    proof {
        if ev0.len() + 1 > retention {
            lemma_rehash_chain(ev0.push(new_ev).skip(ev0.len() + 1 - retention), root_hash());
        }
        assert(events_view(events@).len() == events@.len());
    }
    assert(events@.len() > 0);
    let last = events[events.len() - 1].duplicate();
    Ok((events, last))
}

/// A new event linked to `prev` verifies on its own from `prev`.
proof fn lemma_new_event_links(base: EventView, prev: Seq<char>)
    requires
        lookup(base, key_event_hash()) is None,
    ensures
        chain_ok(seq![new_event(base, prev)], prev),
        stored_prev(new_event(base, prev)) == prev,
{
    lemma_keys_distinct();
    let fs = set_key(base, key_prev_hash(), FieldView::Text(prev));
    let h = event_hash_of(fs, prev);
    let e = new_event(base, prev);
    lemma_set_key(base, key_prev_hash(), FieldView::Text(prev));
    lemma_set_key(fs, key_event_hash(), FieldView::Text(h));
    assert(lookup(fs, key_event_hash()) == lookup(base, key_event_hash()));
    lemma_remove_absent(fs, key_event_hash());
    assert(lookup(e, key_prev_hash()) == lookup(fs, key_prev_hash()));
    assert(remove_key(e, key_event_hash()) == fs);
    assert(text_of(e, key_event_hash()) == Some(h));
    assert(text_of(e, key_prev_hash()) == Some(prev));
    assert(stored_prev(e) == prev);
    let one = seq![e];
    assert(one[0] == e);
    assert(one.drop_first() =~= Seq::<EventView>::empty());
    assert(chain_ok(one.drop_first(), h));
}

/// The hash a chain check ends on, after `evs` started from `prev`.
pub open spec fn last_from(evs: Seq<EventView>, prev: Seq<char>) -> Seq<char> {
    if evs.len() == 0 {
        prev
    } else {
        match text_of(evs.last(), key_event_hash()) {
            Some(h) => h,
            None => prev,
        }
    }
}

proof fn lemma_chain_last_some(evs: Seq<EventView>, prev: Seq<char>)
    requires
        chain_ok(evs, prev),
        evs.len() > 0,
    ensures
        text_of(evs.last(), key_event_hash()) is Some,
    decreases evs.len(),
{
    if evs.len() > 1 {
        let h = text_of(evs[0], key_event_hash())->0;
        lemma_chain_last_some(evs.drop_first(), h);
        assert(evs.drop_first().last() == evs.last());
    }
}

proof fn lemma_chain_push(evs: Seq<EventView>, prev: Seq<char>, e: EventView)
    requires
        chain_ok(evs, prev),
        chain_ok(seq![e], last_from(evs, prev)),
    ensures
        chain_ok(evs.push(e), prev),
    decreases evs.len(),
{
    if evs.len() == 0 {
        assert(evs.push(e) =~= seq![e]);
    } else {
        let h = text_of(evs[0], key_event_hash())->0;
        let rest = evs.drop_first();
        if rest.len() > 0 {
            lemma_chain_last_some(rest, h);
            assert(rest.last() == evs.last());
        }
        assert(last_from(rest, h) == last_from(evs, prev));
        lemma_chain_push(rest, h, e);
        assert(evs.push(e).drop_first() =~= rest.push(e));
        assert(evs.push(e)[0] == evs[0]);
    }
}

/// The append law for any base without an `event_hash` member.
proof fn lemma_append_base(evs: Seq<EventView>, base: EventView, retention: int)
    requires
        chain_ok(evs, root_hash()),
        lookup(base, key_event_hash()) is None,
        retention >= 1,
    ensures
        chain_ok(appended(evs, new_event(base, last_hash(evs)), retention), root_hash()),
        evs.len() + 1 <= retention ==> {
            let out = appended(evs, new_event(base, last_hash(evs)), retention);
            &&& out.len() == evs.len() + 1
            &&& out.drop_last() == evs
            &&& stored_prev(out.last()) == last_hash(evs)
        },
        evs.len() + 1 > retention ==> {
            let out = appended(evs, new_event(base, last_hash(evs)), retention);
            &&& out.len() == retention
            &&& stored_prev(out[0]) == root_hash()
        },
{
    let e = new_event(base, last_hash(evs));
    let all = evs.push(e);
    if all.len() > retention {
        lemma_rehash_chain(all.skip(all.len() - retention), root_hash());
    } else {
        lemma_new_event_links(base, last_hash(evs));
        assert(last_from(evs, root_hash()) == last_hash(evs));
        lemma_chain_push(evs, root_hash(), e);
        assert(all.drop_last() =~= evs);
    }
}

/// Paging and filters for listing a ledger.
#[derive(Debug, Clone)]
pub struct AuditListOptions {
    pub offset: usize,
    pub limit: usize,
    pub action: Option<String>,
    pub actor_user_id: Option<String>,
    pub outcome: Option<String>,
}

impl Default for AuditListOptions {
    fn default() -> (r: Self)
        ensures
            r.offset == 0,
            r.limit == DEFAULT_AUDIT_LIMIT,
            r.action is None,
            r.actor_user_id is None,
            r.outcome is None,
    {
        AuditListOptions {
            offset: 0,
            limit: DEFAULT_AUDIT_LIMIT,
            action: None,
            actor_user_id: None,
            outcome: None,
        }
    }
}

/// One page of a listing.
#[derive(Debug, Clone)]
pub struct AuditPage {
    /// Matching events, newest first, from `offset` on, at most `limit` of them.
    pub items: Vec<AuditEvent>,
    /// How many events match the filters.
    pub total: usize,
    pub offset: usize,
    pub limit: usize,
}

/// The outcome filter: trimmed and lowercased, if not blank.
pub open spec fn outcome_filter_of(o: Option<String>) -> Option<Seq<char>> {
    match o {
        Some(s) => if lower_of(trimmed(s@)).len() > 0 {
            Some(lower_of(trimmed(s@)))
        } else {
            None
        },
        None => None,
    }
}

/// Whether the string member `key` equals the filter, where there is one.
pub open spec fn member_matches(e: EventView, key: Seq<char>, want: Option<Seq<char>>) -> bool {
    want is Some ==> text_of(e, key) == want
}

/// Whether an event passes all three filters.
pub open spec fn matches(
    e: EventView,
    action: Option<Seq<char>>,
    actor: Option<Seq<char>>,
    outcome: Option<Seq<char>>,
) -> bool {
    member_matches(e, "action"@, action) && member_matches(e, "actor_user_id"@, actor)
        && member_matches(e, "outcome"@, outcome)
}

/// The events that pass the filters, in ledger order.
pub open spec fn filtered(
    evs: Seq<EventView>,
    action: Option<Seq<char>>,
    actor: Option<Seq<char>>,
    outcome: Option<Seq<char>>,
) -> Seq<EventView>
    decreases evs.len(),
{
    if evs.len() == 0 {
        evs
    } else {
        let sub = filtered(evs.drop_last(), action, actor, outcome);
        if matches(evs.last(), action, actor, outcome) {
            sub.push(evs.last())
        } else {
            sub
        }
    }
}

/// An event's `timestamp` string, or the empty string.
pub open spec fn ts_of(e: EventView) -> Seq<char> {
    match text_of(e, "timestamp"@) {
        Some(t) => t,
        None => Seq::empty(),
    }
}

/// `x` placed after every event of `s` whose timestamp is not older.
pub open spec fn insert_desc(s: Seq<EventView>, x: EventView) -> Seq<EventView>
    decreases s.len(),
{
    if s.len() > 0 && lex_lt(ts_of(s.last()), ts_of(x)) {
        insert_desc(s.drop_last(), x).push(s.last())
    } else {
        s.push(x)
    }
}

/// Stable sort by timestamp, newest first.
pub open spec fn sort_desc(s: Seq<EventView>) -> Seq<EventView>
    decreases s.len(),
{
    if s.len() == 0 {
        s
    } else {
        insert_desc(sort_desc(s.drop_last()), s.last())
    }
}

/// Page size: clamped to `[1, 500]`.
pub open spec fn limit_of(limit: usize) -> int {
    if limit < 1 {
        1
    } else if limit > MAX_AUDIT_LIMIT {
        MAX_AUDIT_LIMIT as int
    } else {
        limit as int
    }
}

/// Events `offset .. offset + limit` of `s`, as far as they exist.
pub open spec fn page_of(s: Seq<EventView>, offset: int, limit: int) -> Seq<EventView> {
    let lo = if offset < s.len() {
        offset
    } else {
        s.len() as int
    };
    let hi = if offset + limit < s.len() {
        offset + limit
    } else {
        s.len() as int
    };
    s.subrange(lo, hi)
}

fn outcome_filter(o: &Option<String>) -> (r: Option<String>)
    ensures
        opt_view(r) == outcome_filter_of(*o),
{
    match o {
        Some(s) => {
            let t = string_of(&trim(&to_chars(s.as_str())));
            let l = lowercase(t.as_str());
            if to_chars(l.as_str()).len() > 0 {
                Some(l)
            } else {
                None
            }
        },
        None => None,
    }
}

fn member_matches_exec(e: &AuditEvent, key: &str, want: &Option<String>) -> (r: bool)
    ensures
        r == member_matches(e@, key@, opt_view(*want)),
{
    match want {
        Some(w) => match e.get_text(&to_chars(key)) {
            Some(v) => *v == *w,
            None => false,
        },
        None => true,
    }
}

fn ts_exec(e: &AuditEvent) -> (r: Vec<char>)
    ensures
        r@ == ts_of(e@),
{
    match e.get_text(&to_chars("timestamp")) {
        Some(t) => to_chars(t.as_str()),
        None => Vec::new(),
    }
}

/// Inserts `x` into a newest-first list, after the events that are not older.
fn insert_desc_exec(s: &mut Vec<AuditEvent>, x: AuditEvent)
    ensures
        events_view(final(s)@) == insert_desc(events_view(old(s)@), x@),
{
    let ghost orig = events_view(s@);
    let tx = ts_exec(&x);
    let mut pos: usize = s.len();
    assert(orig.take(pos as int) =~= orig);
    assert(orig.skip(pos as int) =~= Seq::<EventView>::empty());
    while pos > 0 && chars_lt(&ts_exec(&s[pos - 1]), &tx)
        invariant
            pos <= s@.len(),
            orig == events_view(s@),
            tx@ == ts_of(x@),
            insert_desc(orig, x@) == insert_desc(orig.take(pos as int), x@) + orig.skip(pos as int),
        decreases pos,
    {
        proof {
            let t = orig.take(pos as int);
            assert(orig[pos - 1] == s@[pos - 1]@);
            assert(t.last() == s@[pos - 1]@);
            assert(t.drop_last() =~= orig.take(pos as int - 1));
            assert(orig.skip(pos as int - 1) =~= seq![t.last()] + orig.skip(pos as int));
            assert(insert_desc(t, x@) == insert_desc(t.drop_last(), x@).push(t.last()));
            assert(insert_desc(t.drop_last(), x@).push(t.last()) + orig.skip(pos as int)
                =~= insert_desc(t.drop_last(), x@) + orig.skip(pos as int - 1));
        }
        pos -= 1;
    }
    proof {
        let t = orig.take(pos as int);
        if pos > 0 {
            assert(orig[pos - 1] == s@[pos - 1]@);
            assert(t.last() == s@[pos - 1]@);
        }
        assert(insert_desc(t, x@) == t.push(x@));
    }
    s.insert(pos, x);
    assert(events_view(s@) =~= orig.take(pos as int).push(x@) + orig.skip(pos as int));
}

/// Lists a ledger: filters, newest first, one page.
pub fn list_events(events: &[AuditEvent], options: &AuditListOptions) -> (r: Result<
    AuditPage,
    AuditError,
>)
    ensures
        match r {
            Ok(p) => {
                let f = filtered(
                    events_view(events@),
                    required_of(options.action),
                    required_of(options.actor_user_id),
                    outcome_filter_of(options.outcome),
                );
                &&& chain_ok(events_view(events@), root_hash())
                &&& p.total == f.len()
                &&& p.offset == options.offset
                &&& p.limit == limit_of(options.limit)
                &&& events_view(p.items@) == page_of(sort_desc(f), p.offset as int, p.limit as int)
            },
            Err(e) => !chain_ok(events_view(events@), root_hash()) && e
                == AuditError::IntegrityViolation,
        },
{
    match verify_chain(events) {
        Ok(()) => {},
        Err(e) => {
            return Err(e);
        },
    }
    let ghost all = events_view(events@);
    let action = required_text(&options.action);
    let actor = required_text(&options.actor_user_id);
    let outcome = outcome_filter(&options.outcome);
    let ghost (fa, fu, fo) = (opt_view(action), opt_view(actor), opt_view(outcome));
    let mut sorted: Vec<AuditEvent> = Vec::new();
    let mut total: usize = 0;
    let mut i: usize = 0;
    assert(all.take(0) =~= Seq::<EventView>::empty());
    while i < events.len()
        invariant
            i <= events@.len(),
            all == events_view(events@),
            fa == opt_view(action),
            fu == opt_view(actor),
            fo == opt_view(outcome),
            total as int == filtered(all.take(i as int), fa, fu, fo).len(),
            total <= i,
            events_view(sorted@) == sort_desc(filtered(all.take(i as int), fa, fu, fo)),
        decreases events@.len() - i,
    {
        let e = &events[i];
        let ghost t = all.take(i as int + 1);
        assert(t.drop_last() =~= all.take(i as int));
        assert(t.last() == e@);
        let ghost fprev = filtered(all.take(i as int), fa, fu, fo);
        if member_matches_exec(e, "action", &action) && member_matches_exec(
            e,
            "actor_user_id",
            &actor,
        ) && member_matches_exec(e, "outcome", &outcome) {
            insert_desc_exec(&mut sorted, e.duplicate());
            total += 1;
            assert(filtered(t, fa, fu, fo) == fprev.push(e@));
            assert(fprev.push(e@).drop_last() =~= fprev);
            assert(sort_desc(fprev.push(e@)) == insert_desc(sort_desc(fprev), e@));
        } else {
            assert(filtered(t, fa, fu, fo) == fprev);
        }
        i += 1;
    }
    assert(all.take(i as int) =~= all);
    let limit = if options.limit < 1 {
        1
    } else if options.limit > MAX_AUDIT_LIMIT {
        MAX_AUDIT_LIMIT
    } else {
        options.limit
    };
    let offset = options.offset;
    let n = sorted.len();
    let lo = if offset < n {
        offset
    } else {
        n
    };
    let hi = if offset < n && limit < n - offset {
        offset + limit
    } else {
        n
    };
    let mut items: Vec<AuditEvent> = Vec::new();
    let mut j = lo;
    let ghost srt = events_view(sorted@);
    while j < hi
        invariant
            lo <= j <= hi <= n == sorted@.len(),
            srt == events_view(sorted@),
            events_view(items@) == srt.subrange(lo as int, j as int),
        decreases hi - j,
    {
        let ghost before = items@;
        items.push(sorted[j].duplicate());
        assert(events_view(items@) =~= events_view(before).push(srt[j as int]));
        assert(srt.subrange(lo as int, j as int + 1) =~= srt.subrange(lo as int, j as int).push(
            srt[j as int],
        ));
        j += 1;
    }
    proof {
        lemma_sort_len(filtered(all, fa, fu, fo));
    }
    Ok(AuditPage { items, total, offset, limit })
}

proof fn lemma_insert_len(s: Seq<EventView>, x: EventView)
    ensures
        insert_desc(s, x).len() == s.len() + 1,
    decreases s.len(),
{
    if s.len() > 0 && lex_lt(ts_of(s.last()), ts_of(x)) {
        lemma_insert_len(s.drop_last(), x);
    }
}

proof fn lemma_sort_len(s: Seq<EventView>)
    ensures
        sort_desc(s).len() == s.len(),
    decreases s.len(),
{
    if s.len() > 0 {
        lemma_sort_len(s.drop_last());
        lemma_insert_len(sort_desc(s.drop_last()), s.last());
    }
}

/// Newest first: no event's timestamp sorts before the next one's.
pub open spec fn newest_first(s: Seq<EventView>) -> bool {
    forall|i: int| 0 <= i < s.len() - 1 ==> !lex_lt(#[trigger] ts_of(s[i]), ts_of(s[i + 1]))
}

proof fn lemma_filtered_matches(
    evs: Seq<EventView>,
    a: Option<Seq<char>>,
    u: Option<Seq<char>>,
    o: Option<Seq<char>>,
)
    ensures
        forall|y: EventView| #[trigger] filtered(evs, a, u, o).contains(y) ==> matches(y, a, u, o),
    decreases evs.len(),
{
    if evs.len() > 0 {
        lemma_filtered_matches(evs.drop_last(), a, u, o);
        let sub = filtered(evs.drop_last(), a, u, o);
        assert forall|y: EventView| #[trigger] filtered(evs, a, u, o).contains(y) implies matches(
            y,
            a,
            u,
            o,
        ) by {
            if matches(evs.last(), a, u, o) {
                let f = sub.push(evs.last());
                let i = choose|i: int| 0 <= i < f.len() && f[i] == y;
                if i < sub.len() {
                    assert(sub[i] == y);
                    assert(sub.contains(y));
                }
            }
        }
    }
}

proof fn lemma_insert_desc(s: Seq<EventView>, x: EventView)
    requires
        newest_first(s),
    ensures
        newest_first(insert_desc(s, x)),
        insert_desc(s, x).len() == s.len() + 1,
        insert_desc(s, x).last() == x || (s.len() > 0 && insert_desc(s, x).last() == s.last()),
        forall|y: EventView| #[trigger] insert_desc(s, x).contains(y) ==> s.contains(y) || y == x,
    decreases s.len(),
{
    if s.len() > 0 && lex_lt(ts_of(s.last()), ts_of(x)) {
        let d = s.drop_last();
        assert forall|i: int| 0 <= i < d.len() - 1 implies !lex_lt(#[trigger] ts_of(d[i]), ts_of(d[i + 1])) by {
            assert(d[i] == s[i] && d[i + 1] == s[i + 1]);
            assert(!lex_lt(ts_of(s[i]), ts_of(s[i + 1])));
        }
        lemma_insert_desc(d, x);
        let r1 = insert_desc(d, x);
        let r = r1.push(s.last());
        if r1.last() == x {
            if lex_lt(ts_of(x), ts_of(s.last())) {
                lemma_lex_trans(ts_of(x), ts_of(s.last()), ts_of(x));
                lemma_lex_irreflexive(ts_of(x));
            }
        } else {
            assert(d.last() == s[s.len() - 2]);
            assert(!lex_lt(ts_of(s[s.len() - 2]), ts_of(s[s.len() - 1])));
        }
        assert forall|i: int| 0 <= i < r.len() - 1 implies !lex_lt(#[trigger] ts_of(r[i]), ts_of(r[i + 1])) by {
            if i < r1.len() - 1 {
                assert(r[i] == r1[i] && r[i + 1] == r1[i + 1]);
                assert(!lex_lt(ts_of(r1[i]), ts_of(r1[i + 1])));
            } else {
                assert(r[i] == r1.last());
            }
        }
        assert forall|y: EventView| #[trigger] r.contains(y) implies s.contains(y) || y == x by {
            let i = choose|i: int| 0 <= i < r.len() && r[i] == y;
            if i < r1.len() {
                assert(r1[i] == y);
                assert(r1.contains(y));
                if d.contains(y) {
                    let j = choose|j: int| 0 <= j < d.len() && d[j] == y;
                    assert(s[j] == y);
                }
            } else {
                assert(s[s.len() - 1] == y);
            }
        }
    } else {
        let r = s.push(x);
        assert forall|i: int| 0 <= i < r.len() - 1 implies !lex_lt(#[trigger] ts_of(r[i]), ts_of(r[i + 1])) by {
            if i < s.len() - 1 {
                assert(r[i] == s[i] && r[i + 1] == s[i + 1]);
                assert(!lex_lt(ts_of(s[i]), ts_of(s[i + 1])));
            }
        }
        assert forall|y: EventView| #[trigger] r.contains(y) implies s.contains(y) || y == x by {
            let i = choose|i: int| 0 <= i < r.len() && r[i] == y;
            if i < s.len() {
                assert(s[i] == y);
            }
        }
    }
}

proof fn lemma_sort_desc(s: Seq<EventView>)
    ensures
        newest_first(sort_desc(s)),
        forall|y: EventView| #[trigger] sort_desc(s).contains(y) ==> s.contains(y),
    decreases s.len(),
{
    if s.len() > 0 {
        let d = s.drop_last();
        lemma_sort_desc(d);
        lemma_insert_desc(sort_desc(d), s.last());
        assert forall|y: EventView| #[trigger] sort_desc(s).contains(y) implies s.contains(y) by {
            if sort_desc(d).contains(y) {
                assert(d.contains(y));
                let j = choose|j: int| 0 <= j < d.len() && d[j] == y;
                assert(s[j] == y);
            } else {
                assert(s[s.len() - 1] == y);
            }
        }
    }
}

/// A listed page holds only events that pass the filters, newest first.
pub proof fn lemma_list_page(
    evs: Seq<EventView>,
    action: Option<Seq<char>>,
    actor: Option<Seq<char>>,
    outcome: Option<Seq<char>>,
    offset: int,
    limit: int,
)
    requires
        0 <= offset,
        0 <= limit,
    ensures
        forall|i: int|
            0 <= i < page_of(sort_desc(filtered(evs, action, actor, outcome)), offset, limit).len()
                ==> matches(
                #[trigger] page_of(sort_desc(filtered(evs, action, actor, outcome)), offset, limit)[i],
                action,
                actor,
                outcome,
            ),
        newest_first(page_of(sort_desc(filtered(evs, action, actor, outcome)), offset, limit)),
{
    let f = filtered(evs, action, actor, outcome);
    let srt = sort_desc(f);
    let p = page_of(srt, offset, limit);
    lemma_filtered_matches(evs, action, actor, outcome);
    lemma_sort_desc(f);
    let lo = if offset < srt.len() {
        offset
    } else {
        srt.len() as int
    };
    assert forall|i: int| 0 <= i < p.len() implies matches(#[trigger] p[i], action, actor, outcome) by {
        assert(p[i] == srt[lo + i]);
        assert(srt.contains(srt[lo + i]));
        assert(f.contains(p[i]));
    }
    assert forall|i: int| 0 <= i < p.len() - 1 implies !lex_lt(#[trigger] ts_of(p[i]), ts_of(p[i + 1])) by {
        assert(p[i] == srt[lo + i] && p[i + 1] == srt[lo + i + 1]);
        assert(!lex_lt(ts_of(srt[lo + i]), ts_of(srt[lo + i + 1])));
    }
}

/// Appending to a verifying ledger, as `append_event` does, yields a
/// verifying ledger. Within the retention ceiling it is the old ledger
/// followed by the new event, which records the previous last event's hash
/// (`"root"` for the first); past the ceiling it holds exactly `retention`
/// events and the first records `"root"`.
pub proof fn lemma_append_keeps_chain(
    evs: Seq<EventView>,
    space_id: Seq<char>,
    p: AuditPayload,
    id: Seq<char>,
    ts: Seq<char>,
    retention_limit: Option<usize>,
)
    requires
        chain_ok(evs, root_hash()),
    ensures
        ({
            let e = new_event(event_base(trimmed(space_id), p, id, ts), last_hash(evs));
            let n = retention_of(retention_limit);
            let out = appended(evs, e, n);
            &&& chain_ok(out, root_hash())
            &&& evs.len() + 1 <= n ==> out.len() == evs.len() + 1 && out.drop_last() == evs
                && stored_prev(out.last()) == last_hash(evs)
            &&& evs.len() + 1 > n ==> out.len() == n && stored_prev(out[0]) == root_hash()
        }),
{
    let base = event_base(trimmed(space_id), p, id, ts);
    lemma_base_keys(trimmed(space_id), p, id, ts);
    lemma_append_base(evs, base, retention_of(retention_limit));
}

} // verus!
