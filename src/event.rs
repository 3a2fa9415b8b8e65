//! Audit events as ordered JSON members, their canonical text and their chain hash.

use vstd::prelude::*;
use vstd::utf8::encode_utf8;
use crate::crypto::{hex_encode, hex_of, sha256_digest, sha256_of};
use crate::json::{json_quote, json_quoted};
use crate::text::{chars_eq, lex_lt, string_of, to_chars, chars_lt};

verus! {

/// A member value: a JSON string, or the compact JSON text of any other value.
pub enum FieldView {
    Text(Seq<char>),
    Raw(Seq<char>),
}

/// An event's members, in order.
pub type EventView = Seq<(Seq<char>, FieldView)>;

/// The value of one member of an event.
#[derive(Debug, Clone)]
pub enum JsonField {
    /// A JSON string, unescaped.
    Text(String),
    /// The compact JSON text of a value that is not a string (`null`, a number, an object...).
    Raw(String),
}

impl View for JsonField {
    type V = FieldView;

    open spec fn view(&self) -> FieldView {
        match self {
            JsonField::Text(s) => FieldView::Text(s@),
            JsonField::Raw(s) => FieldView::Raw(s@),
        }
    }
}

impl JsonField {
    /// A copy of the value.
    pub fn duplicate(&self) -> (r: JsonField)
        ensures
            r@ == self@,
    {
        match self {
            JsonField::Text(s) => JsonField::Text(s.clone()),
            JsonField::Raw(s) => JsonField::Raw(s.clone()),
        }
    }
}

/// One member of an event: its key and value.
#[derive(Debug, Clone)]
pub struct Field {
    pub key: String,
    pub value: JsonField,
}

impl View for Field {
    type V = (Seq<char>, FieldView);

    open spec fn view(&self) -> (Seq<char>, FieldView) {
        (self.key@, self.value@)
    }
}

/// An audit event: a JSON object whose members are kept in key order.
#[derive(Debug, Clone)]
pub struct AuditEvent {
    pub fields: Vec<Field>,
}

impl View for AuditEvent {
    type V = EventView;

    open spec fn view(&self) -> EventView {
        self.fields@.map_values(|f: Field| f@)
    }
}

/// Views of a sequence of events.
pub open spec fn events_view(evs: Seq<AuditEvent>) -> Seq<EventView> {
    evs.map_values(|e: AuditEvent| e@)
}

/// The value under `key`, if the event has that member.
pub open spec fn lookup(fs: EventView, key: Seq<char>) -> Option<FieldView>
    decreases fs.len(),
{
    if fs.len() == 0 {
        None
    } else if fs[0].0 == key {
        Some(fs[0].1)
    } else {
        lookup(fs.drop_first(), key)
    }
}

/// The string under `key`, if that member is a JSON string.
pub open spec fn text_of(fs: EventView, key: Seq<char>) -> Option<Seq<char>> {
    match lookup(fs, key) {
        Some(FieldView::Text(s)) => Some(s),
        _ => None,
    }
}

/// The event without the member `key`.
pub open spec fn remove_key(fs: EventView, key: Seq<char>) -> EventView
    decreases fs.len(),
{
    if fs.len() == 0 {
        fs
    } else if fs[0].0 == key {
        remove_key(fs.drop_first(), key)
    } else {
        seq![fs[0]] + remove_key(fs.drop_first(), key)
    }
}

/// `(key, v)` placed before the first member whose key sorts after `key`.
pub open spec fn insert_sorted(fs: EventView, key: Seq<char>, v: FieldView) -> EventView
    decreases fs.len(),
{
    if fs.len() == 0 || lex_lt(key, fs[0].0) {
        seq![(key, v)] + fs
    } else {
        seq![fs[0]] + insert_sorted(fs.drop_first(), key, v)
    }
}

/// The event with member `key` set to `v`, as a key-ordered map sets it.
pub open spec fn set_key(fs: EventView, key: Seq<char>, v: FieldView) -> EventView {
    insert_sorted(remove_key(fs, key), key, v)
}

/// JSON text of a member value.
pub open spec fn value_text(v: FieldView) -> Seq<char> {
    match v {
        FieldView::Text(s) => json_quoted(s),
        FieldView::Raw(t) => t,
    }
}

/// JSON text of one member: quoted key, colon, value.
pub open spec fn member_text(f: (Seq<char>, FieldView)) -> Seq<char> {
    json_quoted(f.0) + seq![':'] + value_text(f.1)
}

/// Members' text, separated by commas.
pub open spec fn members_text(fs: EventView) -> Seq<char>
    decreases fs.len(),
{
    if fs.len() == 0 {
        Seq::empty()
    } else if fs.len() == 1 {
        member_text(fs[0])
    } else {
        members_text(fs.drop_last()) + seq![','] + member_text(fs.last())
    }
}

/// Canonical serialization: compact JSON text of the object, members in stored order.
pub open spec fn object_text(fs: EventView) -> Seq<char> {
    seq!['{'] + members_text(fs) + seq!['}']
}

/// The text that is hashed: the predecessor's hash, a colon, the canonical serialization.
pub open spec fn hash_material(fs: EventView, prev: Seq<char>) -> Seq<char> {
    prev + seq![':'] + object_text(fs)
}

/// Hex SHA-256 of the UTF-8 encoding of the hash material.
pub open spec fn event_hash_of(fs: EventView, prev: Seq<char>) -> Seq<char> {
    hex_of(sha256_of(encode_utf8(hash_material(fs, prev))))
}

pub proof fn lemma_lookup_remove(fs: EventView, key: Seq<char>, k2: Seq<char>)
    ensures
        lookup(remove_key(fs, key), k2) == (if k2 == key {
            None
        } else {
            lookup(fs, k2)
        }),
    decreases fs.len(),
{
    if fs.len() > 0 {
        lemma_lookup_remove(fs.drop_first(), key, k2);
        if fs[0].0 != key {
            let r = seq![fs[0]] + remove_key(fs.drop_first(), key);
            assert(r.drop_first() =~= remove_key(fs.drop_first(), key));
        }
    }
}

pub proof fn lemma_lookup_insert(fs: EventView, key: Seq<char>, v: FieldView, k2: Seq<char>)
    requires
        lookup(fs, key) is None,
    ensures
        lookup(insert_sorted(fs, key, v), k2) == (if k2 == key {
            Some(v)
        } else {
            lookup(fs, k2)
        }),
    decreases fs.len(),
{
    if fs.len() == 0 || lex_lt(key, fs[0].0) {
        let r = seq![(key, v)] + fs;
        assert(r.drop_first() =~= fs);
    } else {
        lemma_lookup_insert(fs.drop_first(), key, v, k2);
        let r = seq![fs[0]] + insert_sorted(fs.drop_first(), key, v);
        assert(r.drop_first() =~= insert_sorted(fs.drop_first(), key, v));
    }
}

pub proof fn lemma_remove_remove(fs: EventView, key: Seq<char>)
    ensures
        remove_key(remove_key(fs, key), key) == remove_key(fs, key),
    decreases fs.len(),
{
    if fs.len() > 0 {
        lemma_remove_remove(fs.drop_first(), key);
        if fs[0].0 != key {
            let r = seq![fs[0]] + remove_key(fs.drop_first(), key);
            assert(r.drop_first() =~= remove_key(fs.drop_first(), key));
        }
    }
}

pub proof fn lemma_remove_insert(fs: EventView, key: Seq<char>, v: FieldView)
    requires
        lookup(fs, key) is None,
    ensures
        remove_key(insert_sorted(fs, key, v), key) == remove_key(fs, key),
    decreases fs.len(),
{
    if fs.len() == 0 || lex_lt(key, fs[0].0) {
        let r = seq![(key, v)] + fs;
        assert(r.drop_first() =~= fs);
    } else {
        lemma_remove_insert(fs.drop_first(), key, v);
        let r = seq![fs[0]] + insert_sorted(fs.drop_first(), key, v);
        assert(r.drop_first() =~= insert_sorted(fs.drop_first(), key, v));
    }
}

/// What `set_key` leaves to be read back.
pub proof fn lemma_set_key(fs: EventView, key: Seq<char>, v: FieldView)
    ensures
        lookup(set_key(fs, key, v), key) == Some(v),
        forall|k2: Seq<char>|
            k2 != key ==> #[trigger] lookup(set_key(fs, key, v), k2) == lookup(fs, k2),
        remove_key(set_key(fs, key, v), key) == remove_key(fs, key),
{
    lemma_lookup_remove(fs, key, key);
    lemma_lookup_insert(remove_key(fs, key), key, v, key);
    assert forall|k2: Seq<char>| k2 != key implies #[trigger] lookup(set_key(fs, key, v), k2)
        == lookup(fs, k2) by {
        lemma_lookup_remove(fs, key, k2);
        lemma_lookup_insert(remove_key(fs, key), key, v, k2);
    }
    lemma_remove_insert(remove_key(fs, key), key, v);
    lemma_remove_remove(fs, key);
}

impl AuditEvent {
    /// A copy with the same members in the same order.
    pub fn duplicate(&self) -> (r: AuditEvent)
        ensures
            r@ == self@,
    {
        let mut out: Vec<Field> = Vec::new();
        let mut i: usize = 0;
        while i < self.fields.len()
            invariant
                i <= self.fields@.len(),
                out@.map_values(|f: Field| f@) == self@.take(i as int),
            decreases self.fields@.len() - i,
        {
            let f = &self.fields[i];
            let nf = Field { key: f.key.clone(), value: f.value.duplicate() };
            assert(nf@ == self@[i as int]);
            let ghost prev = out@;
            out.push(nf);
            assert(out@ == prev.push(nf));
            assert(out@.map_values(|f: Field| f@) =~= prev.map_values(|f: Field| f@).push(nf@));
            assert(self@.take(i as int + 1) =~= self@.take(i as int).push(self@[i as int]));
            i += 1;
        }
        assert(self@.take(i as int) =~= self@);
        AuditEvent { fields: out }
    }

    /// The value under `key`, if any.
    pub fn get(&self, key: &[char]) -> (r: Option<&JsonField>)
        ensures
            match r {
                Some(v) => lookup(self@, key@) == Some(v@),
                None => lookup(self@, key@) is None,
            },
    {
        let mut i: usize = 0;
        assert(self@.skip(0) =~= self@);
        while i < self.fields.len()
            invariant
                i <= self.fields@.len(),
                lookup(self@, key@) == lookup(self@.skip(i as int), key@),
            decreases self.fields@.len() - i,
        {
            let k = to_chars(self.fields[i].key.as_str());
            if chars_eq(&k, key) {
                return Some(&self.fields[i].value);
            }
            assert(self@.skip(i as int).drop_first() =~= self@.skip(i as int + 1));
            i += 1;
        }
        None
    }

    /// The string under `key`, if that member is a JSON string.
    pub fn get_text(&self, key: &[char]) -> (r: Option<&String>)
        ensures
            match r {
                Some(s) => text_of(self@, key@) == Some(s@),
                None => text_of(self@, key@) is None,
            },
    {
        match self.get(key) {
            Some(JsonField::Text(s)) => Some(s),
            _ => None,
        }
    }

    /// A copy of the string under `key`, if that member is a JSON string.
    pub fn text_member(&self, key: &str) -> (r: Option<String>)
        ensures
            match r {
                Some(s) => text_of(self@, key@) == Some(s@),
                None => text_of(self@, key@) is None,
            },
    {
        match self.get_text(&to_chars(key)) {
            Some(s) => Some(s.clone()),
            None => None,
        }
    }

    /// Removes the member `key`.
    pub fn remove(&mut self, key: &[char])
        ensures
            final(self)@ == remove_key(old(self)@, key@),
    {
        let ghost orig = self@;
        let mut out: Vec<Field> = Vec::new();
        let mut i: usize = 0;
        assert(orig.skip(0) =~= orig);
        assert(out@.map_values(|f: Field| f@) =~= Seq::<(Seq<char>, FieldView)>::empty());
        while i < self.fields.len()
            invariant
                i <= self.fields@.len(),
                self@ == orig,
                remove_key(orig, key@) == out@.map_values(|f: Field| f@) + remove_key(
                    orig.skip(i as int),
                    key@,
                ),
            decreases self.fields@.len() - i,
        {
            let f = &self.fields[i];
            let k = to_chars(f.key.as_str());
            assert(orig.skip(i as int).drop_first() =~= orig.skip(i as int + 1));
            let ghost a0 = out@.map_values(|f: Field| f@);
            let ghost b = remove_key(orig.skip(i as int + 1), key@);
            if !chars_eq(&k, key) {
                let nf = Field { key: f.key.clone(), value: f.value.duplicate() };
                assert(nf@ == orig[i as int]);
                let ghost prev = out@;
                out.push(nf);
                assert(out@ == prev.push(nf));
                assert(out@.map_values(|f: Field| f@) =~= a0.push(orig[i as int]));
                assert(a0 + (seq![orig[i as int]] + b) =~= a0.push(orig[i as int]) + b);
            }
            i += 1;
        }
        assert(orig.skip(i as int) =~= Seq::<(Seq<char>, FieldView)>::empty());
        assert(out@.map_values(|f: Field| f@) + Seq::<(Seq<char>, FieldView)>::empty()
            =~= out@.map_values(|f: Field| f@));
        self.fields = out;
    }

    /// Sets the member `key` to `v`, keeping the members in key order.
    pub fn set(&mut self, key: &[char], v: JsonField)
        ensures
            final(self)@ == set_key(old(self)@, key@, v@),
    {
        self.remove(key);
        let ghost base = self@;
        let mut pos: usize = 0;
        assert(base.skip(0) =~= base);
        assert(base.take(0) + insert_sorted(base, key@, v@) =~= insert_sorted(base, key@, v@));
        while pos < self.fields.len() && !chars_lt(key, &to_chars(self.fields[pos].key.as_str()))
            invariant
                pos <= self.fields@.len(),
                self@ == base,
                insert_sorted(base, key@, v@) == base.take(pos as int) + insert_sorted(
                    base.skip(pos as int),
                    key@,
                    v@,
                ),
            decreases self.fields@.len() - pos,
        {
            proof {
                let t = base.skip(pos as int);
                assert(t.drop_first() =~= base.skip(pos as int + 1));
                assert(base.take(pos as int + 1) =~= base.take(pos as int).push(t[0]));
                assert(base.take(pos as int) + (seq![t[0]] + insert_sorted(t.drop_first(), key@, v@))
                    =~= base.take(pos as int + 1) + insert_sorted(t.drop_first(), key@, v@));
            }
            pos += 1;
        }
        let ghost t = base.skip(pos as int);
        let k = string_of(key);
        self.fields.insert(pos, Field { key: k, value: v });
        assert(self@ =~= base.take(pos as int) + (seq![(key@, v@)] + t));
    }
}

/// Builds the canonical serialization of an event.
pub fn object_text_exec(e: &AuditEvent) -> (r: Vec<char>)
    ensures
        r@ == object_text(e@),
{
    let mut out: Vec<char> = Vec::new();
    out.push('{');
    let mut i: usize = 0;
    while i < e.fields.len()
        invariant
            i <= e.fields@.len(),
            out@ == seq!['{'] + members_text(e@.take(i as int)),
        decreases e.fields@.len() - i,
    {
        let f = &e.fields[i];
        let ghost before = out@;
        if i > 0 {
            out.push(',');
        }
        let kq = to_chars(json_quote(f.key.as_str()).as_str());
        let mut j: usize = 0;
        while j < kq.len()
            invariant
                j <= kq@.len(),
                out@.len() >= j,
                out@ == (if i > 0 { before.push(',') } else { before }) + kq@.take(j as int),
            decreases kq@.len() - j,
        {
            out.push(kq[j]);
            assert(kq@.take(j as int + 1) =~= kq@.take(j as int).push(kq@[j as int]));
            j += 1;
        }
        out.push(':');
        let vt = match &f.value {
            JsonField::Text(s) => to_chars(json_quote(s.as_str()).as_str()),
            JsonField::Raw(t) => to_chars(t.as_str()),
        };
        let ghost mid = out@;
        let mut j: usize = 0;
        while j < vt.len()
            invariant
                j <= vt@.len(),
                out@ == mid + vt@.take(j as int),
            decreases vt@.len() - j,
        {
            out.push(vt[j]);
            assert(vt@.take(j as int + 1) =~= vt@.take(j as int).push(vt@[j as int]));
            j += 1;
        }
        proof {
            let p = e@.take(i as int + 1);
            assert(p.drop_last() =~= e@.take(i as int));
            assert(p.last() == e@[i as int]);
            assert(kq@.take(kq@.len() as int) =~= kq@);
            assert(vt@.take(vt@.len() as int) =~= vt@);
            assert(vt@ == value_text(f.value@));
            if i == 0 {
                assert(e@.take(0) =~= Seq::<(Seq<char>, FieldView)>::empty());
                assert(out@ =~= seq!['{'] + member_text(p[0]));
            } else {
                assert(out@ =~= seq!['{'] + (members_text(e@.take(i as int)) + seq![',']
                    + member_text(p.last())));
            }
        }
        i += 1;
    }
    assert(e@.take(i as int) =~= e@);
    out.push('}');
    out
}

/// Hex SHA-256 of `prev`, a colon and the event's canonical serialization.
pub fn compute_event_hash(e: &AuditEvent, prev: &[char]) -> (r: String)
    ensures
        r@ == event_hash_of(e@, prev@),
{
    let body = object_text_exec(e);
    let mut m: Vec<char> = Vec::new();
    let mut i: usize = 0;
    while i < prev.len()
        invariant
            i <= prev@.len(),
            m@ == prev@.take(i as int),
        decreases prev@.len() - i,
    {
        m.push(prev[i]);
        assert(prev@.take(i as int + 1) =~= prev@.take(i as int).push(prev@[i as int]));
        i += 1;
    }
    assert(prev@.take(i as int) =~= prev@);
    m.push(':');
    let ghost head = m@;
    let mut j: usize = 0;
    while j < body.len()
        invariant
            j <= body@.len(),
            m@ == head + body@.take(j as int),
        decreases body@.len() - j,
    {
        m.push(body[j]);
        assert(body@.take(j as int + 1) =~= body@.take(j as int).push(body@[j as int]));
        j += 1;
    }
    assert(body@.take(j as int) =~= body@);
    assert(m@ =~= hash_material(e@, prev@));
    let material = string_of(&m);
    let digest = sha256_digest(material.as_str().as_bytes());
    hex_encode(&digest)
}

} // verus!
