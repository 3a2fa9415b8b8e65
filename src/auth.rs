//! Request authentication: static bearer tokens, signed bearer tokens and API keys.

use vstd::prelude::*;
use vstd::utf8::encode_utf8;
use crate::config::{
    ascending, normalize_scopes, pair_lookup, pairs_view, parse_key_value_map, parse_string_set,
    sorted_set, strs_view, trimmed_items,
};
use crate::clock::now_unix_seconds;
use crate::config::{holds_map, kv_map_of, list_items};
use crate::json::json_quote;
use crate::json::json_quoted;
use crate::text::append_chars;
use crate::crypto::{b64url_decode, b64url_decoded, hex_encode, hex_of, hmac_sha256, hmac_sha256_of, verify_digest};
use crate::json::{
    as_bool_of, as_str_of, bool_value, get_member, json_parsed, json_parsed_bytes, member_of,
    parse_json, parse_json_bytes, str_value, string_items, strings_of, Json,
};
use crate::text::{
    chars_eq, copy_range, find_char, first_index, lemma_first_index_bounds, lower_of, lowercase,
    split, split_on, starts_with, string_of, to_chars, trim, trimmed,
};

verus! {

/// A classified authentication failure.
#[derive(Debug, Clone)]
pub struct CoreAuthError {
    pub code: String,
    pub detail: String,
    pub status_code: i32,
}

impl CoreAuthError {
    /// A failure with the given code and detail, status 401.
    pub fn new(code: &str, detail: &str) -> (r: Self)
        ensures
            r.code@ == code@,
            r.detail@ == detail@,
            r.status_code == 401,
    {
        CoreAuthError { code: code.to_owned(), detail: detail.to_owned(), status_code: 401 }
    }
}

pub open spec fn code_invalid_signature() -> Seq<char> {
    "invalid_signature"@
}

pub open spec fn code_invalid_credentials() -> Seq<char> {
    "invalid_credentials"@
}

pub open spec fn code_missing_credentials() -> Seq<char> {
    "missing_credentials"@
}

pub open spec fn code_expired_token() -> Seq<char> {
    "expired_token"@
}

pub open spec fn code_revoked_key() -> Seq<char> {
    "revoked_key"@
}

pub open spec fn code_disabled_identity() -> Seq<char> {
    "disabled_identity"@
}

/// A configured credential: who it stands for and how it may be used.
#[derive(Debug, Clone)]
pub struct CredentialRecord {
    pub user_id: String,
    pub principal_type: String,
    pub display_name: Option<String>,
    pub key_id: Option<String>,
    pub disabled: bool,
    pub scopes: Vec<String>,
    pub scope_enforced: bool,
    pub service_account_id: Option<String>,
}

/// The plain content of a credential record or identity.
pub struct CredView {
    pub user_id: Seq<char>,
    pub principal_type: Seq<char>,
    pub display_name: Option<Seq<char>>,
    pub key_id: Option<Seq<char>>,
    pub disabled: bool,
    pub scopes: Seq<Seq<char>>,
    pub scope_enforced: bool,
    pub service_account_id: Option<Seq<char>>,
}

pub open spec fn ostr(o: Option<String>) -> Option<Seq<char>> {
    match o {
        Some(s) => Some(s@),
        None => None,
    }
}

impl View for CredentialRecord {
    type V = CredView;

    open spec fn view(&self) -> CredView {
        CredView {
            user_id: self.user_id@,
            principal_type: self.principal_type@,
            display_name: ostr(self.display_name),
            key_id: ostr(self.key_id),
            disabled: self.disabled,
            scopes: strs_view(self.scopes@),
            scope_enforced: self.scope_enforced,
            service_account_id: ostr(self.service_account_id),
        }
    }
}

/// Principal types: `user` or `service`.
pub open spec fn valid_principal(p: Seq<char>) -> bool {
    p == "user"@ || p == "service"@
}

/// What every parsed record satisfies.
pub open spec fn cred_wf(c: CredView) -> bool {
    c.user_id.len() > 0 && valid_principal(c.principal_type) && ascending(c.scopes)
}

/// The authenticated principal.
#[derive(Debug, Clone)]
pub struct Identity {
    pub user_id: String,
    pub principal_type: String,
    pub display_name: Option<String>,
    pub auth_method: String,
    pub key_id: Option<String>,
    pub scopes: Vec<String>,
    pub scope_enforced: bool,
    pub service_account_id: Option<String>,
}

/// Whether `id` is the identity of `c` authenticated by `method`.
pub open spec fn identity_is(id: Identity, c: CredView, method: Seq<char>) -> bool {
    &&& id.user_id@ == c.user_id
    &&& id.principal_type@ == c.principal_type
    &&& ostr(id.display_name) == c.display_name
    &&& id.auth_method@ == method
    &&& ostr(id.key_id) == c.key_id
    &&& strs_view(id.scopes@) == c.scopes
    &&& id.scope_enforced == c.scope_enforced
    &&& ostr(id.service_account_id) == c.service_account_id
}

/// An authentication decision.
pub enum Decision {
    Grant(CredView, Seq<char>),
    Deny(Seq<char>),
}

/// Whether a result carries out a decision.
pub open spec fn outcome_is(r: Result<Identity, CoreAuthError>, d: Decision) -> bool {
    match (r, d) {
        (Ok(id), Decision::Grant(c, m)) => identity_is(id, c, m),
        (Err(e), Decision::Deny(code)) => e.code@ == code && e.status_code == 401,
        _ => false,
    }
}

/// Whether a result is a failure with `code`.
pub open spec fn denied_with(r: Result<Identity, CoreAuthError>, code: Seq<char>) -> bool {
    outcome_is(r, Decision::Deny(code))
}

fn deny(code: &str, detail: &str) -> (r: Result<Identity, CoreAuthError>)
    ensures
        denied_with(r, code@),
{
    Err(CoreAuthError::new(code, detail))
}

fn copy_strings(v: &[String]) -> (r: Vec<String>)
    ensures
        strs_view(r@) == strs_view(v@),
{
    let mut out: Vec<String> = Vec::new();
    let mut i: usize = 0;
    while i < v.len()
        invariant
            i <= v@.len(),
            strs_view(out@) == strs_view(v@).take(i as int),
        decreases v@.len() - i,
    {
        let ghost before = out@;
        out.push(v[i].clone());
        assert(strs_view(out@) =~= strs_view(before).push(v@[i as int]@));
        assert(strs_view(v@).take(i as int + 1) =~= strs_view(v@).take(i as int).push(
            v@[i as int]@,
        ));
        i += 1;
    }
    assert(strs_view(v@).take(i as int) =~= strs_view(v@));
    out
}

fn copy_opt(o: &Option<String>) -> (r: Option<String>)
    ensures
        ostr(r) == ostr(*o),
{
    match o {
        Some(s) => Some(s.clone()),
        None => None,
    }
}

/// The identity a record grants under `auth_method`.
pub fn identity_from_record(record: &CredentialRecord, auth_method: &str) -> (r: Identity)
    ensures
        identity_is(r, record@, auth_method@),
{
    Identity {
        user_id: record.user_id.clone(),
        principal_type: record.principal_type.clone(),
        display_name: copy_opt(&record.display_name),
        auth_method: auth_method.to_owned(),
        key_id: copy_opt(&record.key_id),
        scopes: copy_strings(&record.scopes),
        scope_enforced: record.scope_enforced,
        service_account_id: copy_opt(&record.service_account_id),
    }
}

/// The members a credential record is read from, as found in configuration.
#[derive(Debug, Clone)]
pub struct RecordFields {
    pub user_id: Option<String>,
    pub principal_type: Option<String>,
    pub display_name: Option<String>,
    pub key_id: Option<String>,
    pub disabled: Option<bool>,
    pub scopes: Vec<String>,
    pub scope_enforced: Option<bool>,
    pub service_account_id: Option<String>,
}

/// A principal type as given, `user` where none is given.
pub open spec fn principal_or_user(p: Option<String>) -> Seq<char> {
    match p {
        Some(s) => s@,
        None => "user"@,
    }
}

/// Whether configuration members make a record: a non-empty `user_id` and a
/// valid principal type.
pub open spec fn fields_ok(f: RecordFields) -> bool {
    &&& f.user_id is Some
    &&& f.user_id->0@.len() > 0
    &&& valid_principal(principal_or_user(f.principal_type))
}

/// Whether `c` is the record that the members `f` make.
pub open spec fn record_of(c: CredView, f: RecordFields) -> bool {
    &&& c.user_id == f.user_id->0@
    &&& c.principal_type == principal_or_user(f.principal_type)
    &&& c.display_name == ostr(f.display_name)
    &&& c.key_id == ostr(f.key_id)
    &&& c.disabled == (f.disabled == Some(true))
    &&& sorted_set(c.scopes, trimmed_items(strs_view(f.scopes@)))
    &&& c.scope_enforced == (f.scope_enforced == Some(true))
    &&& c.service_account_id == ostr(f.service_account_id)
}

/// A record from configuration members; `None` where they make none.
pub fn record_from_fields(f: &RecordFields) -> (r: Option<CredentialRecord>)
    ensures
        match r {
            Some(c) => fields_ok(*f) && record_of(c@, *f) && cred_wf(c@),
            None => !fields_ok(*f),
        },
{
    let user_id = match &f.user_id {
        Some(u) => u.clone(),
        None => {
            return None;
        },
    };
    if to_chars(user_id.as_str()).len() == 0 {
        return None;
    }
    let principal_type = match &f.principal_type {
        Some(p) => p.clone(),
        None => "user".to_owned(),
    };
    let user = "user".to_owned();
    let service = "service".to_owned();
    if !(principal_type == user || principal_type == service) {
        return None;
    }
    Some(
        CredentialRecord {
            user_id,
            principal_type,
            display_name: copy_opt(&f.display_name),
            key_id: copy_opt(&f.key_id),
            disabled: match f.disabled {
                Some(b) => b,
                None => false,
            },
            scopes: normalize_scopes(&f.scopes),
            scope_enforced: match f.scope_enforced {
                Some(b) => b,
                None => false,
            },
            service_account_id: copy_opt(&f.service_account_id),
        },
    )
}

/// A principal type member: its string, or the empty string (which no
/// principal type is) where it is present but not a string.
pub open spec fn principal_member(j: Json) -> Option<Seq<char>> {
    match member_of(j, "principal_type"@) {
        None => None,
        Some(Json::Str(s)) => Some(s@),
        Some(_) => Some(Seq::empty()),
    }
}

fn principal_value(j: &Json) -> (r: Option<String>)
    ensures
        ostr(r) == principal_member(*j),
{
    match get_member(j, "principal_type") {
        None => None,
        Some(Json::Str(s)) => Some(s.clone()),
        Some(_) => Some(String::new()),
    }
}

fn member_string(j: &Json, key: &str) -> (r: Option<String>)
    ensures
        ostr(r) == as_str_of(member_of(*j, key@)),
{
    str_value(get_member(j, key))
}

/// Whether `f` holds the record members of the object `j`.
pub open spec fn fields_match(f: RecordFields, j: Json) -> bool {
    &&& ostr(f.user_id) == as_str_of(member_of(j, "user_id"@))
    &&& ostr(f.principal_type) == principal_member(j)
    &&& ostr(f.display_name) == as_str_of(member_of(j, "display_name"@))
    &&& ostr(f.key_id) == as_str_of(member_of(j, "key_id"@))
    &&& f.disabled == as_bool_of(member_of(j, "disabled"@))
    &&& strs_view(f.scopes@) == strings_of(member_of(j, "scopes"@))
    &&& f.scope_enforced == as_bool_of(member_of(j, "scope_enforced"@))
    &&& ostr(f.service_account_id) == as_str_of(member_of(j, "service_account_id"@))
}

/// The record members of a parsed object.
pub fn fields_from_json(j: &Json) -> (r: RecordFields)
    ensures
        fields_match(r, *j),
{
    let scopes = string_items(get_member(j, "scopes"));
    RecordFields {
        user_id: member_string(j, "user_id"),
        principal_type: principal_value(j),
        display_name: member_string(j, "display_name"),
        key_id: member_string(j, "key_id"),
        disabled: bool_value(get_member(j, "disabled")),
        scopes,
        scope_enforced: bool_value(get_member(j, "scope_enforced")),
        service_account_id: member_string(j, "service_account_id"),
    }
}

/// Whether an object's members make a record: a non-empty string `user_id`
/// and a valid principal type (`user` where none is given).
pub open spec fn json_record_ok(j: Json) -> bool {
    &&& j is Obj
    &&& as_str_of(member_of(j, "user_id"@)) is Some
    &&& as_str_of(member_of(j, "user_id"@))->0.len() > 0
    &&& valid_principal(
        match principal_member(j) {
            Some(p) => p,
            None => "user"@,
        },
    )
}

/// Whether `c` is the record that the object `j` makes.
pub open spec fn record_of_json(c: CredView, j: Json) -> bool {
    &&& c.user_id == as_str_of(member_of(j, "user_id"@))->0
    &&& c.principal_type == (match principal_member(j) {
        Some(p) => p,
        None => "user"@,
    })
    &&& c.display_name == as_str_of(member_of(j, "display_name"@))
    &&& c.key_id == as_str_of(member_of(j, "key_id"@))
    &&& c.disabled == (as_bool_of(member_of(j, "disabled"@)) == Some(true))
    &&& sorted_set(c.scopes, trimmed_items(strings_of(member_of(j, "scopes"@))))
    &&& c.scope_enforced == (as_bool_of(member_of(j, "scope_enforced"@)) == Some(true))
    &&& c.service_account_id == as_str_of(member_of(j, "service_account_id"@))
}

/// Whether `t` is the table that the members `ms` make: each member whose
/// value is an object making a record, in order, keyed by its name.
pub open spec fn table_from(t: Seq<(Seq<char>, CredView)>, ms: Seq<(String, Json)>) -> bool
    decreases ms.len(),
{
    if ms.len() == 0 {
        t.len() == 0
    } else if json_record_ok(ms.last().1) {
        &&& t.len() > 0
        &&& t.last().0 == ms.last().0@
        &&& record_of_json(t.last().1, ms.last().1)
        &&& table_from(t.drop_last(), ms.drop_last())
    } else {
        table_from(t, ms.drop_last())
    }
}

/// An object's members as name and value pairs.
pub open spec fn members(keys: Seq<String>, values: Seq<Json>) -> Seq<(String, Json)> {
    Seq::new(
        if keys.len() < values.len() {
            keys.len()
        } else {
            values.len()
        },
        |i: int| (keys[i], values[i]),
    )
}

/// The members of a configuration text that parses as a JSON object; none otherwise.
pub open spec fn config_entries(raw: Option<Seq<char>>) -> Seq<(String, Json)> {
    match raw {
        Some(s) => match json_parsed(s) {
            Some(Json::Obj(ks, vs, _)) => members(ks@, vs@),
            _ => Seq::empty(),
        },
        None => Seq::empty(),
    }
}

/// Views of a credential table.
pub open spec fn table_view(t: Seq<(String, CredentialRecord)>) -> Seq<(Seq<char>, CredView)> {
    t.map_values(|p: (String, CredentialRecord)| (p.0@, p.1@))
}

/// A JSON object of credential string to record read as a table; entries
/// that make no record are skipped, as is text that is not a JSON object.
pub fn parse_record_map(raw: Option<&str>) -> (r: Vec<(String, CredentialRecord)>)
    ensures
        table_from(table_view(r@), config_entries(opt_str(raw))),
{
    let mut out: Vec<(String, CredentialRecord)> = Vec::new();
    assert(table_view(out@) =~= Seq::<(Seq<char>, CredView)>::empty());
    let text = match raw {
        Some(t) => t,
        None => {
            return out;
        },
    };
    let parsed = parse_json(text);
    let (ks, vs) = match &parsed {
        Some(Json::Obj(ks, vs, _)) => (ks, vs),
        _ => {
            return out;
        },
    };
    let ghost ms = members(ks@, vs@);
    let mut i: usize = 0;
    assert(ms.take(0) =~= Seq::<(String, Json)>::empty());
    while i < ks.len() && i < vs.len()
        invariant
            i <= ks@.len(),
            i <= vs@.len(),
            ms == members(ks@, vs@),
            table_from(table_view(out@), ms.take(i as int)),
        decreases ks@.len() - i,
    {
        let ghost q = ms.take(i as int + 1);
        assert(q.drop_last() =~= ms.take(i as int));
        assert(q.last() == (ks@[i as int], vs@[i as int]));
        let credential = &ks[i];
        let entry = &vs[i];
        if matches!(entry, Json::Obj(_, _, _)) {
            let f = fields_from_json(entry);
            match record_from_fields(&f) {
                Some(rec) => {
                    let ghost before = out@;
                    out.push((credential.clone(), rec));
                    assert(table_view(out@) =~= table_view(before).push((credential@, rec@)));
                    assert(table_view(out@).drop_last() =~= table_view(before));
                },
                None => {},
            }
        }
        i += 1;
    }
    assert(ms.take(i as int) =~= ms);
    out
}

/// The record for `key`, the first entry counting.
pub open spec fn find_cred(t: Seq<(Seq<char>, CredView)>, key: Seq<char>) -> Option<CredView>
    decreases t.len(),
{
    if t.len() == 0 {
        None
    } else if t[0].0 == key {
        Some(t[0].1)
    } else {
        find_cred(t.drop_first(), key)
    }
}

fn find_record<'a>(t: &'a [(String, CredentialRecord)], key: &[char]) -> (r: Option<&'a CredentialRecord>)
    ensures
        match r {
            Some(c) => find_cred(table_view(t@), key@) == Some(c@),
            None => find_cred(table_view(t@), key@) is None,
        },
{
    let ghost tv = table_view(t@);
    let mut i: usize = 0;
    assert(tv.skip(0) =~= tv);
    while i < t.len()
        invariant
            i <= t@.len(),
            tv == table_view(t@),
            find_cred(tv, key@) == find_cred(tv.skip(i as int), key@),
        decreases t@.len() - i,
    {
        assert(tv.skip(i as int)[0] == (t@[i as int].0@, t@[i as int].1@));
        assert(tv.skip(i as int).drop_first() =~= tv.skip(i as int + 1));
        if chars_eq(&to_chars(t[i].0.as_str()), key) {
            return Some(&t[i].1);
        }
        i += 1;
    }
    None
}

fn contains_str(v: &[String], x: &[char]) -> (r: bool)
    ensures
        r == strs_view(v@).contains(x@),
{
    let ghost sv = strs_view(v@);
    let mut i: usize = 0;
    while i < v.len()
        invariant
            i <= v@.len(),
            sv == strs_view(v@),
            forall|j: int| 0 <= j < i ==> sv[j] != x@,
        decreases v@.len() - i,
    {
        assert(sv[i as int] == v@[i as int]@);
        if chars_eq(&to_chars(v[i].as_str()), x) {
            return true;
        }
        i += 1;
    }
    false
}

fn lookup_secret<'a>(v: &'a [(String, String)], k: &[char]) -> (r: Option<&'a String>)
    ensures
        match r {
            Some(s) => pair_lookup(pairs_view(v@), k@) == Some(s@),
            None => pair_lookup(pairs_view(v@), k@) is None,
        },
{
    let ghost pv = pairs_view(v@);
    let mut i: usize = 0;
    assert(pv.skip(0) =~= pv);
    while i < v.len()
        invariant
            i <= v@.len(),
            pv == pairs_view(v@),
            pair_lookup(pv, k@) == pair_lookup(pv.skip(i as int), k@),
        decreases v@.len() - i,
    {
        assert(pv.skip(i as int)[0] == (v@[i as int].0@, v@[i as int].1@));
        assert(pv.skip(i as int).drop_first() =~= pv.skip(i as int + 1));
        if chars_eq(&to_chars(v[i].0.as_str()), k) {
            return Some(&v[i].1);
        }
        i += 1;
    }
    None
}

/// The decision for a credential found (or not) in a static table.
pub open spec fn static_decision(
    rec: Option<CredView>,
    revoked: Seq<Seq<char>>,
    method: Seq<char>,
) -> Decision {
    match rec {
        None => Decision::Deny(code_invalid_credentials()),
        Some(c) => if c.key_id is Some && revoked.contains(c.key_id->0) {
            Decision::Deny(code_revoked_key())
        } else if c.disabled {
            Decision::Deny(code_disabled_identity())
        } else {
            Decision::Grant(c, method)
        },
    }
}

fn static_check(
    rec: Option<&CredentialRecord>,
    revoked: &[String],
    method: &str,
    revoked_detail: &str,
) -> (r: Result<Identity, CoreAuthError>)
    ensures
        outcome_is(
            r,
            static_decision(
                match rec {
                    Some(c) => Some(c@),
                    None => None,
                },
                strs_view(revoked@),
                method@,
            ),
        ),
{
    match rec {
        None => {
            if chars_eq(&to_chars(method), &to_chars("bearer")) {
                deny("invalid_credentials", "Invalid bearer token")
            } else {
                deny("invalid_credentials", "Invalid API key")
            }
        },
        Some(c) => {
            let revoked_key = match &c.key_id {
                Some(k) => contains_str(revoked, &to_chars(k.as_str())),
                None => false,
            };
            if revoked_key {
                deny("revoked_key", revoked_detail)
            } else if c.disabled {
                deny("disabled_identity", "Principal is disabled")
            } else {
                Ok(identity_from_record(c, method))
            }
        },
    }
}

/// Claims of a signed token, as read from its payload.
#[derive(Debug, Clone)]
pub struct TokenClaims {
    pub kid: Option<String>,
    /// Expiry in unix seconds; an integer too large for `i64` is held as `i64::MAX`.
    pub exp: Option<i64>,
    pub sub: Option<String>,
    pub disabled: Option<bool>,
    pub principal_type: Option<String>,
    pub display_name: Option<String>,
    pub service_account_id: Option<String>,
    pub scopes: Vec<String>,
    pub scope_enforced: Option<bool>,
}

/// The expiry a payload gives: an integer `exp`; one too large for `i64`
/// counts as `i64::MAX`. A number with a fraction is not read (no floating
/// point here), so it counts as missing.
pub open spec fn exp_member(j: Json) -> Option<i64> {
    match member_of(j, "exp"@) {
        Some(Json::Num(n)) => match n.int {
            Some(i) => Some(i),
            None => match n.uint {
                Some(_) => Some(i64::MAX),
                None => None,
            },
        },
        _ => None,
    }
}

/// Whether `c` holds the claims of the payload object `j`, scopes normalized.
pub open spec fn claims_match(c: TokenClaims, j: Json) -> bool {
    &&& ostr(c.kid) == as_str_of(member_of(j, "kid"@))
    &&& c.exp == exp_member(j)
    &&& ostr(c.sub) == as_str_of(member_of(j, "sub"@))
    &&& c.disabled == as_bool_of(member_of(j, "disabled"@))
    &&& ostr(c.principal_type) == principal_member(j)
    &&& ostr(c.display_name) == as_str_of(member_of(j, "display_name"@))
    &&& ostr(c.service_account_id) == as_str_of(member_of(j, "service_account_id"@))
    &&& sorted_set(strs_view(c.scopes@), trimmed_items(strings_of(member_of(j, "scopes"@))))
    &&& c.scope_enforced == as_bool_of(member_of(j, "scope_enforced"@))
}

/// The claims of a parsed payload; `None` where it is not an object.
pub fn claims_from_json(j: &Json) -> (r: Option<TokenClaims>)
    ensures
        match r {
            Some(c) => j is Obj && claims_match(c, *j),
            None => !(j is Obj),
        },
{
    if !matches!(j, Json::Obj(_, _, _)) {
        return None;
    }
    let exp = match get_member(j, "exp") {
        Some(Json::Num(n)) => match n.int {
            Some(i) => Some(i),
            None => match n.uint {
                Some(_) => Some(i64::MAX),
                None => None,
            },
        },
        _ => None,
    };
    let raw_scopes = string_items(get_member(j, "scopes"));
    Some(
        TokenClaims {
            kid: member_string(j, "kid"),
            exp,
            sub: member_string(j, "sub"),
            disabled: bool_value(get_member(j, "disabled")),
            principal_type: principal_value(j),
            display_name: member_string(j, "display_name"),
            service_account_id: member_string(j, "service_account_id"),
            scopes: normalize_scopes(&raw_scopes),
            scope_enforced: bool_value(get_member(j, "scope_enforced")),
        },
    )
}

/// The hex HMAC-SHA256 a token's signature must carry: keyed by the secret,
/// over the payload segment's text.
pub open spec fn expected_signature(secret: Seq<char>, payload_segment: Seq<char>) -> Seq<char> {
    hex_of(hmac_sha256_of(encode_utf8(secret), encode_utf8(payload_segment)))
}

/// The decision on a signed token whose segments decoded to `c` and `sig`.
pub open spec fn signed_decision(
    c: TokenClaims,
    payload_segment: Seq<char>,
    sig: Seq<u8>,
    secrets: Seq<(Seq<char>, Seq<char>)>,
    active: Seq<Seq<char>>,
    revoked: Seq<Seq<char>>,
    now: i64,
) -> Decision {
    if c.kid is None || c.kid->0@.len() == 0 {
        Decision::Deny(code_invalid_signature())
    } else {
        let kid = c.kid->0@;
        if active.len() > 0 && !active.contains(kid) {
            Decision::Deny(code_revoked_key())
        } else if revoked.contains(kid) {
            Decision::Deny(code_revoked_key())
        } else if pair_lookup(secrets, kid) is None {
            Decision::Deny(code_invalid_signature())
        } else if expected_signature(pair_lookup(secrets, kid)->0, payload_segment) != hex_of(sig) {
            Decision::Deny(code_invalid_signature())
        } else if c.exp is None {
            Decision::Deny(code_invalid_credentials())
        } else if c.exp->0 < now {
            Decision::Deny(code_expired_token())
        } else if c.sub is None || c.sub->0@.len() == 0 {
            Decision::Deny(code_invalid_credentials())
        } else if c.disabled == Some(true) {
            Decision::Deny(code_disabled_identity())
        } else if !valid_principal(principal_or_user(c.principal_type)) {
            Decision::Deny(code_invalid_credentials())
        } else {
            Decision::Grant(
                CredView {
                    user_id: c.sub->0@,
                    principal_type: principal_or_user(c.principal_type),
                    display_name: ostr(c.display_name),
                    key_id: Some(kid),
                    disabled: false,
                    scopes: strs_view(c.scopes@),
                    scope_enforced: c.scope_enforced == Some(true),
                    service_account_id: ostr(c.service_account_id),
                },
                "bearer"@,
            )
        }
    }
}

/// Checks a signed token's claims and signature.
pub fn verify_signed_claims(
    claims: &TokenClaims,
    payload_segment: &str,
    signature: &[u8],
    secrets: &[(String, String)],
    active_kids: &[String],
    revoked_key_ids: &[String],
    now: i64,
) -> (r: Result<Identity, CoreAuthError>)
    ensures
        outcome_is(
            r,
            signed_decision(
                *claims,
                payload_segment@,
                signature@,
                pairs_view(secrets@),
                strs_view(active_kids@),
                strs_view(revoked_key_ids@),
                now,
            ),
        ),
{
    let kid = match &claims.kid {
        Some(k) => k,
        None => {
            return deny("invalid_signature", "Signed token missing key id");
        },
    };
    let kc = to_chars(kid.as_str());
    if kc.len() == 0 {
        return deny("invalid_signature", "Signed token missing key id");
    }
    if active_kids.len() > 0 && !contains_str(active_kids, &kc) {
        return deny("revoked_key", "Token signed by inactive key");
    }
    if contains_str(revoked_key_ids, &kc) {
        return deny("revoked_key", "Token key id has been revoked");
    }
    let secret = match lookup_secret(secrets, &kc) {
        Some(s) => s,
        None => {
            return deny("invalid_signature", "Unknown token signing key");
        },
    };
    let tag = hmac_sha256(secret.as_str().as_bytes(), payload_segment.as_bytes());
    let expected_hex = hex_encode(&tag);
    let actual_hex = hex_encode(signature);
    if !verify_digest(expected_hex.as_str(), actual_hex.as_str()) {
        return deny("invalid_signature", "Invalid bearer token signature");
    }
    let exp = match claims.exp {
        Some(e) => e,
        None => {
            return deny("invalid_credentials", "Signed token missing exp");
        },
    };
    if exp < now {
        return deny("expired_token", "Bearer token has expired");
    }
    let user_id = match &claims.sub {
        Some(s) => s,
        None => {
            return deny("invalid_credentials", "Signed token missing subject");
        },
    };
    if to_chars(user_id.as_str()).len() == 0 {
        return deny("invalid_credentials", "Signed token missing subject");
    }
    if claims.disabled == Some(true) {
        return deny("disabled_identity", "Principal is disabled");
    }
    let principal_type = match &claims.principal_type {
        Some(p) => p.clone(),
        None => "user".to_owned(),
    };
    let user = "user".to_owned();
    let service = "service".to_owned();
    if !(principal_type == user || principal_type == service) {
        return deny("invalid_credentials", "Invalid principal type");
    }
    Ok(
        Identity {
            user_id: user_id.clone(),
            principal_type,
            display_name: copy_opt(&claims.display_name),
            auth_method: "bearer".to_owned(),
            key_id: Some(kid.clone()),
            scopes: copy_strings(&claims.scopes),
            scope_enforced: claims.scope_enforced == Some(true),
            service_account_id: copy_opt(&claims.service_account_id),
        },
    )
}

/// The result owed for a signed token: an invalid signature where the token
/// is not three segments, a segment is not URL-safe base64, or the payload is
/// not a JSON object; otherwise the decision on the payload's claims.
pub open spec fn signed_result_ok(
    r: Result<Identity, CoreAuthError>,
    token: Seq<char>,
    secrets: Seq<(Seq<char>, Seq<char>)>,
    active: Seq<Seq<char>>,
    revoked: Seq<Seq<char>>,
    now: i64,
) -> bool {
    let parts = split_on(token, '.');
    if parts.len() != 3 || b64url_decoded(parts[1]) is None || b64url_decoded(parts[2]) is None {
        denied_with(r, code_invalid_signature())
    } else {
        match json_parsed_bytes(b64url_decoded(parts[1])->0) {
            Some(j) => if j is Obj {
                exists|c: TokenClaims|
                    #[trigger] claims_match(c, j) && outcome_is(
                        r,
                        signed_decision(
                            c,
                            parts[1],
                            b64url_decoded(parts[2])->0,
                            secrets,
                            active,
                            revoked,
                            now,
                        ),
                    )
            } else {
                denied_with(r, code_invalid_signature())
            },
            None => denied_with(r, code_invalid_signature()),
        }
    }
}

/// Verifies a `v1.<payload>.<signature>` bearer token.
pub fn authenticate_signed_bearer(
    token: &str,
    secrets: &[(String, String)],
    active_kids: &[String],
    revoked_key_ids: &[String],
    now: i64,
) -> (r: Result<Identity, CoreAuthError>)
    ensures
        signed_result_ok(
            r,
            token@,
            pairs_view(secrets@),
            strs_view(active_kids@),
            strs_view(revoked_key_ids@),
            now,
        ),
{
    let parts = split(&to_chars(token), '.');
    if parts.len() != 3 {
        return deny("invalid_signature", "Malformed signed bearer token");
    }
    let payload_segment = string_of(&parts[1]);
    let signature_segment = string_of(&parts[2]);
    let payload_bytes = match b64url_decode(payload_segment.as_str()) {
        Some(b) => b,
        None => {
            return deny("invalid_signature", "Malformed signed bearer token");
        },
    };
    let signature_bytes = match b64url_decode(signature_segment.as_str()) {
        Some(b) => b,
        None => {
            return deny("invalid_signature", "Malformed signed bearer token");
        },
    };
    let payload = match parse_json_bytes(&payload_bytes) {
        Some(v) => v,
        None => {
            return deny("invalid_signature", "Invalid signed token payload");
        },
    };
    let claims = match claims_from_json(&payload) {
        Some(c) => c,
        None => {
            return deny("invalid_signature", "Invalid signed token payload");
        },
    };
    let r = verify_signed_claims(
        &claims,
        payload_segment.as_str(),
        &signature_bytes,
        secrets,
        active_kids,
        revoked_key_ids,
        now,
    );
    assert(claims_match(claims, payload));
    assert(outcome_is(
        r,
        signed_decision(
            claims,
            split_on(token@, '.')[1],
            b64url_decoded(split_on(token@, '.')[2])->0,
            pairs_view(secrets@),
            strs_view(active_kids@),
            strs_view(revoked_key_ids@),
            now,
        ),
    ));
    r
}

/// Where a request's headers send it.
pub enum Route {
    /// An `Authorization` header that is not `Bearer <token>`.
    BadScheme,
    /// `Bearer` with a blank token.
    EmptyToken,
    /// A `v1.` signed token.
    Signed(Seq<char>),
    /// A static bearer token.
    Bearer(Seq<char>),
    /// A static API key.
    ApiKey(Seq<char>),
    /// No credentials.
    Missing,
}

pub open spec fn opt_str(o: Option<&str>) -> Option<Seq<char>> {
    match o {
        Some(s) => Some(s@),
        None => None,
    }
}

/// A header that is present and not blank.
pub open spec fn present(o: Option<Seq<char>>) -> bool {
    o is Some && trimmed(o->0).len() > 0
}

/// How headers are routed: `Authorization` first (scheme before the first
/// space, compared case-insensitively; the rest trimmed is the token), then
/// `X-API-Key` (trimmed), else nothing.
pub open spec fn route_of(authorization: Option<Seq<char>>, api_key: Option<Seq<char>>) -> Route {
    if present(authorization) {
        let h = authorization->0;
        let i = first_index(h, ' ');
        if i >= h.len() || lower_of(h.subrange(0, i)) != "bearer"@ {
            Route::BadScheme
        } else {
            let t = trimmed(h.subrange(i + 1, h.len() as int));
            if t.len() == 0 {
                Route::EmptyToken
            } else if t.len() >= 3 && t.take(3) == "v1."@ {
                Route::Signed(t)
            } else {
                Route::Bearer(t)
            }
        }
    } else if present(api_key) {
        Route::ApiKey(trimmed(api_key->0))
    } else {
        Route::Missing
    }
}

/// The record of the bootstrap token.
pub open spec fn bootstrap_cred(user: Option<Seq<char>>) -> CredView {
    CredView {
        user_id: if present(user) {
            user->0
        } else {
            "bootstrap-user"@
        },
        principal_type: "user"@,
        display_name: Some("Local Bootstrap User"@),
        key_id: Some("bootstrap"@),
        disabled: false,
        scopes: Seq::empty(),
        scope_enforced: false,
        service_account_id: None,
    }
}

/// Static bearer credentials in force: the configured ones, or, where none is
/// configured, the bootstrap token if one is given.
pub open spec fn bearer_table(
    tokens: Seq<(Seq<char>, CredView)>,
    bootstrap_token: Option<Seq<char>>,
    bootstrap_user: Option<Seq<char>>,
) -> Seq<(Seq<char>, CredView)> {
    if tokens.len() == 0 && present(bootstrap_token) {
        seq![(bootstrap_token->0, bootstrap_cred(bootstrap_user))]
    } else {
        tokens
    }
}

/// The decision for every route but signed tokens.
pub open spec fn header_decision(
    route: Route,
    bearer: Seq<(Seq<char>, CredView)>,
    api_keys: Seq<(Seq<char>, CredView)>,
    revoked: Seq<Seq<char>>,
) -> Decision {
    match route {
        Route::BadScheme => Decision::Deny(code_invalid_credentials()),
        Route::EmptyToken => Decision::Deny(code_missing_credentials()),
        Route::Bearer(t) => static_decision(find_cred(bearer, t), revoked, "bearer"@),
        Route::ApiKey(k) => static_decision(find_cred(api_keys, k), revoked, "api_key"@),
        _ => Decision::Deny(code_missing_credentials()),
    }
}

fn bootstrap_record(user: Option<&str>) -> (r: CredentialRecord)
    ensures
        r@ == bootstrap_cred(opt_str(user)),
{
    let user_id = match user {
        Some(u) => if trim(&to_chars(u)).len() > 0 {
            u.to_owned()
        } else {
            "bootstrap-user".to_owned()
        },
        None => "bootstrap-user".to_owned(),
    };
    let r = CredentialRecord {
        user_id,
        principal_type: "user".to_owned(),
        display_name: Some("Local Bootstrap User".to_owned()),
        key_id: Some("bootstrap".to_owned()),
        disabled: false,
        scopes: Vec::new(),
        scope_enforced: false,
        service_account_id: None,
    };
    assert(strs_view(r.scopes@) =~= Seq::<Seq<char>>::empty());
    r
}

/// The result owed for request headers against parsed configuration at unix
/// time `now`: the signed-token result for a `v1.` bearer token, otherwise
/// the decision for the route.
pub open spec fn auth_result_ok(
    r: Result<Identity, CoreAuthError>,
    authorization: Option<Seq<char>>,
    api_key: Option<Seq<char>>,
    bearer_tokens: Seq<(Seq<char>, CredView)>,
    api_keys: Seq<(Seq<char>, CredView)>,
    secrets: Seq<(Seq<char>, Seq<char>)>,
    active: Seq<Seq<char>>,
    revoked: Seq<Seq<char>>,
    bootstrap_token: Option<Seq<char>>,
    bootstrap_user_id: Option<Seq<char>>,
    now: i64,
) -> bool {
    match route_of(authorization, api_key) {
        Route::Signed(t) => signed_result_ok(r, t, secrets, active, revoked, now),
        route => outcome_is(
            r,
            header_decision(
                route,
                bearer_table(bearer_tokens, bootstrap_token, bootstrap_user_id),
                api_keys,
                revoked,
            ),
        ),
    }
}

/// Authenticates a request's headers against parsed credential configuration
/// at unix time `now`.
pub fn authenticate_with(
    authorization: Option<&str>,
    api_key: Option<&str>,
    bearer_tokens: &[(String, CredentialRecord)],
    api_keys: &[(String, CredentialRecord)],
    secrets: &[(String, String)],
    active_kids: &[String],
    revoked_key_ids: &[String],
    bootstrap_token: Option<&str>,
    bootstrap_user_id: Option<&str>,
    now: i64,
) -> (r: Result<Identity, CoreAuthError>)
    ensures
        auth_result_ok(
            r,
            opt_str(authorization),
            opt_str(api_key),
            table_view(bearer_tokens@),
            table_view(api_keys@),
            pairs_view(secrets@),
            strs_view(active_kids@),
            strs_view(revoked_key_ids@),
            opt_str(bootstrap_token),
            opt_str(bootstrap_user_id),
            now,
        ),
{
    let header = match authorization {
        Some(h) => if trim(&to_chars(h)).len() > 0 {
            Some(h)
        } else {
            None
        },
        None => None,
    };
    match header {
        Some(h) => {
            let hc = to_chars(h);
            let i = find_char(&hc, ' ');
            proof {
                lemma_first_index_bounds(hc@, ' ');
            }
            if i >= hc.len() {
                return deny("invalid_credentials", "Authorization header must use Bearer scheme");
            }
            let scheme = lowercase(string_of(&copy_range(&hc, 0, i)).as_str());
            let bearer = "bearer".to_owned();
            if !(scheme == bearer) {
                return deny("invalid_credentials", "Authorization header must use Bearer scheme");
            }
            let token = trim(&copy_range(&hc, i + 1, hc.len()));
            if token.len() == 0 {
                return deny("missing_credentials", "Missing bearer token");
            }
            proof {
                reveal_strlit("v1.");
            }
            if starts_with(&token, &to_chars("v1.")) {
                return authenticate_signed_bearer(
                    string_of(&token).as_str(),
                    secrets,
                    active_kids,
                    revoked_key_ids,
                    now,
                );
            }
            if bearer_tokens.len() == 0 {
                match bootstrap_token {
                    Some(b) => if trim(&to_chars(b)).len() > 0 {
                        let table = vec![(b.to_owned(), bootstrap_record(bootstrap_user_id))];
                        assert(table_view(table@) =~= bearer_table(
                            table_view(bearer_tokens@),
                            opt_str(bootstrap_token),
                            opt_str(bootstrap_user_id),
                        ));
                        return static_check(
                            find_record(&table, &token),
                            revoked_key_ids,
                            "bearer",
                            "Bearer token has been revoked",
                        );
                    },
                    None => {},
                }
            }
            static_check(
                find_record(bearer_tokens, &token),
                revoked_key_ids,
                "bearer",
                "Bearer token has been revoked",
            )
        },
        None => {
            let key = match api_key {
                Some(k) => trim(&to_chars(k)),
                None => Vec::new(),
            };
            if key.len() == 0 {
                return deny(
                    "missing_credentials",
                    "Authentication required. Provide Authorization: Bearer <token> or X-API-Key.",
                );
            }
            static_check(
                find_record(api_keys, &key),
                revoked_key_ids,
                "api_key",
                "API key has been revoked",
            )
        },
    }
}

/// Whether parsed configuration is what the raw configuration texts give.
pub open spec fn config_ok(
    bearer_tokens_json: Option<Seq<char>>,
    api_keys_json: Option<Seq<char>>,
    bearer_secrets: Option<Seq<char>>,
    active_kids_raw: Option<Seq<char>>,
    revoked_key_ids_raw: Option<Seq<char>>,
    bearer_tokens: Seq<(Seq<char>, CredView)>,
    api_keys: Seq<(Seq<char>, CredView)>,
    secrets: Seq<(Seq<char>, Seq<char>)>,
    active: Seq<Seq<char>>,
    revoked: Seq<Seq<char>>,
) -> bool {
    &&& table_from(bearer_tokens, config_entries(bearer_tokens_json))
    &&& table_from(api_keys, config_entries(api_keys_json))
    &&& holds_map(secrets, kv_map_of(bearer_secrets))
    &&& sorted_set(active, list_items(active_kids_raw))
    &&& sorted_set(revoked, list_items(revoked_key_ids_raw))
}

/// Authenticates request headers against raw credential configuration: JSON
/// maps of bearer tokens and API keys, `kid:secret` pairs, comma-separated
/// active and revoked key ids, and an optional bootstrap token and user.
/// Only the expiry check of signed tokens reads the clock.
pub fn authenticate_headers_core(
    authorization: Option<&str>,
    api_key: Option<&str>,
    bearer_tokens_json: Option<&str>,
    api_keys_json: Option<&str>,
    bearer_secrets: Option<&str>,
    active_kids_raw: Option<&str>,
    revoked_key_ids_raw: Option<&str>,
    bootstrap_token: Option<&str>,
    bootstrap_user_id: Option<&str>,
) -> (r: Result<Identity, CoreAuthError>)
    ensures
        exists|
            bt: Seq<(Seq<char>, CredView)>,
            ak: Seq<(Seq<char>, CredView)>,
            sc: Seq<(Seq<char>, Seq<char>)>,
            ac: Seq<Seq<char>>,
            rv: Seq<Seq<char>>,
            now: i64,
        |
            #[trigger] config_ok(
                opt_str(bearer_tokens_json),
                opt_str(api_keys_json),
                opt_str(bearer_secrets),
                opt_str(active_kids_raw),
                opt_str(revoked_key_ids_raw),
                bt,
                ak,
                sc,
                ac,
                rv,
            ) && #[trigger] auth_result_ok(
                r,
                opt_str(authorization),
                opt_str(api_key),
                bt,
                ak,
                sc,
                ac,
                rv,
                opt_str(bootstrap_token),
                opt_str(bootstrap_user_id),
                now,
            ),
{
    let bearer_tokens = parse_record_map(bearer_tokens_json);
    let api_keys = parse_record_map(api_keys_json);
    let secrets = parse_key_value_map(bearer_secrets);
    let active_kids = parse_string_set(active_kids_raw);
    let revoked_key_ids = parse_string_set(revoked_key_ids_raw);
    let now = now_unix_seconds();
    let r = authenticate_with(
        authorization,
        api_key,
        &bearer_tokens,
        &api_keys,
        &secrets,
        &active_kids,
        &revoked_key_ids,
        bootstrap_token,
        bootstrap_user_id,
        now,
    );
    assert(config_ok(
        opt_str(bearer_tokens_json),
        opt_str(api_keys_json),
        opt_str(bearer_secrets),
        opt_str(active_kids_raw),
        opt_str(revoked_key_ids_raw),
        table_view(bearer_tokens@),
        table_view(api_keys@),
        pairs_view(secrets@),
        strs_view(active_kids@),
        strs_view(revoked_key_ids@),
    ));
    r
}

/// Counts and key ids of the configured credential stores; no secret is included.
#[derive(Debug, Clone)]
pub struct AuthCapabilities {
    pub configured_static_token_count: usize,
    pub configured_signing_kid_count: usize,
    pub configured_static_api_key_count: usize,
    /// Active key ids, ascending.
    pub active_kids: Vec<String>,
    /// Revoked key ids, ascending.
    pub revoked_key_ids: Vec<String>,
}

/// Summarizes credential configuration for diagnostics.
pub fn auth_capabilities_snapshot(
    bearer_tokens_json: Option<&str>,
    api_keys_json: Option<&str>,
    bearer_secrets: Option<&str>,
    active_kids_raw: Option<&str>,
    revoked_key_ids_raw: Option<&str>,
) -> (r: AuthCapabilities)
    ensures
        exists|s: Seq<(Seq<char>, Seq<char>)>|
            holds_map(s, kv_map_of(opt_str(bearer_secrets))) && r.configured_signing_kid_count
                == s.len(),
        exists|t: Seq<(Seq<char>, CredView)>|
            #[trigger] table_from(t, config_entries(opt_str(bearer_tokens_json)))
                && r.configured_static_token_count == t.len(),
        exists|t: Seq<(Seq<char>, CredView)>|
            #[trigger] table_from(t, config_entries(opt_str(api_keys_json)))
                && r.configured_static_api_key_count == t.len(),
        sorted_set(strs_view(r.active_kids@), list_items(opt_str(active_kids_raw))),
        sorted_set(strs_view(r.revoked_key_ids@), list_items(opt_str(revoked_key_ids_raw))),
{
    let bearer_tokens = parse_record_map(bearer_tokens_json);
    let api_keys = parse_record_map(api_keys_json);
    let secrets = parse_key_value_map(bearer_secrets);
    assert(holds_map(pairs_view(secrets@), kv_map_of(opt_str(bearer_secrets))));
    assert(pairs_view(secrets@).len() == secrets@.len());
    assert(table_view(bearer_tokens@).len() == bearer_tokens@.len());
    assert(table_view(api_keys@).len() == api_keys@.len());
    AuthCapabilities {
        configured_static_token_count: bearer_tokens.len(),
        configured_signing_kid_count: secrets.len(),
        configured_static_api_key_count: api_keys.len(),
        active_kids: parse_string_set(active_kids_raw),
        revoked_key_ids: parse_string_set(revoked_key_ids_raw),
    }
}

/// Decimal digit of a value below ten.
pub open spec fn dec_digit(n: int) -> char {
    seq!['0', '1', '2', '3', '4', '5', '6', '7', '8', '9'][n]
}

/// Decimal text of a natural number, as `Display` writes it.
pub open spec fn dec_of(n: nat) -> Seq<char>
    decreases n,
{
    if n < 10 {
        seq![dec_digit(n as int)]
    } else {
        dec_of(n / 10) + seq![dec_digit((n % 10) as int)]
    }
}

/// Decimal text of an integer, with a leading `-` when negative.
pub open spec fn int_text(n: int) -> Seq<char> {
    if n < 0 {
        seq!['-'] + dec_of((-n) as nat)
    } else {
        dec_of(n as nat)
    }
}

fn dec_text(n: u64) -> (r: Vec<char>)
    ensures
        r@ == dec_of(n as nat),
    decreases n,
{
    let digits: [char; 10] = ['0', '1', '2', '3', '4', '5', '6', '7', '8', '9'];
    assert(digits@ =~= seq!['0', '1', '2', '3', '4', '5', '6', '7', '8', '9']);
    if n < 10 {
        let mut v: Vec<char> = Vec::new();
        v.push(digits[n as usize]);
        v
    } else {
        let mut v = dec_text(n / 10);
        v.push(digits[(n % 10) as usize]);
        v
    }
}

/// JSON text of a failure.
pub open spec fn error_json_of(e: CoreAuthError) -> Seq<char> {
    "{\"code\":"@ + json_quoted(e.code@) + ",\"detail\":"@ + json_quoted(e.detail@)
        + ",\"status_code\":"@ + int_text(e.status_code as int) + "}"@
}

impl CoreAuthError {
    /// Compact JSON text: `{"code":...,"detail":...,"status_code":...}`.
    pub fn as_json(&self) -> (r: String)
        ensures
            r@ == error_json_of(*self),
    {
        let mut out = to_chars("{\"code\":");
        append_chars(&mut out, &to_chars(json_quote(self.code.as_str()).as_str()));
        append_chars(&mut out, &to_chars(",\"detail\":"));
        append_chars(&mut out, &to_chars(json_quote(self.detail.as_str()).as_str()));
        append_chars(&mut out, &to_chars(",\"status_code\":"));
        let n = self.status_code as i64;
        if n < 0 {
            out.push('-');
            append_chars(&mut out, &dec_text((-n) as u64));
        } else {
            append_chars(&mut out, &dec_text(n as u64));
        }
        append_chars(&mut out, &to_chars("}"));
        string_of(&out)
    }
}

/// A signed token whose key id is revoked is refused as a revoked key,
/// whatever its signature and expiry.
pub proof fn lemma_revoked_kid_refused(
    c: TokenClaims,
    payload_segment: Seq<char>,
    sig: Seq<u8>,
    secrets: Seq<(Seq<char>, Seq<char>)>,
    active: Seq<Seq<char>>,
    revoked: Seq<Seq<char>>,
    now: i64,
)
    requires
        c.kid is Some,
        c.kid->0@.len() > 0,
        revoked.contains(c.kid->0@),
    ensures
        signed_decision(c, payload_segment, sig, secrets, active, revoked, now) == Decision::Deny(
            code_revoked_key(),
        ),
{
}

/// A correctly signed token from an allowed, unrevoked key whose expiry is
/// in the past is refused as expired.
pub proof fn lemma_expired_token_refused(
    c: TokenClaims,
    payload_segment: Seq<char>,
    sig: Seq<u8>,
    secrets: Seq<(Seq<char>, Seq<char>)>,
    active: Seq<Seq<char>>,
    revoked: Seq<Seq<char>>,
    now: i64,
)
    requires
        c.kid is Some,
        c.kid->0@.len() > 0,
        active.len() == 0 || active.contains(c.kid->0@),
        !revoked.contains(c.kid->0@),
        pair_lookup(secrets, c.kid->0@) is Some,
        expected_signature(pair_lookup(secrets, c.kid->0@)->0, payload_segment) == hex_of(sig),
        c.exp is Some,
        c.exp->0 < now,
    ensures
        signed_decision(c, payload_segment, sig, secrets, active, revoked, now) == Decision::Deny(
            code_expired_token(),
        ),
{
}

/// A static credential whose key id is revoked is refused as a revoked key;
/// one that is disabled and not revoked is refused as a disabled identity.
pub proof fn lemma_static_refusals(c: CredView, revoked: Seq<Seq<char>>, method: Seq<char>)
    ensures
        c.key_id is Some && revoked.contains(c.key_id->0) ==> static_decision(Some(c), revoked, method)
            == Decision::Deny(code_revoked_key()),
        c.disabled && !(c.key_id is Some && revoked.contains(c.key_id->0)) ==> static_decision(
            Some(c),
            revoked,
            method,
        ) == Decision::Deny(code_disabled_identity()),
{
}

/// Without an `Authorization` or `X-API-Key` header a request is refused for
/// missing credentials.
pub proof fn lemma_no_headers_missing(
    bearer: Seq<(Seq<char>, CredView)>,
    api_keys: Seq<(Seq<char>, CredView)>,
    revoked: Seq<Seq<char>>,
)
    ensures
        route_of(None, None) == Route::Missing,
        header_decision(route_of(None, None), bearer, api_keys, revoked) == Decision::Deny(
            code_missing_credentials(),
        ),
{
}

} // verus!
