//! Parsing of operator-supplied credential configuration text.
//!
//! Malformed entries are skipped, never reported: configuration is read leniently.

use vstd::prelude::*;
use crate::text::{
    chars_eq, chars_lt, copy_range, find_char, first_index, lemma_first_index_bounds, lex_lt,
    split, split_on, string_of, to_chars, trim, trimmed,
};

verus! {

/// Views of a list of strings.
pub open spec fn strs_view(v: Seq<String>) -> Seq<Seq<char>> {
    v.map_values(|s: String| s@)
}

/// The non-blank trimmed items among `ps`.
pub open spec fn trimmed_items(ps: Seq<Seq<char>>) -> Set<Seq<char>>
    decreases ps.len(),
{
    if ps.len() == 0 {
        Set::empty()
    } else if trimmed(ps.last()).len() > 0 {
        trimmed_items(ps.drop_last()).insert(trimmed(ps.last()))
    } else {
        trimmed_items(ps.drop_last())
    }
}

/// The items of a comma-separated list: trimmed, blanks dropped.
pub open spec fn list_items(raw: Option<Seq<char>>) -> Set<Seq<char>> {
    match raw {
        Some(s) => trimmed_items(split_on(s, ',')),
        None => Set::empty(),
    }
}

/// Strictly ascending: sorted, without duplicates.
pub open spec fn ascending(s: Seq<Seq<char>>) -> bool {
    forall|i: int, j: int| 0 <= i < j < s.len() ==> lex_lt(#[trigger] s[i], #[trigger] s[j])
}

/// `s` holds exactly the members of `items`, in ascending order.
pub open spec fn sorted_set(s: Seq<Seq<char>>, items: Set<Seq<char>>) -> bool {
    ascending(s) && forall|y: Seq<char>| #[trigger] s.contains(y) <==> items.contains(y)
}

pub proof fn lemma_lex_irreflexive(a: Seq<char>)
    ensures
        !lex_lt(a, a),
    decreases a.len(),
{
    if a.len() > 0 {
        lemma_lex_irreflexive(a.drop_first());
    }
}

pub proof fn lemma_lex_total(a: Seq<char>, b: Seq<char>)
    ensures
        a == b || lex_lt(a, b) || lex_lt(b, a),
    decreases a.len(),
{
    if a.len() > 0 && b.len() > 0 && a[0] == b[0] {
        lemma_lex_total(a.drop_first(), b.drop_first());
        if a.drop_first() == b.drop_first() {
            assert(a =~= seq![a[0]] + a.drop_first());
            assert(b =~= seq![b[0]] + b.drop_first());
        }
    } else if a.len() == 0 && b.len() == 0 {
        assert(a =~= b);
    } else if a.len() > 0 && b.len() > 0 {
        vstd::utf8::char_u32_cast(a[0], a[0] as u32);
        vstd::utf8::char_u32_cast(b[0], b[0] as u32);
        assert((a[0] as u32) != (b[0] as u32));
    }
}

pub proof fn lemma_lex_trans(a: Seq<char>, b: Seq<char>, c: Seq<char>)
    requires
        lex_lt(a, b),
        lex_lt(b, c),
    ensures
        lex_lt(a, c),
    decreases a.len(),
{
    if a.len() > 0 && a[0] == b[0] && b[0] == c[0] {
        lemma_lex_trans(a.drop_first(), b.drop_first(), c.drop_first());
    }
}

/// Adds `x` to an ascending list unless it is there.
fn insert_unique(s: &mut Vec<String>, x: String)
    requires
        ascending(strs_view(old(s)@)),
    ensures
        ascending(strs_view(final(s)@)),
        forall|y: Seq<char>|
            #[trigger] strs_view(final(s)@).contains(y) <==> (strs_view(old(s)@).contains(y) || y
                == x@),
{
    let ghost v = strs_view(s@);
    let xc = to_chars(x.as_str());
    let mut p: usize = 0;
    while p < s.len() && chars_lt(&to_chars(s[p].as_str()), &xc)
        invariant
            p <= s@.len(),
            v == strs_view(s@),
            xc@ == x@,
            forall|j: int| 0 <= j < p ==> lex_lt(#[trigger] v[j], x@),
        decreases s@.len() - p,
    {
        assert(v[p as int] == s@[p as int]@);
        p += 1;
    }
    if p < s.len() {
        assert(v[p as int] == s@[p as int]@);
        if chars_eq(&to_chars(s[p].as_str()), &xc) {
            assert(v[p as int] == x@);
            return;
        }
        proof {
            lemma_lex_total(v[p as int], x@);
        }
    }
    proof {
        assert forall|j: int| p <= j < v.len() implies lex_lt(x@, #[trigger] v[j]) by {
            if j > p {
                lemma_lex_trans(x@, v[p as int], v[j]);
            }
        }
    }
    s.insert(p, x);
    let ghost w = strs_view(s@);
    assert(w =~= v.take(p as int).push(x@) + v.skip(p as int));
    assert forall|i: int, j: int| 0 <= i < j < w.len() implies lex_lt(#[trigger] w[i], #[trigger] w[j]) by {
        if j < p {
            assert(w[i] == v[i] && w[j] == v[j]);
        } else if j == p {
            assert(w[i] == v[i]);
        } else if i < p {
            assert(w[i] == v[i] && w[j] == v[j - 1]);
            lemma_lex_trans(v[i], x@, v[j - 1]);
        } else if i == p {
            assert(w[j] == v[j - 1]);
        } else {
            assert(w[i] == v[i - 1] && w[j] == v[j - 1]);
        }
    }
    assert forall|y: Seq<char>| #[trigger] w.contains(y) <==> (v.contains(y) || y == x@) by {
        if w.contains(y) {
            let i = choose|i: int| 0 <= i < w.len() && w[i] == y;
            if i < p {
                assert(v[i] == y);
            } else if i > p {
                assert(v[i - 1] == y);
            }
        }
        if v.contains(y) {
            let i = choose|i: int| 0 <= i < v.len() && v[i] == y;
            if i < p {
                assert(w[i] == y);
            } else {
                assert(w[i + 1] == y);
            }
        }
        if y == x@ {
            assert(w[p as int] == y);
        }
    }
}

/// Adds the non-blank trimmed items of `pieces` to `out`.
fn add_trimmed(out: &mut Vec<String>, pieces: &Vec<Vec<char>>, Ghost(ps): Ghost<Seq<Seq<char>>>)
    requires
        sorted_set(strs_view(old(out)@), Set::empty()),
        pieces@.len() == ps.len(),
        forall|j: int| 0 <= j < ps.len() ==> #[trigger] pieces@[j]@ == ps[j],
    ensures
        sorted_set(strs_view(final(out)@), trimmed_items(ps)),
{
    let mut i: usize = 0;
    assert(ps.take(0) =~= Seq::<Seq<char>>::empty());
    while i < pieces.len()
        invariant
            i <= pieces@.len() == ps.len(),
            forall|j: int| 0 <= j < ps.len() ==> #[trigger] pieces@[j]@ == ps[j],
            sorted_set(strs_view(out@), trimmed_items(ps.take(i as int))),
        decreases pieces@.len() - i,
    {
        let t = trim(&pieces[i]);
        proof {
            let q = ps.take(i as int + 1);
            assert(q.drop_last() =~= ps.take(i as int));
            assert(q.last() == pieces@[i as int]@);
        }
        if t.len() > 0 {
            insert_unique(out, string_of(&t));
        }
        i += 1;
    }
    assert(ps.take(i as int) =~= ps);
}

/// A comma-separated list read as a set, returned in ascending order.
pub fn parse_string_set(raw: Option<&str>) -> (r: Vec<String>)
    ensures
        sorted_set(
            strs_view(r@),
            list_items(
                match raw {
                    Some(s) => Some(s@),
                    None => None,
                },
            ),
        ),
{
    let mut out: Vec<String> = Vec::new();
    match raw {
        Some(s) => {
            let pieces = split(&to_chars(s), ',');
            add_trimmed(&mut out, &pieces, Ghost(split_on(s@, ',')));
        },
        None => {},
    }
    out
}

/// Scopes: the non-blank trimmed strings, sorted, without duplicates.
pub fn normalize_scopes(raw: &[String]) -> (r: Vec<String>)
    ensures
        sorted_set(strs_view(r@), trimmed_items(strs_view(raw@))),
{
    let mut pieces: Vec<Vec<char>> = Vec::new();
    let mut i: usize = 0;
    while i < raw.len()
        invariant
            i <= raw@.len(),
            pieces@.len() == i,
            forall|j: int| 0 <= j < i ==> #[trigger] pieces@[j]@ == raw@[j]@,
        decreases raw@.len() - i,
    {
        pieces.push(to_chars(raw[i].as_str()));
        i += 1;
    }
    let mut out: Vec<String> = Vec::new();
    add_trimmed(&mut out, &pieces, Ghost(strs_view(raw@)));
    out
}

/// Views of a list of pairs of strings.
pub open spec fn pairs_view(v: Seq<(String, String)>) -> Seq<(Seq<char>, Seq<char>)> {
    v.map_values(|p: (String, String)| (p.0@, p.1@))
}

/// The value paired with `k`, the first such pair counting.
pub open spec fn pair_lookup(s: Seq<(Seq<char>, Seq<char>)>, k: Seq<char>) -> Option<Seq<char>>
    decreases s.len(),
{
    if s.len() == 0 {
        None
    } else if s[0].0 == k {
        Some(s[0].1)
    } else {
        pair_lookup(s.drop_first(), k)
    }
}

/// One `key:value` item: split at its first colon, both sides trimmed; `None`
/// unless both are non-blank.
pub open spec fn kv_item(item: Seq<char>) -> Option<(Seq<char>, Seq<char>)> {
    let t = trimmed(item);
    let i = first_index(t, ':');
    if t.len() == 0 || i >= t.len() {
        None
    } else {
        let k = trimmed(t.subrange(0, i));
        let v = trimmed(t.subrange(i + 1, t.len() as int));
        if k.len() > 0 && v.len() > 0 {
            Some((k, v))
        } else {
            None
        }
    }
}

/// The mapping that the items of `ps` build, a later key replacing an earlier one.
pub open spec fn kv_map(ps: Seq<Seq<char>>) -> Map<Seq<char>, Seq<char>>
    decreases ps.len(),
{
    if ps.len() == 0 {
        Map::empty()
    } else {
        match kv_item(ps.last()) {
            Some((k, v)) => kv_map(ps.drop_last()).insert(k, v),
            None => kv_map(ps.drop_last()),
        }
    }
}

/// The mapping of a `"kid:secret,kid2:secret2"` text.
pub open spec fn kv_map_of(raw: Option<Seq<char>>) -> Map<Seq<char>, Seq<char>> {
    match raw {
        Some(s) => kv_map(split_on(s, ',')),
        None => Map::empty(),
    }
}

/// A list of pairs with distinct keys that holds exactly the mapping `m`.
pub open spec fn holds_map(s: Seq<(Seq<char>, Seq<char>)>, m: Map<Seq<char>, Seq<char>>) -> bool {
    &&& forall|i: int, j: int| 0 <= i < j < s.len() ==> #[trigger] s[i].0 != #[trigger] s[j].0
    &&& forall|k: Seq<char>|
        #[trigger] pair_lookup(s, k) == (if m.contains_key(k) {
            Some(m[k])
        } else {
            None
        })
}

proof fn lemma_pair_lookup_index(s: Seq<(Seq<char>, Seq<char>)>, k: Seq<char>, i: int)
    requires
        0 <= i < s.len(),
        s[i].0 == k,
        forall|j: int| 0 <= j < i ==> s[j].0 != k,
    ensures
        pair_lookup(s, k) == Some(s[i].1),
    decreases s.len(),
{
    if i > 0 {
        lemma_pair_lookup_index(s.drop_first(), k, i - 1);
    }
}

proof fn lemma_pair_lookup_none(s: Seq<(Seq<char>, Seq<char>)>, k: Seq<char>)
    requires
        forall|j: int| 0 <= j < s.len() ==> s[j].0 != k,
    ensures
        pair_lookup(s, k) is None,
    decreases s.len(),
{
    if s.len() > 0 {
        lemma_pair_lookup_none(s.drop_first(), k);
    }
}

/// Sets `k` to `v` in a list of pairs with distinct keys.
fn put_pair(s: &mut Vec<(String, String)>, k: String, v: String, Ghost(m): Ghost<Map<Seq<char>, Seq<char>>>)
    requires
        holds_map(pairs_view(old(s)@), m),
    ensures
        holds_map(pairs_view(final(s)@), m.insert(k@, v@)),
{
    let ghost pv = pairs_view(s@);
    let kc = to_chars(k.as_str());
    let mut i: usize = 0;
    while i < s.len()
        invariant
            i <= s@.len(),
            pv == pairs_view(s@),
            holds_map(pv, m),
            kc@ == k@,
            forall|j: int| 0 <= j < i ==> pv[j].0 != k@,
        decreases s@.len() - i,
    {
        assert(pv[i as int] == (s@[i as int].0@, s@[i as int].1@));
        if chars_eq(&to_chars(s[i].0.as_str()), &kc) {
            assert(pv[i as int].0 == k@);
            s.set(i, (k, v));
            let ghost w = pairs_view(s@);
            assert(w =~= pv.update(i as int, (k@, v@)));
            assert forall|a: int, b: int| 0 <= a < b < w.len() implies #[trigger] w[a].0
                != #[trigger] w[b].0 by {
                assert(w[a].0 == pv[a].0 && w[b].0 == pv[b].0);
            }
            assert forall|q: Seq<char>| #[trigger] pair_lookup(w, q) == (if m.insert(k@, v@).contains_key(q) {
                Some(m.insert(k@, v@)[q])
            } else {
                None
            }) by {
                if q == k@ {
                    lemma_pair_lookup_index(w, q, i as int);
                } else if m.contains_key(q) {
                    assert(pair_lookup(pv, q) is Some);
                    let j = choose_index(pv, q);
                    lemma_pair_lookup_index(w, q, j);
                } else {
                    assert(pair_lookup(pv, q) is None);
                    lemma_lookup_none_all(pv, q);
                    lemma_pair_lookup_none(w, q);
                }
            }
            return;
        }
        i += 1;
    }
    let ghost before = s@;
    s.push((k, v));
    let ghost w = pairs_view(s@);
    assert(w =~= pv.push((k@, v@)));
    assert forall|a: int, b: int| 0 <= a < b < w.len() implies #[trigger] w[a].0
        != #[trigger] w[b].0 by {
        if b < pv.len() {
            assert(w[a].0 == pv[a].0 && w[b].0 == pv[b].0);
        } else {
            assert(w[a].0 == pv[a].0);
        }
    }
    assert forall|q: Seq<char>| #[trigger] pair_lookup(w, q) == (if m.insert(k@, v@).contains_key(q) {
        Some(m.insert(k@, v@)[q])
    } else {
        None
    }) by {
        if q == k@ {
            lemma_pair_lookup_index(w, q, pv.len() as int);
        } else if m.contains_key(q) {
            assert(pair_lookup(pv, q) is Some);
            let j = choose_index(pv, q);
            lemma_pair_lookup_index(w, q, j);
        } else {
            assert(pair_lookup(pv, q) is None);
            lemma_lookup_none_all(pv, q);
            lemma_pair_lookup_none(w, q);
        }
    }
}

/// Index of the first pair with key `k`, where there is one.
proof fn choose_index(s: Seq<(Seq<char>, Seq<char>)>, k: Seq<char>) -> (i: int)
    requires
        pair_lookup(s, k) is Some,
    ensures
        0 <= i < s.len(),
        s[i].0 == k,
        forall|j: int| 0 <= j < i ==> s[j].0 != k,
        pair_lookup(s, k) == Some(s[i].1),
    decreases s.len(),
{
    if s[0].0 == k {
        0
    } else {
        let i = choose_index(s.drop_first(), k);
        assert forall|j: int| 0 <= j < i + 1 implies s[j].0 != k by {
            if j > 0 {
                assert(s[j] == s.drop_first()[j - 1]);
            }
        }
        i + 1
    }
}

proof fn lemma_lookup_none_all(s: Seq<(Seq<char>, Seq<char>)>, k: Seq<char>)
    requires
        pair_lookup(s, k) is None,
    ensures
        forall|j: int| 0 <= j < s.len() ==> s[j].0 != k,
    decreases s.len(),
{
    if s.len() > 0 {
        lemma_lookup_none_all(s.drop_first(), k);
        assert forall|j: int| 0 <= j < s.len() implies s[j].0 != k by {
            if j > 0 {
                assert(s[j] == s.drop_first()[j - 1]);
            }
        }
    }
}

/// Reads one `key:value` item.
fn parse_kv_item(item: &[char]) -> (r: Option<(String, String)>)
    ensures
        match r {
            Some((k, v)) => kv_item(item@) == Some((k@, v@)),
            None => kv_item(item@) is None,
        },
{
    let t = trim(item);
    let i = find_char(&t, ':');
    proof {
        lemma_first_index_bounds(t@, ':');
    }
    if t.len() == 0 || i >= t.len() {
        return None;
    }
    let k = trim(&copy_range(&t, 0, i));
    let v = trim(&copy_range(&t, i + 1, t.len()));
    if k.len() > 0 && v.len() > 0 {
        Some((string_of(&k), string_of(&v)))
    } else {
        None
    }
}

/// A `"kid:secret,kid2:secret2"` text read as a mapping: malformed items are
/// skipped, a later key replaces an earlier one. Keys in the result are distinct.
pub fn parse_key_value_map(raw: Option<&str>) -> (r: Vec<(String, String)>)
    ensures
        holds_map(
            pairs_view(r@),
            kv_map_of(
                match raw {
                    Some(s) => Some(s@),
                    None => None,
                },
            ),
        ),
{
    let mut out: Vec<(String, String)> = Vec::new();
    let text = match raw {
        Some(s) => s,
        None => {
            proof {
                assert forall|k: Seq<char>| #[trigger] pair_lookup(pairs_view(out@), k) is None by {}
            }
            return out;
        },
    };
    let pieces = split(&to_chars(text), ',');
    let ghost ps = split_on(text@, ',');
    let mut i: usize = 0;
    assert(ps.take(0) =~= Seq::<Seq<char>>::empty());
    assert forall|k: Seq<char>| #[trigger] pair_lookup(pairs_view(out@), k) is None by {}
    while i < pieces.len()
        invariant
            i <= pieces@.len() == ps.len(),
            forall|j: int| 0 <= j < ps.len() ==> #[trigger] pieces@[j]@ == ps[j],
            holds_map(pairs_view(out@), kv_map(ps.take(i as int))),
        decreases pieces@.len() - i,
    {
        proof {
            let q = ps.take(i as int + 1);
            assert(q.drop_last() =~= ps.take(i as int));
            assert(q.last() == pieces@[i as int]@);
        }
        match parse_kv_item(&pieces[i]) {
            Some((k, v)) => {
                put_pair(&mut out, k, v, Ghost(kv_map(ps.take(i as int))));
            },
            None => {},
        }
        i += 1;
    }
    assert(ps.take(i as int) =~= ps);
    out
}

} // verus!
