//! Storage locations: how a root URI selects a backend, and space names in listings.

use vstd::prelude::*;
use crate::text::{chars_eq, string_of, to_chars};

verus! {

/// Scheme and path of a URI, where it parses as a URL.
pub uninterp spec fn url_parts_of(uri: Seq<char>) -> Option<(Seq<char>, Seq<char>)>;

/// Relies on `url::Url::parse`, `scheme` and `path`.
#[verifier::external_body]
fn parse_url_parts(uri: &str) -> (r: Option<(String, String)>)
    ensures
        match r {
            Some((s, p)) => url_parts_of(uri@) == Some((s@, p@)),
            None => url_parts_of(uri@) is None,
        },
{
    url::Url::parse(uri).ok().map(|u| (u.scheme().to_string(), u.path().to_string()))
}

/// `s` without leading slashes.
pub open spec fn strip_leading_slashes(s: Seq<char>) -> Seq<char>
    decreases s.len(),
{
    if s.len() > 0 && s[0] == '/' {
        strip_leading_slashes(s.drop_first())
    } else {
        s
    }
}

/// Whether a scheme names the local filesystem.
pub open spec fn is_local_scheme(scheme: Seq<char>) -> bool {
    scheme == "fs"@ || scheme == "file"@
}

/// Storage type, root and scheme of a root URI: local for `fs` and `file`
/// URLs and for text that is no URL; otherwise the scheme, with the path
/// taken relative.
pub open spec fn storage_of(uri: Seq<char>) -> (Seq<char>, Seq<char>, Seq<char>) {
    match url_parts_of(uri) {
        Some((scheme, path)) => if is_local_scheme(scheme) {
            ("local"@, path, scheme)
        } else {
            (scheme, strip_leading_slashes(path), scheme)
        },
        None => ("local"@, uri, "file"@),
    }
}

/// Storage type, root and scheme of a root URI.
pub fn storage_type_and_root(root_uri: &str) -> (r: (String, String, String))
    ensures
        (r.0@, r.1@, r.2@) == storage_of(root_uri@),
{
    match parse_url_parts(root_uri) {
        Some((scheme, path)) => {
            let sc = to_chars(scheme.as_str());
            if chars_eq(&sc, &to_chars("fs")) || chars_eq(&sc, &to_chars("file")) {
                ("local".to_owned(), path, scheme)
            } else {
                let p = to_chars(path.as_str());
                let mut i: usize = 0;
                assert(p@.skip(0) =~= p@);
                while i < p.len() && p[i] == '/'
                    invariant
                        i <= p@.len(),
                        strip_leading_slashes(p@) == strip_leading_slashes(p@.skip(i as int)),
                    decreases p@.len() - i,
                {
                    assert(p@.skip(i as int).drop_first() =~= p@.skip(i as int + 1));
                    i += 1;
                }
                let mut rest: Vec<char> = Vec::new();
                let mut j = i;
                while j < p.len()
                    invariant
                        i <= j <= p@.len(),
                        rest@ == p@.subrange(i as int, j as int),
                    decreases p@.len() - j,
                {
                    rest.push(p[j]);
                    j += 1;
                }
                assert(rest@ =~= p@.skip(i as int));
                (scheme.clone(), string_of(&rest), scheme)
            }
        },
        None => ("local".to_owned(), root_uri.to_owned(), "file".to_owned()),
    }
}

/// `s` without trailing slashes.
pub open spec fn strip_trailing_slashes(s: Seq<char>) -> Seq<char>
    decreases s.len(),
{
    if s.len() > 0 && s.last() == '/' {
        strip_trailing_slashes(s.drop_last())
    } else {
        s
    }
}

/// The part of `s` after its last slash.
pub open spec fn last_segment(s: Seq<char>) -> Seq<char>
    decreases s.len(),
{
    if s.len() == 0 || s.last() == '/' {
        Seq::empty()
    } else {
        last_segment(s.drop_last()).push(s.last())
    }
}

/// The space named by a directory entry of `spaces/`: its last path segment,
/// trailing slashes ignored; `None` where that is empty.
pub fn space_id_from_entry(name: &str) -> (r: Option<String>)
    ensures
        match r {
            Some(s) => s@ == last_segment(strip_trailing_slashes(name@)) && s@.len() > 0,
            None => last_segment(strip_trailing_slashes(name@)).len() == 0,
        },
{
    let n = to_chars(name);
    let mut end: usize = n.len();
    assert(n@.take(end as int) =~= n@);
    while end > 0 && n[end - 1] == '/'
        invariant
            end <= n@.len(),
            strip_trailing_slashes(name@) == strip_trailing_slashes(n@.take(end as int)),
            n@ == name@,
        decreases end,
    {
        assert(n@.take(end as int).drop_last() =~= n@.take(end as int - 1));
        end -= 1;
    }
    let ghost s = n@.take(end as int);
    assert(strip_trailing_slashes(name@) == s);
    let mut start: usize = end;
    assert(s.subrange(start as int, end as int) =~= Seq::<char>::empty());
    assert(s.take(start as int) =~= s);
    assert(last_segment(s) + Seq::<char>::empty() =~= last_segment(s));
    while start > 0 && n[start - 1] != '/'
        invariant
            start <= end <= n@.len(),
            s == n@.take(end as int),
            last_segment(s) == last_segment(s.take(start as int)) + s.subrange(
                start as int,
                end as int,
            ),
        decreases start,
    {
        proof {
            let t = s.take(start as int);
            assert(t.last() == n@[start - 1]);
            assert(t.drop_last() =~= s.take(start as int - 1));
            assert(last_segment(t.drop_last()).push(t.last()) + s.subrange(start as int, end as int)
                =~= last_segment(s.take(start as int - 1)) + s.subrange(start as int - 1, end as int));
        }
        start -= 1;
    }
    proof {
        let t = s.take(start as int);
        if start > 0 {
            assert(t.last() == n@[start - 1]);
        }
        assert(last_segment(t) =~= Seq::<char>::empty());
        assert(s.take(end as int) =~= s);
    }
    if start == end {
        assert(s.subrange(start as int, end as int) =~= Seq::<char>::empty());
        return None;
    }
    let mut out: Vec<char> = Vec::new();
    let mut k = start;
    while k < end
        invariant
            start <= k <= end <= n@.len(),
            out@ == n@.subrange(start as int, k as int),
        decreases end - k,
    {
        out.push(n[k]);
        k += 1;
    }
    assert(out@ =~= s.subrange(start as int, end as int));
    Some(string_of(&out))
}

} // verus!
