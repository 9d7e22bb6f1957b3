//! Keys and backend ids as they are read from request URLs and bodies.
use vstd::prelude::*;

verus! {

/// Prefix of the data-plane URLs.
pub const STORE_PREFIX: &'static str = "/store/";

/// Prefix of the control-plane URLs.
pub const ADMIN_PREFIX: &'static str = "/admin/";

/// `url` with `prefix` taken off its front, or `url` itself when it does
/// not start with `prefix`.
pub open spec fn strip_prefix(url: Seq<char>, prefix: Seq<char>) -> Seq<char> {
    if prefix.is_prefix_of(url) {
        url.skip(prefix.len() as int)
    } else {
        url
    }
}

/// The part of `s` before its first `?`; all of `s` when it holds none.
pub open spec fn before_query(s: Seq<char>) -> Seq<char>
    decreases s.len(),
{
    if s.len() == 0 {
        s
    } else if s[0] == '?' {
        Seq::empty()
    } else {
        seq![s[0]] + before_query(s.skip(1))
    }
}

/// The key that a request URL names under `prefix`: the prefix is stripped,
/// then the query string is cut off.
pub open spec fn key_of(url: Seq<char>, prefix: Seq<char>) -> Seq<char> {
    before_query(strip_prefix(url, prefix))
}

/// When the first `n` characters of `s` hold no `?`, they come first in
/// `before_query(s)`, followed by what the rest of `s` gives.
proof fn lemma_before_query_split(s: Seq<char>, n: int)
    requires
        0 <= n <= s.len(),
        forall|j: int| 0 <= j < n ==> s[j] != '?',
    ensures
        before_query(s) == s.take(n) + before_query(s.skip(n)),
    decreases n,
{
    if n == 0 {
        assert(s.take(0) =~= Seq::<char>::empty());
        assert(s.skip(0) =~= s);
    } else {
        let t = s.skip(1);
        lemma_before_query_split(t, n - 1);
        assert(t.take(n - 1) =~= s.subrange(1, n));
        assert(t.skip(n - 1) =~= s.skip(n));
        assert(s.take(n) =~= seq![s[0]] + s.subrange(1, n));
    }
}

/// A query string does not change the key: for a key `k` without `?` and any
/// query `q`, the URL `<prefix>k?q` names the same key as `<prefix>k`, and
/// that key is `k`.
pub proof fn lemma_query_string_ignored(prefix: Seq<char>, k: Seq<char>, q: Seq<char>)
    requires
        forall|j: int| 0 <= j < k.len() ==> k[j] != '?',
    ensures
        key_of(prefix + k + seq!['?'] + q, prefix) == key_of(prefix + k, prefix),
        key_of(prefix + k, prefix) == k,
{
    let with_query = prefix + k + seq!['?'] + q;
    let plain = prefix + k;
    assert(prefix.is_prefix_of(with_query)) by {
        assert(with_query.take(prefix.len() as int) =~= prefix);
    }
    assert(prefix.is_prefix_of(plain)) by {
        assert(plain.take(prefix.len() as int) =~= prefix);
    }
    let rest = with_query.skip(prefix.len() as int);
    assert(rest =~= k + seq!['?'] + q);
    assert(plain.skip(prefix.len() as int) =~= k);
    lemma_before_query_split(rest, k.len() as int);
    assert(rest.take(k.len() as int) =~= k);
    assert(rest.skip(k.len() as int)[0] == '?');
    lemma_before_query_split(k, k.len() as int);
    assert(k.take(k.len() as int) =~= k);
    assert(k.skip(k.len() as int) =~= Seq::<char>::empty());
}

/// Whether `s` starts with `prefix`.
pub fn has_prefix(s: &str, prefix: &str) -> (b: bool)
    ensures
        b == prefix@.is_prefix_of(s@),
{
    let s_len = s.unicode_len();
    let prefix_len = prefix.unicode_len();
    if prefix_len > s_len {
        return false;
    }
    let mut i: usize = 0;
    while i < prefix_len
        invariant
            s_len == s@.len(),
            prefix_len == prefix@.len(),
            prefix_len <= s_len,
            i <= prefix_len,
            s@.take(i as int) == prefix@.take(i as int),
        decreases prefix_len - i,
    {
        if s.get_char(i) != prefix.get_char(i) {
            return false;
        }
        assert(s@.take(i + 1) =~= s@.take(i as int).push(s@[i as int]));
        assert(prefix@.take(i + 1) =~= prefix@.take(i as int).push(prefix@[i as int]));
        i = i + 1;
    }
    assert(prefix@ =~= prefix@.take(prefix_len as int));
    true
}

/// Returns the key of a request URL: `url` without `prefix` (where it starts
/// with it) and without anything from the first `?` on.
pub fn get_key(url: &str, prefix: &str) -> (key: String)
    ensures
        key@ == key_of(url@, prefix@),
{
    let url_len = url.unicode_len();
    let prefix_len = prefix.unicode_len();
    let starts = has_prefix(url, prefix);
    proof {
        if starts {
            assert(prefix_len <= url_len);
        }
    }
    let start: usize = if starts { prefix_len } else { 0 };
    let ghost rest = strip_prefix(url@, prefix@);
    assert(rest =~= url@.skip(start as int));

    let mut end: usize = start;
    while end < url_len && url.get_char(end) != '?'
        invariant
            url_len == url@.len(),
            start <= end <= url_len,
            rest =~= url@.skip(start as int),
            forall|j: int| 0 <= j < end - start ==> rest[j] != '?',
        decreases url_len - end,
    {
        end = end + 1;
    }
    proof {
        let n = end - start;
        lemma_before_query_split(rest, n);
        if end < url_len {
            assert(rest.skip(n)[0] == '?');
        } else {
            assert(rest.skip(n) =~= Seq::<char>::empty());
        }
        assert(rest.take(n) =~= url@.subrange(start as int, end as int));
    }
    url.substring_char(start, end).to_owned()
}

/// A backend id in canonical form: no trailing `/`.
pub open spec fn is_canonical(id: Seq<char>) -> bool {
    id.len() == 0 || id.last() != '/'
}

/// `url` with every trailing `/` taken off.
pub open spec fn canonical_id(url: Seq<char>) -> Seq<char>
    decreases url.len(),
{
    if url.len() > 0 && url.last() == '/' {
        canonical_id(url.drop_last())
    } else {
        url
    }
}

/// Where a request for `key` is sent when `key` is placed on `backend`.
pub open spec fn location(backend: Seq<char>, key: Seq<char>) -> Seq<char> {
    backend + seq!['/'] + key
}

/// When the characters of `url` from `n` on are all `/`, the canonical
/// form of `url` is that of its first `n` characters.
proof fn lemma_canonical_take(url: Seq<char>, n: int)
    requires
        0 <= n <= url.len(),
        forall|j: int| n <= j < url.len() ==> url[j] == '/',
    ensures
        canonical_id(url) == canonical_id(url.take(n)),
    decreases url.len() - n,
{
    if n < url.len() {
        assert(url.drop_last().take(n) =~= url.take(n));
        lemma_canonical_take(url.drop_last(), n);
    } else {
        assert(url.take(n) =~= url);
    }
}

/// The canonical form has no trailing `/`.
pub proof fn lemma_canonical_id_is_canonical(url: Seq<char>)
    ensures
        is_canonical(canonical_id(url)),
    decreases url.len(),
{
    if url.len() > 0 && url.last() == '/' {
        lemma_canonical_id_is_canonical(url.drop_last());
    }
}

/// Returns `url` without its trailing `/` characters: the canonical form of a
/// backend id.
pub fn canonical_url(url: &str) -> (id: String)
    ensures
        id@ == canonical_id(url@),
        is_canonical(id@),
{
    let len = url.unicode_len();
    let mut end: usize = len;
    while end > 0 && url.get_char(end - 1) == '/'
        invariant
            len == url@.len(),
            end <= len,
            forall|j: int| end <= j < len ==> url@[j] == '/',
        decreases end,
    {
        end = end - 1;
    }
    proof {
        lemma_canonical_take(url@, end as int);
        assert(url@.take(end as int) =~= url@.subrange(0, end as int));
        if end > 0 {
            assert(url@.take(end as int).last() != '/');
        }
        lemma_canonical_id_is_canonical(url@);
    }
    url.substring_char(0, end).to_owned()
}

/// Returns the redirect target `<backend>/<key>` of a request for `key`.
pub fn location_of(backend: &str, key: &str) -> (loc: String)
    ensures
        loc@ == location(backend@, key@),
{
    let mut loc = backend.to_owned();
    loc.append("/");
    loc.append(key);
    proof {
        reveal_strlit("/");
    }
    loc
}

} // verus!
